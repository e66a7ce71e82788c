use vstd::prelude::*;

use crate::filter::is_match;
use crate::laws::{lemma_flat_lacks, lemma_tree_lacks, tree_lacks};
use crate::path::{file_name, file_name_spec};
use crate::scan::{flat_files, scan_flat, scan_recursive, tree_files, Contents, Entry};

verus! {

/// The two settings of a transfer: where files go, and the home directory
/// that the source folders lie in.
pub struct Config {
    dest: String,
    home: String,
}

impl Config {
    /// The destination directory.
    pub closed spec fn dest_spec(&self) -> Seq<char> {
        self.dest@
    }

    /// The home directory.
    pub closed spec fn home_spec(&self) -> Seq<char> {
        self.home@
    }

    pub fn new(dest: String, home: String) -> (r: Config)
        ensures
            r.dest_spec() == dest@,
            r.home_spec() == home@,
    {
        Config { dest, home }
    }

    /// A configuration from the home directory, if one is known, and the
    /// command line as the process received it: the program name, then the
    /// arguments. The destination is the last argument. Without a home
    /// directory, or with no argument after the program name, there is none.
    pub fn build(home: Option<String>, args: Vec<String>) -> (r: Option<Config>)
        ensures
            home is None || args@.len() < 2 ==> r is None,
            home matches Some(h) ==> (args@.len() >= 2 ==> (r matches Some(c) && c.dest_spec()
                == args@.last()@ && c.home_spec() == h@)),
    {
        if args.len() < 2 {
            return None;
        }
        match home {
            None => None,
            Some(home) => {
                let mut args = args;
                match args.pop() {
                    Some(dest) => Some(Config { dest, home }),
                    None => None,
                }
            },
        }
    }

    pub fn dest(&self) -> (r: &str)
        ensures
            r@ == self.dest_spec(),
    {
        self.dest.as_str()
    }

    pub fn home(&self) -> (r: &str)
        ensures
            r@ == self.home_spec(),
    {
        self.home.as_str()
    }
}

/// `base`, a `/`, then `rest`.
pub open spec fn under(base: Seq<char>, rest: Seq<char>) -> Seq<char> {
    base + seq!['/'] + rest
}

fn concat_under(base: &str, rest: &str) -> (r: String)
    ensures
        r@ == under(base@, rest@),
{
    let mut r = String::from_str(base);
    proof {
        reveal_strlit("/");
    }
    r.append("/");
    r.append(rest);
    r
}

pub open spec fn downloads_name() -> Seq<char> {
    seq!['D', 'o', 'w', 'n', 'l', 'o', 'a', 'd', 's']
}

pub open spec fn library_name() -> Seq<char> {
    seq!['C', 'a', 'l', 'i', 'b', 'r', 'e', ' ', 'L', 'i', 'b', 'r', 'a', 'r', 'y']
}

pub open spec fn reader_cache_name() -> Seq<char> {
    seq![
        'D', 'o', 'c', 'u', 'm', 'e', 'n', 't', 's', '/', 'D', 'i', 'g', 'i', 't', 'a', 'l', ' ',
        'E', 'd', 'i', 't', 'i', 'o', 'n', 's',
    ]
}

/// The folder that downloads land in.
pub fn downloads_dir(home: &str) -> (r: String)
    ensures
        r@ == under(home@, downloads_name()),
{
    proof {
        reveal_strlit("Downloads");
    }
    concat_under(home, "Downloads")
}

/// The e-book library, walked at every depth.
pub fn library_dir(home: &str) -> (r: String)
    ensures
        r@ == under(home@, library_name()),
{
    proof {
        reveal_strlit("Calibre Library");
    }
    concat_under(home, "Calibre Library")
}

/// The reading software's own copies, removed once a transfer has run.
pub fn reader_cache_dir(home: &str) -> (r: String)
    ensures
        r@ == under(home@, reader_cache_name()),
{
    proof {
        reveal_strlit("Documents/Digital Editions");
    }
    concat_under(home, "Documents/Digital Editions")
}

pub open spec fn epub_tag() -> Seq<char> {
    seq!['e', 'p', 'u', 'b']
}

pub open spec fn acsm_tag() -> Seq<char> {
    seq!['a', 'c', 's', 'm']
}

/// The extension of the books that are moved.
pub fn epub() -> (r: &'static str)
    ensures
        r@ == epub_tag(),
{
    proof {
        reveal_strlit("epub");
    }
    "epub"
}

/// The extension of the licence files that are removed.
pub fn acsm() -> (r: &'static str)
    ensures
        r@ == acsm_tag(),
{
    proof {
        reveal_strlit("acsm");
    }
    "acsm"
}

/// The paths a scan found, or none when it failed.
pub open spec fn found(scan: Result<Vec<String>, String>) -> Seq<Seq<char>> {
    match scan {
        Ok(files) => files.deep_view(),
        Err(_) => Seq::empty(),
    }
}

/// The paths a walk found, or none when it found nothing.
pub open spec fn walked(walk: Option<Vec<String>>) -> Seq<Seq<char>> {
    match walk {
        Some(files) => files.deep_view(),
        None => Seq::empty(),
    }
}

/// The failure of a scan whose failure is reported, as report lines.
pub open spec fn scan_failure(scan: Result<Vec<String>, String>) -> Seq<Seq<char>> {
    match scan {
        Ok(_) => Seq::empty(),
        Err(e) => seq![e@],
    }
}

fn append_found(set: &mut Vec<String>, files: Vec<String>)
    ensures
        final(set).deep_view() == old(set).deep_view() + files.deep_view(),
{
    let mut files = files;
    let ghost start = set.deep_view();
    let ghost all = files.deep_view();
    set.append(&mut files);
    assert(set.deep_view() =~= start + all);
}

/// The move-set: the books found in the downloads folder, then those found
/// in the library. Both lookups are best effort: a failed scan of the
/// downloads folder and an empty walk of the library add nothing.
pub fn move_set(downloads: Result<Vec<String>, String>, library: Option<Vec<String>>) -> (r: Vec<
    String,
>)
    ensures
        r.deep_view() == found(downloads) + walked(library),
{
    let mut r: Vec<String> = Vec::new();
    let ghost d = found(downloads);
    let ghost l = walked(library);
    match downloads {
        Ok(files) => append_found(&mut r, files),
        Err(_) => {},
    }
    assert(r.deep_view() =~= d);
    match library {
        Some(files) => append_found(&mut r, files),
        None => {},
    }
    assert(r.deep_view() =~= d + l);
    r
}

/// The delete-set: the licence files found in the downloads folder, then the
/// reading software's copies. The first scan is best effort; a failure of the
/// second is appended to `errors`.
pub fn delete_set(
    licences: Result<Vec<String>, String>,
    reader_copies: Result<Vec<String>, String>,
    errors: &mut Vec<String>,
) -> (r: Vec<String>)
    ensures
        r.deep_view() == found(licences) + found(reader_copies),
        final(errors).deep_view() == old(errors).deep_view() + scan_failure(reader_copies),
{
    let mut r: Vec<String> = Vec::new();
    let ghost a = found(licences);
    let ghost b = found(reader_copies);
    let ghost fail = scan_failure(reader_copies);
    let ghost start = errors.deep_view();
    match licences {
        Ok(files) => append_found(&mut r, files),
        Err(_) => {},
    }
    assert(r.deep_view() =~= a);
    match reader_copies {
        Ok(files) => {
            append_found(&mut r, files);
        },
        Err(e) => {
            errors.push(e);
        },
    }
    assert(r.deep_view() =~= a + b);
    assert(errors.deep_view() =~= start + fail);
    r
}

/// A planned rename.
#[derive(Clone, Debug)]
pub struct Move {
    pub from: String,
    pub to: String,
}

/// Where `file` goes in `dest`: `dest`, a `/`, then its file name; nowhere
/// when it has no file name.
pub open spec fn target_spec(dest: Seq<char>, file: Seq<char>) -> Option<Seq<char>> {
    match file_name_spec(file) {
        Some(name) => Some(under(dest, name)),
        None => None,
    }
}

/// The destination path of `file`, if it has a file name.
pub fn move_target(dest: &str, file: &str) -> (r: Option<String>)
    ensures
        r matches Some(t) ==> target_spec(dest@, file@) == Some(t@),
        r is None ==> target_spec(dest@, file@) is None,
{
    match file_name(file) {
        Some(name) => Some(concat_under(dest, name.as_str())),
        None => None,
    }
}

/// The renames for `files` into `dest`, in order; a file without a file
/// name is left out.
pub open spec fn planned_moves(dest: Seq<char>, files: Seq<Seq<char>>) -> Seq<
    (Seq<char>, Seq<char>),
>
    decreases files.len(),
{
    if files.len() == 0 {
        Seq::empty()
    } else {
        let rest = planned_moves(dest, files.drop_last());
        match target_spec(dest, files.last()) {
            Some(t) => rest.push((files.last(), t)),
            None => rest,
        }
    }
}

pub open spec fn moves_view(ms: Seq<Move>) -> Seq<(Seq<char>, Seq<char>)> {
    ms.map_values(|m: Move| (m.from@, m.to@))
}

/// The renames that carry out the move-set `files` into `dest`.
pub fn plan_moves(dest: &str, files: &Vec<String>) -> (r: Vec<Move>)
    ensures
        moves_view(r@) == planned_moves(dest@, files.deep_view()),
{
    let mut r: Vec<Move> = Vec::new();
    let mut i: usize = 0;
    while i < files.len()
        invariant
            i <= files@.len(),
            moves_view(r@) == planned_moves(dest@, files.deep_view().subrange(0, i as int)),
        decreases files.len() - i,
    {
        let ghost pre = files.deep_view().subrange(0, i + 1);
        assert(pre.drop_last() =~= files.deep_view().subrange(0, i as int));
        let from = &files[i];
        let ghost r0 = r@;
        match move_target(dest, from.as_str()) {
            Some(to) => {
                r.push(Move { from: from.clone(), to });
                assert(moves_view(r@) =~= moves_view(r0).push((pre.last(), r@.last().to@)));
            },
            None => {},
        }
        assert(moves_view(r@) =~= planned_moves(dest@, pre));
        i += 1;
    }
    assert(files.deep_view().subrange(0, files.len() as int) =~= files.deep_view());
    r
}

/// Adds the failure of one operation, if it failed, to `errors`.
pub fn record_outcome(errors: &mut Vec<String>, outcome: Result<(), String>)
    ensures
        final(errors).deep_view() == old(errors).deep_view() + match outcome {
            Ok(_) => Seq::<Seq<char>>::empty(),
            Err(e) => seq![e@],
        },
{
    let ghost start = errors.deep_view();
    match outcome {
        Ok(_) => {},
        Err(e) => errors.push(e),
    }
    assert(errors.deep_view() =~= start + match outcome {
        Ok(_) => Seq::<Seq<char>>::empty(),
        Err(e) => seq![e@],
    });
}

/// The lines of `errors`, one after another, separated by newlines.
pub open spec fn joined(errors: Seq<Seq<char>>) -> Seq<char>
    decreases errors.len(),
{
    if errors.len() == 0 {
        Seq::empty()
    } else if errors.len() == 1 {
        errors[0]
    } else {
        joined(errors.drop_last()) + seq!['\n'] + errors.last()
    }
}

/// The result of a transfer: success when no operation failed, else every
/// failure, in order, one per line.
pub fn report(errors: &Vec<String>) -> (r: Result<(), String>)
    ensures
        errors@.len() == 0 <==> r is Ok,
        r matches Err(m) ==> m@ == joined(errors.deep_view()),
{
    if errors.len() == 0 {
        return Ok(());
    }
    let mut m = errors[0].clone();
    let mut i: usize = 1;
    assert(errors.deep_view().subrange(0, 1) =~= seq![errors.deep_view()[0]]);
    while i < errors.len()
        invariant
            1 <= i <= errors@.len(),
            m@ == joined(errors.deep_view().subrange(0, i as int)),
        decreases errors.len() - i,
    {
        let ghost pre = errors.deep_view().subrange(0, i + 1);
        assert(pre.drop_last() =~= errors.deep_view().subrange(0, i as int));
        proof {
            reveal_strlit("\n");
        }
        m.append("\n");
        m.append(errors[i].as_str());
        assert(m@ =~= joined(pre));
        i += 1;
    }
    assert(errors.deep_view().subrange(0, errors.len() as int) =~= errors.deep_view());
    Err(m)
}

/// What a flat scan of `dir` finds for `tag` in a listing, or nothing when
/// the directory could not be read.
pub open spec fn listed(dir: Seq<char>, listing: Result<Vec<Entry>, String>, tag: Seq<char>) -> Seq<
    Seq<char>,
> {
    match listing {
        Ok(entries) => flat_files(dir, entries@, tag),
        Err(_) => Seq::empty(),
    }
}

/// What a walk of `dir` finds for `tag`, or nothing when `dir` could not be
/// read.
pub open spec fn walk_spec(dir: Seq<char>, root: Contents, tag: Seq<char>) -> Seq<Seq<char>> {
    match root {
        Contents::Unreadable => Seq::empty(),
        Contents::Listed(v) => tree_files(dir, v, tag),
    }
}

/// The renames of a transfer: the books directly in the downloads folder,
/// then those anywhere in the library, each into the destination under its
/// own name. `downloads` is the listing of the downloads folder and
/// `library` the tree of the library folder.
pub fn books_to_move(config: &Config, downloads: Result<Vec<Entry>, String>, library: &Contents) -> (r:
    Vec<Move>)
    ensures
        moves_view(r@) == planned_moves(
            config.dest_spec(),
            listed(under(config.home_spec(), downloads_name()), downloads, epub_tag())
                + walk_spec(under(config.home_spec(), library_name()), *library, epub_tag()),
        ),
{
    let ghost listing = downloads;
    let down = downloads_dir(config.home());
    let lib = library_dir(config.home());
    let books = scan_flat(down.as_str(), downloads, epub());
    let shelved = scan_recursive(lib.as_str(), library, epub());
    assert(found(books) == listed(down@, listing, epub_tag()));
    assert(walked(shelved) =~= walk_spec(lib@, *library, epub_tag()));
    let files = move_set(books, shelved);
    plan_moves(config.dest(), &files)
}

/// The removals of a transfer: the licence files directly in the downloads
/// folder, then the books directly in the reading software's folder. Only a
/// failure to read the latter is added to `errors`.
pub fn files_to_remove(
    config: &Config,
    licences: Result<Vec<Entry>, String>,
    reader_copies: Result<Vec<Entry>, String>,
    errors: &mut Vec<String>,
) -> (r: Vec<String>)
    ensures
        r.deep_view() == listed(under(config.home_spec(), downloads_name()), licences, acsm_tag())
            + listed(under(config.home_spec(), reader_cache_name()), reader_copies, epub_tag()),
        final(errors).deep_view() == old(errors).deep_view() + match reader_copies {
            Ok(_) => Seq::<Seq<char>>::empty(),
            Err(e) => seq![e@],
        },
{
    let ghost a = licences;
    let ghost b = reader_copies;
    let down = downloads_dir(config.home());
    let cache = reader_cache_dir(config.home());
    let found_licences = scan_flat(down.as_str(), licences, acsm());
    let found_copies = scan_flat(cache.as_str(), reader_copies, epub());
    assert(found(found_licences) == listed(down@, a, acsm_tag()));
    assert(found(found_copies) == listed(cache@, b, epub_tag()));
    assert(scan_failure(found_copies) == match b {
        Ok(_) => Seq::<Seq<char>>::empty(),
        Err(e) => seq![e@],
    });
    delete_set(found_licences, found_copies, errors)
}

/// When the folders hold nothing left to move or remove, as after a
/// complete transfer, the transfer plans no rename and no removal and has
/// nothing to report, so it succeeds.
pub proof fn law_nothing_left_to_do(
    dest: Seq<char>,
    home: Seq<char>,
    downloads: Vec<Entry>,
    library: Contents,
    reader_copies: Vec<Entry>,
)
    requires
        forall|i: int|
            0 <= i < downloads@.len() ==> !is_match(
                #[trigger] downloads@[i].kind,
                downloads@[i].name@,
                epub_tag(),
            ) && !is_match(downloads@[i].kind, downloads@[i].name@, acsm_tag()),
        library matches Contents::Listed(v) ==> tree_lacks(v, v.len() as int, epub_tag()),
        forall|i: int|
            0 <= i < reader_copies@.len() ==> !is_match(
                #[trigger] reader_copies@[i].kind,
                reader_copies@[i].name@,
                epub_tag(),
            ),
    ensures
        planned_moves(
            dest,
            listed(under(home, downloads_name()), Ok(downloads), epub_tag()) + walk_spec(
                under(home, library_name()),
                library,
                epub_tag(),
            ),
        ).len() == 0,
        (listed(under(home, downloads_name()), Ok(downloads), acsm_tag()) + listed(
            under(home, reader_cache_name()),
            Ok(reader_copies),
            epub_tag(),
        )).len() == 0,
{
    lemma_flat_lacks(under(home, downloads_name()), downloads@, epub_tag());
    lemma_flat_lacks(under(home, downloads_name()), downloads@, acsm_tag());
    lemma_flat_lacks(under(home, reader_cache_name()), reader_copies@, epub_tag());
    if let Contents::Listed(v) = library {
        lemma_tree_lacks(under(home, library_name()), v, epub_tag());
    }
    let all = listed(under(home, downloads_name()), Ok(downloads), epub_tag()) + walk_spec(
        under(home, library_name()),
        library,
        epub_tag(),
    );
    assert(all =~= Seq::<Seq<char>>::empty());
}

} // verus!
