use vstd::prelude::*;

use crate::filter::{entry_matches, is_match, EntryKind};
use crate::path::{join, join_spec};

verus! {

/// One entry of a directory listing, as the directory enumeration gave it.
#[derive(Clone, Debug)]
pub struct Entry {
    pub name: String,
    pub kind: EntryKind,
}

/// The paths of the entries among `entries` that match `tag`, in listing
/// order.
pub open spec fn flat_files(dir: Seq<char>, entries: Seq<Entry>, tag: Seq<char>) -> Seq<
    Seq<char>,
>
    decreases entries.len(),
{
    if entries.len() == 0 {
        Seq::empty()
    } else {
        let e = entries.last();
        let rest = flat_files(dir, entries.drop_last(), tag);
        if is_match(e.kind, e.name@, tag) {
            rest.push(join_spec(dir, e.name@))
        } else {
            rest
        }
    }
}

/// The paths of the entries of `dir` that match `tag`, in listing order.
pub fn matching_files(dir: &str, entries: &Vec<Entry>, tag: &str) -> (r: Vec<String>)
    ensures
        r.deep_view() == flat_files(dir@, entries@, tag@),
{
    let mut r: Vec<String> = Vec::new();
    let mut i: usize = 0;
    while i < entries.len()
        invariant
            i <= entries@.len(),
            r.deep_view() == flat_files(dir@, entries@.subrange(0, i as int), tag@),
        decreases entries.len() - i,
    {
        let ghost pre = entries@.subrange(0, i + 1);
        assert(pre.drop_last() =~= entries@.subrange(0, i as int));
        let e = &entries[i];
        if entry_matches(e.kind, e.name.as_str(), tag) {
            r.push(join(dir, e.name.as_str()));
        }
        assert(r.deep_view() =~= flat_files(dir@, pre, tag@));
        i += 1;
    }
    assert(entries@.subrange(0, entries.len() as int) =~= entries@);
    r
}

/// The flat scan: the matching entries directly inside `dir`, given the
/// outcome of reading it. A directory that could not be read is a scan
/// error, passed on with its cause.
pub fn scan_flat(dir: &str, listing: Result<Vec<Entry>, String>, tag: &str) -> (r: Result<
    Vec<String>,
    String,
>)
    ensures
        match listing {
            Ok(entries) => r matches Ok(files) && files.deep_view() == flat_files(
                dir@,
                entries@,
                tag@,
            ),
            Err(e) => r == Err::<Vec<String>, String>(e),
        },
{
    match listing {
        Ok(entries) => Ok(matching_files(dir, &entries, tag)),
        Err(e) => Err(e),
    }
}

/// A directory as read for a walk: either it could not be read, or its
/// entries in enumeration order.
#[derive(Debug)]
pub enum Contents {
    Unreadable,
    Listed(Vec<Node>),
}

/// An entry met during a walk; a directory carries what reading it gave.
#[derive(Debug)]
pub enum NodeKind {
    File,
    Dir(Contents),
    Other,
}

/// One entry of a directory tree.
#[derive(Debug)]
pub struct Node {
    pub name: String,
    pub kind: NodeKind,
}

/// The kind that the extension filter sees for a node.
pub open spec fn kind_of(k: NodeKind) -> EntryKind {
    match k {
        NodeKind::File => EntryKind::File,
        NodeKind::Dir(_) => EntryKind::Dir,
        NodeKind::Other => EntryKind::Other,
    }
}

/// The paths of the nodes among the first `n` of `v` that are matching files.
pub open spec fn here_files(dir: Seq<char>, v: Seq<Node>, n: int, tag: Seq<char>) -> Seq<Seq<char>>
    decreases n,
{
    if n <= 0 {
        Seq::empty()
    } else {
        let rest = here_files(dir, v, n - 1, tag);
        let e = v[n - 1];
        if is_match(kind_of(e.kind), e.name@, tag) {
            rest.push(join_spec(dir, e.name@))
        } else {
            rest
        }
    }
}

/// The matching files of the readable subdirectories among the first `n`
/// nodes of `v`, one subtree after another.
pub open spec fn sub_files(dir: Seq<char>, v: Vec<Node>, n: int, tag: Seq<char>) -> Seq<Seq<char>>
    decreases v, n,
{
    if n <= 0 || n > v.len() {
        Seq::empty()
    } else {
        let rest = sub_files(dir, v, n - 1, tag);
        match v[n - 1].kind {
            NodeKind::Dir(Contents::Listed(w)) => {
                let d = join_spec(dir, v[n - 1].name@);
                rest + tree_files(d, w, tag)
            },
            _ => rest,
        }
    }
}

/// Every matching file of the tree of entries `v` under `dir`, depth first:
/// the files of `dir` itself, then each readable subdirectory's in turn.
pub open spec fn tree_files(dir: Seq<char>, v: Vec<Node>, tag: Seq<char>) -> Seq<Seq<char>>
    decreases v, v.len() + 1,
{
    here_files(dir, v@, v.len() as int, tag) + sub_files(dir, v, v.len() as int, tag)
}

/// Appends to `out` every matching file of the tree `v` under `dir`, depth
/// first. Subdirectories that could not be read add nothing.
fn collect_tree(dir: &str, v: &Vec<Node>, tag: &str, out: &mut Vec<String>)
    ensures
        final(out).deep_view() == old(out).deep_view() + tree_files(dir@, *v, tag@),
    decreases v,
{
    let ghost start = out.deep_view();
    let mut i: usize = 0;
    while i < v.len()
        invariant
            i <= v@.len(),
            out.deep_view() == start + here_files(dir@, v@, i as int, tag@),
        decreases v.len() - i,
    {
        let e = &v[i];
        let kind = match e.kind {
            NodeKind::File => EntryKind::File,
            NodeKind::Dir(_) => EntryKind::Dir,
            NodeKind::Other => EntryKind::Other,
        };
        assert(kind == kind_of(v@[i as int].kind));
        let ghost prev = here_files(dir@, v@, i as int, tag@);
        let ghost next = here_files(dir@, v@, i + 1, tag@);
        let ghost dv0 = out.deep_view();
        if entry_matches(kind, e.name.as_str(), tag) {
            let p = join(dir, e.name.as_str());
            out.push(p);
            assert(next == prev.push(join_spec(dir@, v@[i as int].name@)));
            assert(out.deep_view() =~= dv0.push(join_spec(dir@, v@[i as int].name@)));
        } else {
            assert(next == prev);
        }
        assert(out.deep_view() =~= start + here_files(dir@, v@, i + 1, tag@));
        i += 1;
    }
    let ghost here = here_files(dir@, v@, v.len() as int, tag@);
    assert(out.deep_view() =~= start + here + sub_files(dir@, *v, 0, tag@));
    let mut i: usize = 0;
    while i < v.len()
        invariant
            i <= v@.len(),
            here == here_files(dir@, v@, v.len() as int, tag@),
            out.deep_view() == start + here + sub_files(dir@, *v, i as int, tag@),
        decreases v.len() - i,
    {
        let e = &v[i];
        match &e.kind {
            NodeKind::Dir(Contents::Listed(w)) => {
                let d = join(dir, e.name.as_str());
                collect_tree(d.as_str(), w, tag, out);
                assert(out.deep_view() =~= start + here + sub_files(dir@, *v, i + 1, tag@));
            },
            _ => {
                assert(out.deep_view() =~= start + here + sub_files(dir@, *v, i + 1, tag@));
            },
        }
        i += 1;
    }
    assert(out.deep_view() =~= start + tree_files(dir@, *v, tag@));
}

/// The recursive scan: every matching file under `dir` at any depth, given
/// what reading `dir` and its subdirectories gave. An unreadable `dir`, and
/// a walk that finds nothing, both give `None`.
pub fn scan_recursive(dir: &str, root: &Contents, tag: &str) -> (r: Option<Vec<String>>)
    ensures
        match root {
            Contents::Unreadable => r is None,
            Contents::Listed(v) => {
                let files = tree_files(dir@, *v, tag@);
                &&& files.len() == 0 ==> r is None
                &&& files.len() > 0 ==> (r matches Some(found) && found.deep_view() == files)
            },
        },
{
    match root {
        Contents::Unreadable => None,
        Contents::Listed(v) => {
            let mut files: Vec<String> = Vec::new();
            collect_tree(dir, v, tag, &mut files);
            assert(files.deep_view() =~= tree_files(dir@, *v, tag@));
            if files.len() == 0 {
                None
            } else {
                Some(files)
            }
        },
    }
}

} // verus!
