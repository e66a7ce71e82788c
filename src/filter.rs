use vstd::prelude::*;

verus! {

/// What a directory entry is, following symbolic links.
#[derive(Clone, Copy, Debug, PartialEq, Eq, Structural)]
pub enum EntryKind {
    /// A regular file.
    File,
    /// A directory.
    Dir,
    /// Anything else, such as a broken symbolic link.
    Other,
}

/// Whether `name` ends in a non-empty stem, a dot, and exactly `tag`, with
/// no dot inside `tag`: the extension of `name` (what follows its last dot,
/// unless that dot is its first character) equals `tag`.
pub open spec fn has_extension(name: Seq<char>, tag: Seq<char>) -> bool {
    &&& !tag.contains('.')
    &&& name.len() >= tag.len() + 2
    &&& name[name.len() - tag.len() - 1] == '.'
    &&& name.subrange(name.len() - tag.len(), name.len() as int) == tag
}

/// Whether an entry of the given kind and name is a match for `tag`.
pub open spec fn is_match(kind: EntryKind, name: Seq<char>, tag: Seq<char>) -> bool {
    kind == EntryKind::File && has_extension(name, tag)
}

/// Decides `has_extension` on the names of two strings.
pub fn name_has_extension(name: &str, tag: &str) -> (r: bool)
    ensures
        r == has_extension(name@, tag@),
{
    let n = name.unicode_len();
    let t = tag.unicode_len();
    let mut i: usize = 0;
    while i < t
        invariant
            t == tag@.len(),
            i <= t,
            forall|k: int| 0 <= k < i ==> tag@[k] != '.',
        decreases t - i,
    {
        if tag.get_char(i) == '.' {
            assert(tag@.contains('.'));
            return false;
        }
        i += 1;
    }
    if n < 2 || n - 2 < t {
        return false;
    }
    if name.get_char(n - t - 1) != '.' {
        return false;
    }
    let start = n - t;
    let mut j: usize = 0;
    while j < t
        invariant
            n == name@.len(),
            t == tag@.len(),
            start == n - t,
            j <= t,
            forall|k: int| 0 <= k < j ==> name@[start + k] == tag@[k],
        decreases t - j,
    {
        if name.get_char(start + j) != tag.get_char(j) {
            assert(name@.subrange(start as int, n as int)[j as int] != tag@[j as int]);
            return false;
        }
        j += 1;
    }
    assert(name@.subrange(start as int, n as int) =~= tag@);
    true
}

/// The extension filter: an entry matches `tag` when it is a regular file
/// whose extension is exactly `tag`.
pub fn entry_matches(kind: EntryKind, name: &str, tag: &str) -> (r: bool)
    ensures
        r == is_match(kind, name@, tag@),
{
    match kind {
        EntryKind::File => name_has_extension(name, tag),
        _ => false,
    }
}

/// Whether `name` has no extension: no dot follows its first character
/// (so `README` and `.bashrc` have none).
pub open spec fn lacks_extension(name: Seq<char>) -> bool {
    forall|i: int| 0 < i < name.len() ==> name[i] != '.'
}

/// A name without an extension matches no tag.
pub proof fn lemma_lacks_extension(name: Seq<char>, tag: Seq<char>)
    requires
        lacks_extension(name),
    ensures
        !has_extension(name, tag),
{
    if has_extension(name, tag) {
        assert(name[name.len() - tag.len() - 1] == '.');
    }
}

/// A name has at most one extension: it cannot match two different tags.
pub proof fn lemma_extension_unique(name: Seq<char>, x: Seq<char>, y: Seq<char>)
    requires
        has_extension(name, x),
        has_extension(name, y),
    ensures
        x == y,
{
    let n = name.len();
    if x.len() < y.len() {
        let k = n - x.len() - 1;
        let i = k - (n - y.len());
        assert(y[i] == name.subrange(n - y.len(), n as int)[i]);
        assert(y[i] == '.');
    } else if y.len() < x.len() {
        let k = n - y.len() - 1;
        let i = k - (n - x.len());
        assert(x[i] == name.subrange(n - x.len(), n as int)[i]);
        assert(x[i] == '.');
    }
}

} // verus!
