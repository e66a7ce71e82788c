use vstd::prelude::*;

use crate::filter::{has_extension, is_match, lemma_extension_unique, lemma_lacks_extension, lacks_extension};
use crate::path::{file_name_spec, is_entry_name, join_spec, lemma_file_name_of_join};
use crate::scan::{flat_files, here_files, kind_of, sub_files, tree_files, Contents, Entry, Node, NodeKind};

verus! {

/// Every name among the first `n` nodes of `v`, and in their readable
/// subtrees, is a proper entry name.
pub open spec fn tree_names_ok(v: Vec<Node>, n: int) -> bool
    decreases v, n,
{
    if n <= 0 || n > v.len() {
        true
    } else {
        &&& tree_names_ok(v, n - 1)
        &&& is_entry_name(v[n - 1].name@)
        &&& match v[n - 1].kind {
            NodeKind::Dir(Contents::Listed(w)) => tree_names_ok(w, w.len() as int),
            _ => true,
        }
    }
}

/// No node among the first `n` of `v`, nor in their readable subtrees,
/// matches `tag`.
pub open spec fn tree_lacks(v: Vec<Node>, n: int, tag: Seq<char>) -> bool
    decreases v, n,
{
    if n <= 0 || n > v.len() {
        true
    } else {
        &&& tree_lacks(v, n - 1, tag)
        &&& !is_match(kind_of(v[n - 1].kind), v[n - 1].name@, tag)
        &&& match v[n - 1].kind {
            NodeKind::Dir(Contents::Listed(w)) => tree_lacks(w, w.len() as int, tag),
            _ => true,
        }
    }
}

/// Every name of a flat listing is a proper entry name.
pub open spec fn entries_named(entries: Seq<Entry>) -> bool {
    forall|i: int| 0 <= i < entries.len() ==> is_entry_name(#[trigger] entries[i].name@)
}

/// Every path of `files` names a file whose extension is `tag`.
pub open spec fn named_with(files: Seq<Seq<char>>, tag: Seq<char>) -> bool {
    forall|k: int|
        0 <= k < files.len() ==> (file_name_spec(#[trigger] files[k]) matches Some(nm)
            && has_extension(nm, tag))
}

proof fn lemma_named_with_push(files: Seq<Seq<char>>, p: Seq<char>, tag: Seq<char>)
    requires
        named_with(files, tag),
        file_name_spec(p) matches Some(nm) && has_extension(nm, tag),
    ensures
        named_with(files.push(p), tag),
{
    assert forall|k: int| 0 <= k < files.push(p).len() implies (file_name_spec(
        #[trigger] files.push(p)[k],
    ) matches Some(nm) && has_extension(nm, tag)) by {
        if k < files.len() {
            assert(files.push(p)[k] == files[k]);
        }
    }
}

proof fn lemma_named_with_concat(a: Seq<Seq<char>>, b: Seq<Seq<char>>, tag: Seq<char>)
    requires
        named_with(a, tag),
        named_with(b, tag),
    ensures
        named_with(a + b, tag),
{
    assert forall|k: int| 0 <= k < (a + b).len() implies (file_name_spec(#[trigger] (a + b)[k])
        matches Some(nm) && has_extension(nm, tag)) by {
        if k < a.len() {
            assert((a + b)[k] == a[k]);
        } else {
            assert((a + b)[k] == b[k - a.len()]);
        }
    }
}

proof fn lemma_flat_sound(dir: Seq<char>, entries: Seq<Entry>, tag: Seq<char>)
    requires
        entries_named(entries),
    ensures
        named_with(flat_files(dir, entries, tag), tag),
    decreases entries.len(),
{
    if entries.len() > 0 {
        let e = entries.last();
        assert(entries_named(entries.drop_last())) by {
            assert forall|i: int| 0 <= i < entries.drop_last().len() implies is_entry_name(
                #[trigger] entries.drop_last()[i].name@,
            ) by {
                assert(entries.drop_last()[i] == entries[i]);
            }
        }
        lemma_flat_sound(dir, entries.drop_last(), tag);
        assert(is_entry_name(entries[entries.len() - 1].name@));
        if is_match(e.kind, e.name@, tag) {
            lemma_file_name_of_join(dir, e.name@);
            lemma_named_with_push(flat_files(dir, entries.drop_last(), tag), join_spec(dir, e.name@), tag);
        }
    }
}

proof fn lemma_here_sound(dir: Seq<char>, v: Vec<Node>, n: int, tag: Seq<char>)
    requires
        0 <= n <= v.len(),
        tree_names_ok(v, n),
    ensures
        named_with(here_files(dir, v@, n, tag), tag),
    decreases n,
{
    if n > 0 {
        lemma_here_sound(dir, v, n - 1, tag);
        let e = v@[n - 1];
        if is_match(kind_of(e.kind), e.name@, tag) {
            lemma_file_name_of_join(dir, e.name@);
            lemma_named_with_push(here_files(dir, v@, n - 1, tag), join_spec(dir, e.name@), tag);
        }
    }
}

proof fn lemma_sub_sound(dir: Seq<char>, v: Vec<Node>, n: int, tag: Seq<char>)
    requires
        0 <= n <= v.len(),
        tree_names_ok(v, n),
    ensures
        named_with(sub_files(dir, v, n, tag), tag),
    decreases v, n,
{
    if n > 0 {
        lemma_sub_sound(dir, v, n - 1, tag);
        match v[n - 1].kind {
            NodeKind::Dir(Contents::Listed(w)) => {
                let d = join_spec(dir, v[n - 1].name@);
                lemma_tree_sound(d, w, tag);
                lemma_named_with_concat(sub_files(dir, v, n - 1, tag), tree_files(d, w, tag), tag);
            },
            _ => {},
        }
    }
}

proof fn lemma_tree_sound(dir: Seq<char>, v: Vec<Node>, tag: Seq<char>)
    requires
        tree_names_ok(v, v.len() as int),
    ensures
        named_with(tree_files(dir, v, tag), tag),
    decreases v, v.len() + 1,
{
    lemma_here_sound(dir, v, v.len() as int, tag);
    lemma_sub_sound(dir, v, v.len() as int, tag);
    lemma_named_with_concat(
        here_files(dir, v@, v.len() as int, tag),
        sub_files(dir, v, v.len() as int, tag),
        tag,
    );
}

pub(crate) proof fn lemma_flat_lacks(dir: Seq<char>, entries: Seq<Entry>, tag: Seq<char>)
    requires
        forall|i: int|
            0 <= i < entries.len() ==> !is_match(#[trigger] entries[i].kind, entries[i].name@, tag),
    ensures
        flat_files(dir, entries, tag).len() == 0,
    decreases entries.len(),
{
    if entries.len() > 0 {
        assert forall|i: int| 0 <= i < entries.drop_last().len() implies !is_match(
            #[trigger] entries.drop_last()[i].kind,
            entries.drop_last()[i].name@,
            tag,
        ) by {
            assert(entries.drop_last()[i] == entries[i]);
        }
        lemma_flat_lacks(dir, entries.drop_last(), tag);
        assert(!is_match(entries[entries.len() - 1].kind, entries[entries.len() - 1].name@, tag));
    }
}

proof fn lemma_here_lacks(dir: Seq<char>, v: Vec<Node>, n: int, tag: Seq<char>)
    requires
        0 <= n <= v.len(),
        tree_lacks(v, n, tag),
    ensures
        here_files(dir, v@, n, tag).len() == 0,
    decreases n,
{
    if n > 0 {
        lemma_here_lacks(dir, v, n - 1, tag);
    }
}

proof fn lemma_sub_lacks(dir: Seq<char>, v: Vec<Node>, n: int, tag: Seq<char>)
    requires
        0 <= n <= v.len(),
        tree_lacks(v, n, tag),
    ensures
        sub_files(dir, v, n, tag).len() == 0,
    decreases v, n,
{
    if n > 0 {
        lemma_sub_lacks(dir, v, n - 1, tag);
        match v[n - 1].kind {
            NodeKind::Dir(Contents::Listed(w)) => {
                lemma_tree_lacks(join_spec(dir, v[n - 1].name@), w, tag);
            },
            _ => {},
        }
    }
}

pub(crate) proof fn lemma_tree_lacks(dir: Seq<char>, v: Vec<Node>, tag: Seq<char>)
    requires
        tree_lacks(v, v.len() as int, tag),
    ensures
        tree_files(dir, v, tag).len() == 0,
    decreases v, v.len() + 1,
{
    lemma_here_lacks(dir, v, v.len() as int, tag);
    lemma_sub_lacks(dir, v, v.len() as int, tag);
}

/// A directory with no matching file yields nothing: the flat scan of a
/// listing without one finds no path, and the walk of a tree without one
/// finds none either (so the recursive scan gives `None`).
pub proof fn law_nothing_to_find(dir: Seq<char>, entries: Seq<Entry>, tree: Vec<Node>, tag: Seq<char>)
    requires
        forall|i: int|
            0 <= i < entries.len() ==> !is_match(#[trigger] entries[i].kind, entries[i].name@, tag),
        tree_lacks(tree, tree.len() as int, tag),
    ensures
        flat_files(dir, entries, tag).len() == 0,
        tree_files(dir, tree, tag).len() == 0,
{
    lemma_flat_lacks(dir, entries, tag);
    lemma_tree_lacks(dir, tree, tag);
}

/// Neither scanner returns a file whose name has no extension, whatever
/// the tag.
pub proof fn law_no_extension_never_found(
    dir: Seq<char>,
    entries: Seq<Entry>,
    tree: Vec<Node>,
    tag: Seq<char>,
    name: Seq<char>,
)
    requires
        entries_named(entries),
        tree_names_ok(tree, tree.len() as int),
        lacks_extension(name),
    ensures
        forall|k: int|
            0 <= k < flat_files(dir, entries, tag).len() ==> file_name_spec(
                #[trigger] flat_files(dir, entries, tag)[k],
            ) != Some(name),
        forall|k: int|
            0 <= k < tree_files(dir, tree, tag).len() ==> file_name_spec(
                #[trigger] tree_files(dir, tree, tag)[k],
            ) != Some(name),
{
    lemma_flat_sound(dir, entries, tag);
    lemma_tree_sound(dir, tree, tag);
    lemma_lacks_extension(name, tag);
}

/// Neither scanner, asked for tag `y`, returns a file whose extension is
/// another tag `x`.
pub proof fn law_other_tag_never_found(
    dir: Seq<char>,
    entries: Seq<Entry>,
    tree: Vec<Node>,
    x: Seq<char>,
    y: Seq<char>,
    name: Seq<char>,
)
    requires
        entries_named(entries),
        tree_names_ok(tree, tree.len() as int),
        has_extension(name, x),
        x != y,
    ensures
        forall|k: int|
            0 <= k < flat_files(dir, entries, y).len() ==> file_name_spec(
                #[trigger] flat_files(dir, entries, y)[k],
            ) != Some(name),
        forall|k: int|
            0 <= k < tree_files(dir, tree, y).len() ==> file_name_spec(
                #[trigger] tree_files(dir, tree, y)[k],
            ) != Some(name),
{
    lemma_flat_sound(dir, entries, y);
    lemma_tree_sound(dir, tree, y);
    if has_extension(name, y) {
        lemma_extension_unique(name, x, y);
    }
}

proof fn lemma_here_complete(dir: Seq<char>, v: Seq<Node>, n: int, i: int, tag: Seq<char>)
    requires
        0 <= i < n <= v.len(),
        is_match(kind_of(v[i].kind), v[i].name@, tag),
    ensures
        here_files(dir, v, n, tag).contains(join_spec(dir, v[i].name@)),
    decreases n,
{
    let p = join_spec(dir, v[i].name@);
    if i == n - 1 {
        let h = here_files(dir, v, n, tag);
        assert(h[h.len() - 1] == p);
    } else {
        lemma_here_complete(dir, v, n - 1, i, tag);
        let h0 = here_files(dir, v, n - 1, tag);
        let k = choose|k: int| 0 <= k < h0.len() && h0[k] == p;
        assert(here_files(dir, v, n, tag)[k] == p);
    }
}

proof fn lemma_sub_complete(dir: Seq<char>, v: Vec<Node>, n: int, i: int, tag: Seq<char>, p: Seq<char>)
    requires
        0 <= i < n <= v.len(),
        v[i].kind matches NodeKind::Dir(Contents::Listed(w)) && tree_files(
            join_spec(dir, v[i].name@),
            w,
            tag,
        ).contains(p),
    ensures
        sub_files(dir, v, n, tag).contains(p),
    decreases n,
{
    let s0 = sub_files(dir, v, n - 1, tag);
    if i == n - 1 {
        if let NodeKind::Dir(Contents::Listed(w)) = v[i].kind {
            let t = tree_files(join_spec(dir, v[i].name@), w, tag);
            let k = choose|k: int| 0 <= k < t.len() && t[k] == p;
            assert((s0 + t)[s0.len() + k] == p);
        }
    } else {
        lemma_sub_complete(dir, v, n - 1, i, tag, p);
        let k = choose|k: int| 0 <= k < s0.len() && s0[k] == p;
        match v[n - 1].kind {
            NodeKind::Dir(Contents::Listed(w)) => {
                let t = tree_files(join_spec(dir, v[n - 1].name@), w, tag);
                assert((s0 + t)[k] == p);
            },
            _ => {},
        }
    }
}

/// The walk misses no matching file, at any depth: a matching file among
/// the entries of `dir` is found, and every file found in a readable
/// subdirectory is found in `dir` too.
pub proof fn law_found_at_any_depth(dir: Seq<char>, v: Vec<Node>, i: int, tag: Seq<char>)
    requires
        0 <= i < v.len(),
    ensures
        is_match(kind_of(v[i].kind), v[i].name@, tag) ==> tree_files(dir, v, tag).contains(
            join_spec(dir, v[i].name@),
        ),
        v[i].kind matches NodeKind::Dir(Contents::Listed(w)) ==> (forall|p: Seq<char>|
            #[trigger] tree_files(join_spec(dir, v[i].name@), w, tag).contains(p)
                ==> tree_files(dir, v, tag).contains(p)),
{
    let h = here_files(dir, v@, v.len() as int, tag);
    let s = sub_files(dir, v, v.len() as int, tag);
    if is_match(kind_of(v[i].kind), v[i].name@, tag) {
        lemma_here_complete(dir, v@, v.len() as int, i, tag);
        let k = choose|k: int| 0 <= k < h.len() && h[k] == join_spec(dir, v[i].name@);
        assert((h + s)[k] == join_spec(dir, v[i].name@));
    }
    if let NodeKind::Dir(Contents::Listed(w)) = v[i].kind {
        assert forall|p: Seq<char>|
            #[trigger] tree_files(join_spec(dir, v[i].name@), w, tag).contains(p) implies tree_files(
            dir,
            v,
            tag,
        ).contains(p) by {
            lemma_sub_complete(dir, v, v.len() as int, i, tag, p);
            let k = choose|k: int| 0 <= k < s.len() && s[k] == p;
            assert((h + s)[h.len() + k] == p);
        }
    }
}

} // verus!
