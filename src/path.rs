use vstd::prelude::*;

verus! {

/// `name` appended to `dir`, with a `/` between them unless `dir` is empty
/// or already ends in one.
pub open spec fn join_spec(dir: Seq<char>, name: Seq<char>) -> Seq<char> {
    if dir.len() == 0 || dir.last() == '/' {
        dir + name
    } else {
        dir + seq!['/'] + name
    }
}

/// What follows the last `/` of `p` (all of `p` when it holds none).
pub open spec fn last_component(p: Seq<char>) -> Seq<char>
    decreases p.len(),
{
    if p.len() == 0 || p.last() == '/' {
        Seq::empty()
    } else {
        last_component(p.drop_last()).push(p.last())
    }
}

/// `p` without its trailing separators and trailing `.` segments: what is
/// left ends in the last segment that names something, if any.
pub open spec fn trimmed(p: Seq<char>) -> Seq<char>
    decreases p.len(),
{
    if p.len() == 0 {
        p
    } else if p.last() == '/' || (p.last() == '.' && (p.len() == 1 || p[p.len() - 2] == '/')) {
        trimmed(p.drop_last())
    } else {
        p
    }
}

/// The name of the file that `p` points at: its last segment once trailing
/// separators and `.` segments are set aside; none when no segment is left
/// or the last one is `..`.
pub open spec fn file_name_spec(p: Seq<char>) -> Option<Seq<char>> {
    let b = last_component(trimmed(p));
    if b.len() == 0 || b == seq!['.', '.'] {
        None
    } else {
        Some(b)
    }
}

/// Whether `name` can be the name of an entry of a directory.
pub open spec fn is_entry_name(name: Seq<char>) -> bool {
    &&& name.len() > 0
    &&& !name.contains('/')
    &&& name != seq!['.']
    &&& name != seq!['.', '.']
}

/// The path of the entry `name` of the directory `dir`.
pub fn join(dir: &str, name: &str) -> (r: String)
    ensures
        r@ == join_spec(dir@, name@),
{
    let n = dir.unicode_len();
    let mut r = String::from_str(dir);
    if n > 0 && dir.get_char(n - 1) != '/' {
        proof {
            reveal_strlit("/");
        }
        r.append("/");
    }
    r.append(name);
    r
}

/// The name of the file that `p` points at, if it names one.
pub fn file_name(p: &str) -> (r: Option<String>)
    ensures
        r matches Some(s) ==> file_name_spec(p@) == Some(s@),
        r is None ==> file_name_spec(p@) is None,
{
    let len = p.unicode_len();
    let mut n: usize = len;
    assert(p@.subrange(0, len as int) =~= p@);
    while n > 0 && (p.get_char(n - 1) == '/' || (p.get_char(n - 1) == '.' && (n == 1
        || p.get_char(n - 2) == '/')))
        invariant
            len == p@.len(),
            n <= len,
            trimmed(p@) == trimmed(p@.subrange(0, n as int)),
        decreases n,
    {
        assert(p@.subrange(0, n as int).drop_last() =~= p@.subrange(0, n - 1));
        n -= 1;
    }
    let ghost t = p@.subrange(0, n as int);
    assert(trimmed(t) == t);
    let mut k: usize = n;
    assert(t.subrange(0, n as int) =~= t);
    assert(t.subrange(n as int, n as int) =~= Seq::<char>::empty());
    while k > 0 && p.get_char(k - 1) != '/'
        invariant
            n <= len,
            len == p@.len(),
            t == p@.subrange(0, n as int),
            k <= n,
            last_component(t) == last_component(t.subrange(0, k as int)) + t.subrange(
                k as int,
                n as int,
            ),
        decreases k,
    {
        let ghost q = t.subrange(0, k as int);
        assert(q.drop_last() =~= t.subrange(0, k - 1));
        assert(t.subrange(k - 1, n as int) =~= seq![q.last()] + t.subrange(k as int, n as int));
        assert(last_component(q) == last_component(q.drop_last()).push(q.last()));
        assert(last_component(q.drop_last()).push(q.last()) + t.subrange(k as int, n as int)
            =~= last_component(q.drop_last()) + t.subrange(k - 1, n as int));
        k -= 1;
    }
    assert(last_component(t.subrange(0, k as int)) =~= Seq::<char>::empty());
    assert(last_component(t) =~= t.subrange(k as int, n as int));
    let b = p.substring_char(k, n);
    assert(b@ =~= t.subrange(k as int, n as int));
    let m = n - k;
    if m == 0 {
        return None;
    }
    if m == 2 && b.get_char(0) == '.' && b.get_char(1) == '.' {
        assert(b@ =~= seq!['.', '.']);
        return None;
    }
    assert(b@ != seq!['.', '.']) by {
        if m == 2 {
            assert(b@[0] != '.' || b@[1] != '.');
        }
    }
    Some(String::from_str(b))
}

/// A component with no `/`, appended to a path that is empty or ends in
/// `/`, is the last component of the result.
proof fn lemma_last_component_append(a: Seq<char>, name: Seq<char>)
    requires
        a.len() == 0 || a.last() == '/',
        !name.contains('/'),
    ensures
        last_component(a + name) == name,
    decreases name.len(),
{
    if name.len() == 0 {
        assert(a + name =~= a);
    } else {
        let s = a + name;
        assert(s.last() == name.last());
        assert(s.drop_last() =~= a + name.drop_last());
        assert(!name.drop_last().contains('/')) by {
            if name.drop_last().contains('/') {
                let i = choose|i: int| 0 <= i < name.drop_last().len() && name.drop_last()[i] == '/';
                assert(name[i] == '/');
            }
        }
        lemma_last_component_append(a, name.drop_last());
        assert(name.drop_last().push(name.last()) =~= name);
    }
}

/// The file name of an entry's path is the entry's name.
pub proof fn lemma_file_name_of_join(dir: Seq<char>, name: Seq<char>)
    requires
        is_entry_name(name),
    ensures
        file_name_spec(join_spec(dir, name)) == Some(name),
{
    let j = join_spec(dir, name);
    assert(j.last() == name.last());
    assert(name.len() >= 2 ==> j[j.len() - 2] == name[name.len() - 2]) by {
        if name.len() >= 2 {
            assert(j.subrange(j.len() - name.len(), j.len() as int) =~= name);
        }
    };
    assert(trimmed(j) == j) by {
        assert(name.last() != '/') by {
            assert(name[name.len() - 1] == name.last());
        }
        if name.last() == '.' && name.len() >= 2 {
            assert(name[name.len() - 2] != '/');
        }
        if name.len() == 1 && name.last() == '.' {
            assert(name =~= seq!['.']);
        }
    };
    if dir.len() == 0 || dir.last() == '/' {
        lemma_last_component_append(dir, name);
    } else {
        let a = dir + seq!['/'];
        assert(a.last() == '/');
        assert(dir + seq!['/'] + name == a + name);
        lemma_last_component_append(a, name);
    }
}

} // verus!
