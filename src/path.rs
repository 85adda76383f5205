use vstd::prelude::*;

verus! {

/// `name` under directory `dir`; the empty path is the root.
pub open spec fn joined(dir: Seq<char>, name: Seq<char>) -> Seq<char> {
    if dir.len() == 0 {
        name
    } else {
        dir + seq!['/'] + name
    }
}

/// A single path component: not empty, and no separator in it.
pub open spec fn is_name(n: Seq<char>) -> bool {
    n.len() > 0 && forall|i: int| 0 <= i < n.len() ==> n[i] != '/'
}

/// A name of the `._` family (metadata files that some hosts scatter about).
pub open spec fn is_metadata_name(n: Seq<char>) -> bool {
    n.len() >= 2 && n[0] == '.' && n[1] == '_'
}

/// `q` is `p` itself or lies below it; everything lies below the root.
pub open spec fn within(q: Seq<char>, p: Seq<char>) -> bool {
    q == p || p.len() == 0 || (p.len() < q.len() && q.subrange(0, p.len() as int) == p && q[p.len() as int]
        == '/')
}

/// The last component of a path: what follows its last separator.
pub open spec fn base_name(p: Seq<char>) -> Seq<char>
    decreases p.len(),
{
    if p.len() == 0 {
        p
    } else if p.last() == '/' {
        Seq::empty()
    } else {
        base_name(p.drop_last()).push(p.last())
    }
}

/// `p` without trailing separators and trailing `.` components.
pub open spec fn trimmed(p: Seq<char>) -> Seq<char>
    decreases p.len(),
{
    if p.len() == 0 {
        p
    } else if p.last() == '/' {
        trimmed(p.drop_last())
    } else if p == seq!['.'] {
        Seq::empty()
    } else if p.len() >= 2 && p.last() == '.' && p[p.len() - 2] == '/' {
        trimmed(p.subrange(0, p.len() - 2))
    } else {
        p
    }
}

/// The name of the entry that a path ends in: its last component once trailing
/// separators and `.` components are dropped; empty for the root, for `.` and for
/// a path that ends in `..`.
pub open spec fn final_name(p: Seq<char>) -> Seq<char> {
    let name = base_name(trimmed(p));
    if name == seq!['.', '.'] {
        Seq::empty()
    } else {
        name
    }
}

/// `name` under directory `dir`.
pub fn join_path(dir: &str, name: &str) -> (r: String)
    ensures
        r@ == joined(dir@, name@),
{
    let mut r = dir.to_owned();
    if !dir.is_empty() {
        r.append("/");
        proof {
            reveal_strlit("/");
        }
    }
    r.append(name);
    r
}

/// What follows the last separator of `path`.
fn last_component(path: &str) -> (r: String)
    ensures
        r@ == base_name(path@),
{
    let n = path.unicode_len();
    let mut i: usize = n;
    assert(path@.subrange(0, n as int) =~= path@);
    assert(path@ + path@.subrange(n as int, n as int) =~= path@);
    while i > 0 && path.get_char(i - 1) != '/'
        invariant
            n == path@.len(),
            0 <= i <= n,
            base_name(path@) == base_name(path@.subrange(0, i as int)) + path@.subrange(
                i as int,
                n as int,
            ),
        decreases i,
    {
        proof {
            let p = path@.subrange(0, i as int);
            assert(p.drop_last() =~= path@.subrange(0, i - 1));
            assert(path@.subrange(i - 1, n as int) =~= seq![p.last()] + path@.subrange(
                i as int,
                n as int,
            ));
        }
        i -= 1;
    }
    proof {
        if i > 0 {
            let p = path@.subrange(0, i as int);
            assert(p.last() == '/');
        } else {
            assert(path@.subrange(0, 0) =~= Seq::<char>::empty());
        }
        assert(base_name(path@.subrange(0, i as int)) =~= Seq::<char>::empty());
        assert(Seq::<char>::empty() + path@.subrange(i as int, n as int) =~= path@.subrange(
            i as int,
            n as int,
        ));
    }
    path.substring_char(i, n).to_owned()
}

/// The name of the entry that `path` ends in; empty if it names none.
pub fn file_name(path: &str) -> (r: String)
    ensures
        r@ == final_name(path@),
{
    let total = path.unicode_len();
    let mut n: usize = total;
    assert(path@.subrange(0, total as int) =~= path@);
    loop
        invariant
            total == path@.len(),
            0 <= n <= total,
            trimmed(path@) == trimmed(path@.subrange(0, n as int)),
        ensures
            0 <= n <= total,
            trimmed(path@) == path@.subrange(0, n as int),
        decreases n,
    {
        let ghost q = path@.subrange(0, n as int);
        if n > 0 && path.get_char(n - 1) == '/' {
            assert(q.drop_last() =~= path@.subrange(0, n - 1));
            n -= 1;
        } else if n == 1 && path.get_char(0) == '.' {
            assert(q =~= seq!['.']);
            assert(path@.subrange(0, 0) =~= Seq::<char>::empty());
            n = 0;
        } else if n >= 2 && path.get_char(n - 1) == '.' && path.get_char(n - 2) == '/' {
            assert(q.subrange(0, q.len() - 2) =~= path@.subrange(0, n - 2));
            assert(q != seq!['.']);
            n -= 2;
        } else {
            proof {
                if q == seq!['.'] {
                    assert(q[0] == path@[0]);
                }
                if n > 0 {
                    assert(q.last() == path@[n - 1]);
                }
                if n >= 2 {
                    assert(q[q.len() - 2] == path@[n - 2]);
                }
                assert(trimmed(q) == q);
            }
            break;
        }
    }
    let head = path.substring_char(0, n);
    let name = last_component(head);
    proof {
        reveal_strlit("..");
    }
    if name.as_str().unicode_len() == 2 && name.as_str().get_char(0) == '.' && name.as_str().get_char(
        1,
    ) == '.' {
        assert(name@ =~= seq!['.', '.']);
        String::new()
    } else {
        proof {
            if name@ == seq!['.', '.'] {
                assert(name@[0] == '.' && name@[1] == '.');
            }
        }
        name
    }
}

/// Whether `name` starts with `prefix`.
pub fn starts_with(name: &str, prefix: &str) -> (r: bool)
    ensures
        r == (prefix@.len() <= name@.len() && name@.subrange(0, prefix@.len() as int) == prefix@),
{
    let n = name.unicode_len();
    let m = prefix.unicode_len();
    if m > n {
        return false;
    }
    let mut i: usize = 0;
    while i < m
        invariant
            n == name@.len(),
            m == prefix@.len(),
            m <= n,
            0 <= i <= m,
            forall|j: int| 0 <= j < i ==> name@[j] == prefix@[j],
        decreases m - i,
    {
        if name.get_char(i) != prefix.get_char(i) {
            assert(name@.subrange(0, m as int)[i as int] != prefix@[i as int]);
            return false;
        }
        i += 1;
    }
    assert(name@.subrange(0, m as int) =~= prefix@);
    true
}

} // verus!
