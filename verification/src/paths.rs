//! The directories above a path, as the EditorConfig files are looked up in.
use vstd::prelude::*;
use crate::text::{chars_of, string_from_chars};

verus! {

/// Index `e` ends a component of the `/`-separated path `p`: a name ends
/// there, and it is not a `.` that follows a separator (such a `.` names
/// the directory already named).
pub open spec fn is_component_end(p: Seq<char>, e: int) -> bool {
    &&& 0 < e <= p.len()
    &&& p[e - 1] != '/'
    &&& (e == p.len() || p[e] == '/')
    &&& !(p[e - 1] == '.' && e >= 2 && p[e - 2] == '/')
}

/// The indices `e <= n` that end a component of `p`, in order.
pub open spec fn component_ends(p: Seq<char>, n: int) -> Seq<int>
    decreases n,
{
    if n <= 0 {
        seq![]
    } else if is_component_end(p, n) {
        component_ends(p, n - 1).push(n)
    } else {
        component_ends(p, n - 1)
    }
}

/// The directories above the path `p`, outermost first: the root `/` (or
/// the empty path, for a relative one), then `p` up to the end of each
/// component but the last. A path without components has none.
pub open spec fn ancestors_of(p: Seq<char>) -> Seq<Seq<char>> {
    let ends = component_ends(p, p.len() as int);
    if ends.len() == 0 {
        seq![]
    } else {
        seq![
            if p[0] == '/' {
                seq!['/']
            } else {
                seq![]
            },
        ] + Seq::new((ends.len() - 1) as nat, |i: int| p.take(ends[i]))
    }
}

proof fn lemma_component_ends_bounds(p: Seq<char>, n: int)
    requires
        n <= p.len(),
    ensures
        forall|i: int|
            0 <= i < component_ends(p, n).len() ==> 0 < #[trigger] component_ends(p, n)[i] <= n,
    decreases n,
{
    if n > 0 {
        lemma_component_ends_bounds(p, n - 1);
        let r = component_ends(p, n - 1);
        if is_component_end(p, n) {
            assert forall|i: int| 0 <= i < component_ends(p, n).len() implies 0
                < #[trigger] component_ends(p, n)[i] <= n by {
                if i < r.len() {
                    assert(component_ends(p, n)[i] == r[i]);
                }
            }
        }
    }
}

/// The directories above `path`, a path with `/` as separator, outermost
/// first (`Path::ancestors` without the path itself, taken in reverse, for
/// such paths).
pub fn ancestor_dirs(path: &str) -> (r: Vec<String>)
    ensures
        r.deep_view() == ancestors_of(path@),
{
    let p = chars_of(path);
    let n = p.len();
    let mut ends: Vec<usize> = Vec::new();
    let mut k: usize = 0;
    while k < n
        invariant
            k <= n,
            n == p@.len(),
            ends@.len() == component_ends(p@, k as int).len(),
            forall|i: int| 0 <= i < ends@.len() ==> #[trigger] ends@[i] == component_ends(p@, k as int)[i],
        decreases n - k,
    {
        let e = k + 1;
        let is_end = p[e - 1] != '/' && (e == n || p[e] == '/') && !(p[e - 1] == '.' && e >= 2 && p[e
            - 2] == '/');
        if is_end {
            ends.push(e);
        }
        k = k + 1;
    }
    let ghost ce = component_ends(p@, n as int);
    proof {
        lemma_component_ends_bounds(p@, n as int);
    }
    let mut r: Vec<String> = Vec::new();
    if ends.len() == 0 {
        assert(r.deep_view() =~= ancestors_of(path@));
        return r;
    }
    let ghost first = if p@[0] == '/' {
        seq!['/']
    } else {
        seq![]
    };
    let root = if p[0] == '/' {
        proof {
            reveal_strlit("/");
        }
        let s = "/".to_owned();
        assert(s@ =~= seq!['/']);
        s
    } else {
        String::new()
    };
    r.push(root);
    assert(r.deep_view()[0] == r@[0]@);
    assert(r.deep_view() =~= seq![first]);
    let mut i: usize = 0;
    while i < ends.len() - 1
        invariant
            i + 1 <= ends@.len(),
            n == p@.len(),
            p@ == path@,
            ce == component_ends(p@, n as int),
            ends@.len() == ce.len(),
            forall|j: int| 0 <= j < ends@.len() ==> #[trigger] ends@[j] == ce[j],
            forall|j: int| 0 <= j < ce.len() ==> 0 < #[trigger] ce[j] <= n,
            r.deep_view() =~= seq![first] + Seq::new(i as nat, |j: int| p@.take(ce[j])),
        decreases ends@.len() - i,
    {
        let end = ends[i];
        assert(ce[i as int] == end);
        let s = string_from_chars(&p.as_slice()[0..end]);
        assert(s@ =~= p@.take(end as int));
        let ghost before = r.deep_view();
        r.push(s);
        assert(r.deep_view() =~= before.push(s@));
        i = i + 1;
        assert(r.deep_view() =~= seq![first] + Seq::new(i as nat, |j: int| p@.take(ce[j])));
    }
    r
}

} // verus!
