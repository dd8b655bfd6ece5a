//! Exit paths and their enumeration.
//!
//! A pool node is keyed by the ordered sequence of participants that have
//! already exited: a *path*.  The tree must pre-commit to every order in
//! which the remaining participants might exit, so for each length the
//! builder enumerates every sequence of distinct participant indices, in a
//! fixed order (extensions by ascending next-exiter).  The lemmas here show
//! the enumeration is sound (only valid paths) and complete (every valid
//! path), which is what makes every permutation of exit orders resolvable.

use vstd::prelude::*;

verus! {

/// A well-formed exit path: distinct participant indices, all below `n`.
pub open spec fn valid_path(p: Seq<usize>, n: nat) -> bool {
    (forall|i: int| 0 <= i < p.len() ==> (p[i] as nat) < n) && p.no_duplicates()
}

/// The participants not yet exited along `p`, from `lo` upward, ascending.
pub open spec fn remaining_from(p: Seq<usize>, n: nat, lo: nat) -> Seq<usize>
    decreases n - lo,
{
    if lo >= n {
        Seq::empty()
    } else if p.contains(lo as usize) {
        remaining_from(p, n, (lo + 1) as nat)
    } else {
        seq![lo as usize] + remaining_from(p, n, (lo + 1) as nat)
    }
}

/// The participants not yet exited along `p`, in ascending order.
pub open spec fn remaining_users(p: Seq<usize>, n: nat) -> Seq<usize> {
    remaining_from(p, n, 0)
}

pub proof fn lemma_push_contains(s: Seq<usize>, v: usize, x: usize)
    ensures
        s.push(v).contains(x) <==> (s.contains(x) || x == v),
{
    if s.push(v).contains(x) {
        let i = choose|i: int| 0 <= i < s.push(v).len() && s.push(v)[i] == x;
        if i < s.len() {
            assert(s[i] == x);
        }
    }
    if s.contains(x) {
        let i = choose|i: int| 0 <= i < s.len() && s[i] == x;
        assert(s.push(v)[i] == x);
    }
    if x == v {
        assert(s.push(v)[s.len() as int] == x);
    }
}

pub proof fn lemma_remaining_membership(p: Seq<usize>, n: nat, lo: nat)
    requires
        n <= usize::MAX,
    ensures
        forall|v: usize| #[trigger]
            remaining_from(p, n, lo).contains(v) <==> (lo <= v < n && !p.contains(v)),
    decreases n - lo,
{
    if lo < n {
        lemma_remaining_membership(p, n, (lo + 1) as nat);
        let rest = remaining_from(p, n, (lo + 1) as nat);
        if !p.contains(lo as usize) {
            let full = seq![lo as usize] + rest;
            assert(remaining_from(p, n, lo) == full);
            assert forall|v: usize| #[trigger] full.contains(v) implies (lo <= v < n
                && !p.contains(v)) by {
                let i = choose|i: int| 0 <= i < full.len() && full[i] == v;
                if i == 0 {
                    assert(v == lo as usize);
                } else {
                    assert(rest[i - 1] == v);
                    assert(rest.contains(v));
                }
            }
            assert forall|v: usize| (lo <= v < n && !p.contains(v)) implies #[trigger] full.contains(
                v,
            ) by {
                if v == lo as usize {
                    assert(full[0] == v);
                } else {
                    assert(rest.contains(v));
                    let i = choose|i: int| 0 <= i < rest.len() && rest[i] == v;
                    assert(full[i + 1] == v);
                }
            }
        }
    }
}

pub proof fn lemma_remaining_push_len(p: Seq<usize>, n: nat, lo: nat, v: usize)
    requires
        n <= usize::MAX,
        !p.contains(v),
        (v as nat) < n,
    ensures
        remaining_from(p.push(v), n, lo).len() == remaining_from(p, n, lo).len() - (
        if lo <= v {
            1int
        } else {
            0int
        }),
    decreases n - lo,
{
    if lo < n {
        lemma_remaining_push_len(p, n, (lo + 1) as nat, v);
        lemma_push_contains(p, v, lo as usize);
    }
}

proof fn lemma_remaining_empty_len(n: nat, lo: nat)
    ensures
        remaining_from(Seq::<usize>::empty(), n, lo).len() == if lo <= n {
            n - lo
        } else {
            0int
        },
    decreases n - lo,
{
    if lo < n {
        lemma_remaining_empty_len(n, (lo + 1) as nat);
    }
}

pub proof fn lemma_remaining_len(p: Seq<usize>, n: nat)
    requires
        n <= usize::MAX,
        valid_path(p, n),
        p.len() <= n,
    ensures
        remaining_users(p, n).len() == n - p.len(),
    decreases p.len(),
{
    if p.len() == 0 {
        assert(p =~= Seq::<usize>::empty());
        lemma_remaining_empty_len(n, 0);
    } else {
        let p0 = p.drop_last();
        let v = p.last();
        assert(p =~= p0.push(v));
        assert(valid_path(p0, n)) by {
            assert(forall|i: int| 0 <= i < p0.len() ==> p0[i] == p[i]);
        }
        assert(!p0.contains(v)) by {
            if p0.contains(v) {
                let i = choose|i: int| 0 <= i < p0.len() && p0[i] == v;
                assert(p[i] == p[p.len() - 1]);
                assert(false);
            }
        }
        lemma_remaining_len(p0, n);
        lemma_remaining_push_len(p0, n, 0, v);
    }
}

pub proof fn lemma_valid_push(p: Seq<usize>, n: nat, u: usize)
    requires
        valid_path(p, n),
        (u as nat) < n,
        !p.contains(u),
    ensures
        valid_path(p.push(u), n),
{
    let q = p.push(u);
    assert forall|i: int, j: int| 0 <= i < j < q.len() implies q[i] != q[j] by {
        if j == p.len() {
            if q[i] == u {
                assert(p[i] == u);
                assert(p.contains(u));
            }
        }
    }
}

pub proof fn lemma_valid_take(p: Seq<usize>, n: nat, i: int)
    requires
        valid_path(p, n),
        0 <= i <= p.len(),
    ensures
        valid_path(p.take(i), n),
{
    let q = p.take(i);
    assert(forall|j: int| 0 <= j < q.len() ==> q[j] == p[j]);
}

/// All one-step extensions of path `p` by a not-yet-exited participant with
/// index at least `lo`, by ascending participant index.
pub open spec fn extensions_from(p: Seq<usize>, n: nat, lo: nat) -> Seq<Seq<usize>>
    decreases n - lo,
{
    if lo >= n {
        Seq::empty()
    } else if p.contains(lo as usize) {
        extensions_from(p, n, (lo + 1) as nat)
    } else {
        seq![p.push(lo as usize)] + extensions_from(p, n, (lo + 1) as nat)
    }
}

pub open spec fn path_extensions(p: Seq<usize>, n: nat) -> Seq<Seq<usize>> {
    extensions_from(p, n, 0)
}

pub proof fn lemma_extensions_membership(p: Seq<usize>, n: nat, lo: nat)
    requires
        n <= usize::MAX,
    ensures
        forall|q: Seq<usize>| #[trigger]
            extensions_from(p, n, lo).contains(q) <==> exists|u: usize|
                lo <= u < n && !p.contains(u) && q == p.push(u),
    decreases n - lo,
{
    if lo < n {
        lemma_extensions_membership(p, n, (lo + 1) as nat);
        let rest = extensions_from(p, n, (lo + 1) as nat);
        if !p.contains(lo as usize) {
            let full = seq![p.push(lo as usize)] + rest;
            assert(extensions_from(p, n, lo) == full);
            assert forall|q: Seq<usize>| #[trigger] full.contains(q) implies exists|u: usize|
                lo <= u < n && !p.contains(u) && q == p.push(u) by {
                let i = choose|i: int| 0 <= i < full.len() && full[i] == q;
                if i == 0 {
                    assert(lo <= (lo as usize) < n && !p.contains(lo as usize) && q == p.push(
                        lo as usize,
                    ));
                } else {
                    assert(rest[i - 1] == q);
                    assert(rest.contains(q));
                }
            }
            assert forall|q: Seq<usize>|
                (exists|u: usize| lo <= u < n && !p.contains(u) && q == p.push(u)) implies #[trigger] full.contains(q) by {
                let u = choose|u: usize| lo <= u < n && !p.contains(u) && q == p.push(u);
                if u == lo as usize {
                    assert(full[0] == q);
                } else {
                    assert(rest.contains(q));
                    let i = choose|i: int| 0 <= i < rest.len() && rest[i] == q;
                    assert(full[i + 1] == q);
                }
            }
        } else {
            assert forall|q: Seq<usize>|
                (exists|u: usize| lo <= u < n && !p.contains(u) && q == p.push(u)) implies #[trigger] extensions_from(p, n, lo).contains(q) by {
                let u = choose|u: usize| lo <= u < n && !p.contains(u) && q == p.push(u);
                assert(u != lo as usize);
            }
        }
    }
}

/// The concatenation of the extensions of every path in `ps`, in order.
pub open spec fn extend_all(ps: Seq<Seq<usize>>, n: nat) -> Seq<Seq<usize>>
    decreases ps.len(),
{
    if ps.len() == 0 {
        Seq::empty()
    } else {
        path_extensions(ps[0], n) + extend_all(ps.drop_first(), n)
    }
}

pub proof fn lemma_extend_all_push(ps: Seq<Seq<usize>>, p: Seq<usize>, n: nat)
    ensures
        extend_all(ps.push(p), n) == extend_all(ps, n) + path_extensions(p, n),
    decreases ps.len(),
{
    if ps.len() == 0 {
        reveal_with_fuel(extend_all, 2);
        assert(ps.push(p)[0] == p);
        assert(ps.push(p).drop_first() =~= Seq::<Seq<usize>>::empty());
        assert(extend_all(ps.push(p), n) =~= extend_all(ps, n) + path_extensions(p, n));
    } else {
        assert(ps.push(p).drop_first() =~= ps.drop_first().push(p));
        assert(ps.push(p)[0] == ps[0]);
        lemma_extend_all_push(ps.drop_first(), p, n);
        assert(extend_all(ps.push(p), n) == path_extensions(ps[0], n) + (extend_all(
            ps.drop_first(),
            n,
        ) + path_extensions(p, n)));
        assert(extend_all(ps, n) == path_extensions(ps[0], n) + extend_all(ps.drop_first(), n));
        assert(path_extensions(ps[0], n) + (extend_all(ps.drop_first(), n) + path_extensions(p, n))
            =~= (path_extensions(ps[0], n) + extend_all(ps.drop_first(), n)) + path_extensions(
            p,
            n,
        ));
    }
}

pub proof fn lemma_extend_all_sound(ps: Seq<Seq<usize>>, n: nat, q: Seq<usize>)
    requires
        extend_all(ps, n).contains(q),
    ensures
        exists|i: int| 0 <= i < ps.len() && path_extensions(#[trigger] ps[i], n).contains(q),
    decreases ps.len(),
{
    assert(ps.len() > 0);
    let head = path_extensions(ps[0], n);
    let rest = extend_all(ps.drop_first(), n);
    let i = choose|i: int| 0 <= i < (head + rest).len() && (head + rest)[i] == q;
    if i < head.len() {
        assert(head[i] == q);
        assert(head.contains(q));
    } else {
        assert(rest[i - head.len()] == q);
        assert(rest.contains(q));
        lemma_extend_all_sound(ps.drop_first(), n, q);
        let j = choose|j: int|
            0 <= j < ps.drop_first().len() && path_extensions(ps.drop_first()[j], n).contains(q);
        assert(ps[j + 1] == ps.drop_first()[j]);
    }
}

pub proof fn lemma_extend_all_complete(ps: Seq<Seq<usize>>, n: nat, i: int, q: Seq<usize>)
    requires
        0 <= i < ps.len(),
        path_extensions(ps[i], n).contains(q),
    ensures
        extend_all(ps, n).contains(q),
    decreases ps.len(),
{
    let head = path_extensions(ps[0], n);
    let rest = extend_all(ps.drop_first(), n);
    if i == 0 {
        let j = choose|j: int| 0 <= j < head.len() && head[j] == q;
        assert((head + rest)[j] == q);
    } else {
        assert(ps.drop_first()[i - 1] == ps[i]);
        lemma_extend_all_complete(ps.drop_first(), n, i - 1, q);
        let j = choose|j: int| 0 <= j < rest.len() && rest[j] == q;
        assert((head + rest)[head.len() + j] == q);
    }
}

/// Every exit path of length `k`, in the builder's fixed order.
pub open spec fn paths_of_len(n: nat, k: nat) -> Seq<Seq<usize>>
    decreases k,
{
    if k == 0 {
        seq![Seq::<usize>::empty()]
    } else {
        extend_all(paths_of_len(n, (k - 1) as nat), n)
    }
}

/// Soundness of the enumeration: it lists only valid paths of the right
/// length.
pub proof fn lemma_paths_sound(n: nat, k: nat)
    requires
        n <= usize::MAX,
    ensures
        forall|i: int|
            0 <= i < paths_of_len(n, k).len() ==> valid_path(#[trigger] paths_of_len(n, k)[i], n)
                && paths_of_len(n, k)[i].len() == k,
    decreases k,
{
    if k == 0 {
        assert(paths_of_len(n, 0)[0] =~= Seq::<usize>::empty());
        assert(valid_path(Seq::<usize>::empty(), n));
    } else {
        lemma_paths_sound(n, (k - 1) as nat);
        let prev = paths_of_len(n, (k - 1) as nat);
        assert forall|i: int|
            0 <= i < paths_of_len(n, k).len() implies valid_path(
            #[trigger] paths_of_len(n, k)[i],
            n,
        ) && paths_of_len(n, k)[i].len() == k by {
            let q = paths_of_len(n, k)[i];
            assert(extend_all(prev, n).contains(q));
            lemma_extend_all_sound(prev, n, q);
            let j = choose|j: int| 0 <= j < prev.len() && path_extensions(prev[j], n).contains(q);
            lemma_extensions_membership(prev[j], n, 0);
            let u = choose|u: usize| 0 <= u < n && !prev[j].contains(u) && q == prev[j].push(u);
            lemma_valid_push(prev[j], n, u);
        }
    }
}

/// Completeness of the enumeration: every valid path of length `k` is
/// listed.  This is the tree-coverage property: no reachable pool state is
/// missing from the tree.
pub proof fn lemma_paths_complete(n: nat, k: nat, q: Seq<usize>)
    requires
        n <= usize::MAX,
        valid_path(q, n),
        q.len() == k,
    ensures
        paths_of_len(n, k).contains(q),
    decreases k,
{
    if k == 0 {
        assert(q =~= Seq::<usize>::empty());
        assert(paths_of_len(n, 0)[0] == q);
    } else {
        let p0 = q.drop_last();
        let v = q.last();
        assert(q =~= p0.push(v));
        assert(valid_path(p0, n)) by {
            assert(forall|i: int| 0 <= i < p0.len() ==> p0[i] == q[i]);
        }
        assert(!p0.contains(v)) by {
            if p0.contains(v) {
                let i = choose|i: int| 0 <= i < p0.len() && p0[i] == v;
                assert(q[i] == q[q.len() - 1]);
                assert(false);
            }
        }
        lemma_paths_complete(n, (k - 1) as nat, p0);
        let prev = paths_of_len(n, (k - 1) as nat);
        let i = choose|i: int| 0 <= i < prev.len() && prev[i] == p0;
        lemma_extensions_membership(p0, n, 0);
        assert((v as nat) < n);
        assert(path_extensions(p0, n).contains(q));
        lemma_extend_all_complete(prev, n, i, q);
    }
}

/// Runtime membership test against a path.
pub fn vec_contains(v: &Vec<usize>, x: usize) -> (r: bool)
    ensures
        r == v@.contains(x),
{
    let mut i: usize = 0;
    while i < v.len()
        invariant
            i <= v@.len(),
            forall|j: int| 0 <= j < i ==> v@[j] != x,
        decreases v@.len() - i,
    {
        if v[i] == x {
            return true;
        }
        i += 1;
    }
    false
}

/// Finds the first position of `x` within a path.
pub fn find_index(v: &Vec<usize>, x: usize) -> (r: Option<usize>)
    ensures
        r matches Some(i) ==> (i as int) < v@.len() && v@[i as int] == x,
        r is None ==> !v@.contains(x),
{
    let mut i: usize = 0;
    while i < v.len()
        invariant
            i <= v@.len(),
            forall|j: int| 0 <= j < i ==> v@[j] != x,
        decreases v@.len() - i,
    {
        if v[i] == x {
            return Some(i);
        }
        i += 1;
    }
    None
}

/// Runtime equality test between two paths.
pub fn paths_equal(a: &Vec<usize>, b: &Vec<usize>) -> (r: bool)
    ensures
        r == (a@ == b@),
{
    if a.len() != b.len() {
        return false;
    }
    let mut i: usize = 0;
    while i < a.len()
        invariant
            i <= a@.len(),
            a@.len() == b@.len(),
            forall|j: int| 0 <= j < i ==> a@[j] == b@[j],
        decreases a@.len() - i,
    {
        if a[i] != b[i] {
            return false;
        }
        i += 1;
    }
    proof {
        assert(a@ =~= b@);
    }
    true
}

pub fn copy_usizes(v: &Vec<usize>) -> (r: Vec<usize>)
    ensures
        r@ == v@,
{
    let mut r: Vec<usize> = Vec::new();
    let mut i: usize = 0;
    while i < v.len()
        invariant
            i <= v@.len(),
            r@ == v@.take(i as int),
        decreases v@.len() - i,
    {
        r.push(v[i]);
        proof {
            assert(r@ =~= v@.take(i as int + 1));
        }
        i += 1;
    }
    proof {
        assert(r@ =~= v@);
    }
    r
}

/// Computes the not-yet-exited participants along a path, ascending.
pub fn remaining_users_exec(path: &Vec<usize>, n: usize) -> (r: Vec<usize>)
    ensures
        r@ == remaining_users(path@, n as nat),
{
    let mut r: Vec<usize> = Vec::new();
    let mut u: usize = 0;
    while u < n
        invariant
            u <= n,
            remaining_users(path@, n as nat) == r@ + remaining_from(path@, n as nat, u as nat),
        decreases n - u,
    {
        if !vec_contains(path, u) {
            r.push(u);
            proof {
                assert(r@ + remaining_from(path@, n as nat, (u + 1) as nat) =~= r@.drop_last() + (
                seq![u] + remaining_from(path@, n as nat, (u + 1) as nat)));
            }
        }
        u += 1;
    }
    proof {
        assert(r@ + remaining_from(path@, n as nat, n as nat) =~= r@);
    }
    r
}

/// Extends every path of one enumeration layer by every admissible next
/// exiter, producing the next layer in the fixed order.
pub fn extend_layer(prev: &Vec<Vec<usize>>, n: usize) -> (r: Vec<Vec<usize>>)
    ensures
        r.deep_view() == extend_all(prev.deep_view(), n as nat),
{
    let mut out: Vec<Vec<usize>> = Vec::new();
    let mut i: usize = 0;
    while i < prev.len()
        invariant
            i <= prev@.len(),
            out.deep_view() == extend_all(prev.deep_view().take(i as int), n as nat),
        decreases prev@.len() - i,
    {
        let ghost pv = prev.deep_view()[i as int];
        proof {
            assert(pv =~= prev@[i as int]@);
        }
        let mut u: usize = 0;
        while u < n
            invariant
                u <= n,
                i < prev@.len(),
                pv == prev.deep_view()[i as int],
                pv == prev@[i as int]@,
                out.deep_view() + extensions_from(pv, n as nat, u as nat) == extend_all(
                    prev.deep_view().take(i as int),
                    n as nat,
                ) + extensions_from(pv, n as nat, 0),
            decreases n - u,
        {
            if !vec_contains(&prev[i], u) {
                let mut q = copy_usizes(&prev[i]);
                q.push(u);
                proof {
                    assert(q@ == pv.push(u));
                    assert(q.deep_view() =~= pv.push(u));
                }
                let ghost old_dv = out.deep_view();
                out.push(q);
                proof {
                    assert(out.deep_view() =~= old_dv.push(pv.push(u)));
                    assert(out.deep_view() + extensions_from(pv, n as nat, (u + 1) as nat) =~= (
                    old_dv + (seq![pv.push(u)] + extensions_from(pv, n as nat, (u + 1) as nat))));
                }
            }
            u += 1;
        }
        proof {
            assert(out.deep_view() + extensions_from(pv, n as nat, n as nat) =~= out.deep_view());
            assert(prev.deep_view().take(i as int + 1) =~= prev.deep_view().take(i as int).push(
                pv,
            ));
            lemma_extend_all_push(prev.deep_view().take(i as int), pv, n as nat);
        }
        i += 1;
    }
    proof {
        assert(prev.deep_view().take(prev.deep_view().len() as int) =~= prev.deep_view());
    }
    out
}

} // verus!
