//! Reachability over an abstract edge relation on hex coordinates:
//! paths, their closure properties, and the key lemma that a set closed
//! under edges contains everything reachable from its members.

use vstd::prelude::*;
use crate::coords::AxialCoords;

verus! {

/// Every consecutive pair of `p` is connected by `e`.
pub open spec fn is_path(e: spec_fn(AxialCoords, AxialCoords) -> bool, p: Seq<AxialCoords>) -> bool {
    forall|i: int| 0 <= i < p.len() - 1 ==> e(#[trigger] p[i], p[i + 1])
}

/// Some non-empty path under `e` starts at `a` and ends at `b`.
pub open spec fn reaches(
    e: spec_fn(AxialCoords, AxialCoords) -> bool,
    a: AxialCoords,
    b: AxialCoords,
) -> bool {
    exists|p: Seq<AxialCoords>|
        p.len() > 0 && p[0] == a && p[p.len() - 1] == b && is_path(e, p)
}

/// Reachability is reflexive (witness: the one-element path).
pub proof fn lemma_reaches_refl(e: spec_fn(AxialCoords, AxialCoords) -> bool, a: AxialCoords)
    ensures
        reaches(e, a, a),
{
    let p = seq![a];
    assert(p.len() > 0 && p[0] == a && p[p.len() - 1] == a && is_path(e, p));
}

/// Reachability extends along a single edge.
pub proof fn lemma_reaches_step(
    e: spec_fn(AxialCoords, AxialCoords) -> bool,
    a: AxialCoords,
    b: AxialCoords,
    c: AxialCoords,
)
    requires
        reaches(e, a, b),
        e(b, c),
    ensures
        reaches(e, a, c),
{
    let p = choose|p: Seq<AxialCoords>|
        p.len() > 0 && p[0] == a && p[p.len() - 1] == b && is_path(e, p);
    let q = p.push(c);
    assert forall|i: int| 0 <= i < q.len() - 1 implies e(#[trigger] q[i], q[i + 1]) by {
        if i < p.len() - 1 {
            assert(e(p[i], p[i + 1]));
        }
    }
    assert(q.len() > 0 && q[0] == a && q[q.len() - 1] == c && is_path(e, q));
}

/// Reachability composes.
pub proof fn lemma_reaches_trans(
    e: spec_fn(AxialCoords, AxialCoords) -> bool,
    a: AxialCoords,
    b: AxialCoords,
    c: AxialCoords,
)
    requires
        reaches(e, a, b),
        reaches(e, b, c),
    ensures
        reaches(e, a, c),
{
    let q = choose|q: Seq<AxialCoords>|
        q.len() > 0 && q[0] == b && q[q.len() - 1] == c && is_path(e, q);
    lemma_reaches_trans_aux(e, a, b, q);
}

proof fn lemma_reaches_trans_aux(
    e: spec_fn(AxialCoords, AxialCoords) -> bool,
    a: AxialCoords,
    b: AxialCoords,
    q: Seq<AxialCoords>,
)
    requires
        reaches(e, a, b),
        q.len() > 0,
        q[0] == b,
        is_path(e, q),
    ensures
        reaches(e, a, q[q.len() - 1]),
    decreases q.len(),
{
    if q.len() == 1 {
    } else {
        assert(e(q[0], q[1]));
        lemma_reaches_step(e, a, b, q[1]);
        let q2 = q.subrange(1, q.len() as int);
        assert forall|i: int| 0 <= i < q2.len() - 1 implies e(#[trigger] q2[i], q2[i + 1]) by {
            assert(e(q[i + 1], q[i + 2]));
        }
        lemma_reaches_trans_aux(e, a, q[1], q2);
        assert(q2[q2.len() - 1] == q[q.len() - 1]);
    }
}

/// Under a symmetric edge relation, reachability is symmetric
/// (witness: the reversed path).
pub proof fn lemma_reaches_sym(
    e: spec_fn(AxialCoords, AxialCoords) -> bool,
    a: AxialCoords,
    b: AxialCoords,
)
    requires
        reaches(e, a, b),
        forall|x: AxialCoords, y: AxialCoords| #[trigger] e(x, y) ==> e(y, x),
    ensures
        reaches(e, b, a),
{
    let p = choose|p: Seq<AxialCoords>|
        p.len() > 0 && p[0] == a && p[p.len() - 1] == b && is_path(e, p);
    let n = p.len() as int;
    let q = Seq::new(p.len(), |i: int| p[n - 1 - i]);
    assert forall|i: int| 0 <= i < q.len() - 1 implies e(#[trigger] q[i], q[i + 1]) by {
        assert(e(p[n - 2 - i], p[n - 1 - i]));
    }
    assert(q.len() > 0 && q[0] == b && q[q.len() - 1] == a && is_path(e, q));
}

/// A set of coordinates (given as the elements of a sequence) that
/// contains `a` and is closed under `e`-edges contains everything
/// reachable from `a`.
pub proof fn lemma_closed_contains_reachable(
    e: spec_fn(AxialCoords, AxialCoords) -> bool,
    vs: Seq<AxialCoords>,
    a: AxialCoords,
    b: AxialCoords,
)
    requires
        vs.contains(a),
        forall|x: AxialCoords, y: AxialCoords|
            vs.contains(x) && #[trigger] e(x, y) ==> vs.contains(y),
        reaches(e, a, b),
    ensures
        vs.contains(b),
{
    let p = choose|p: Seq<AxialCoords>|
        p.len() > 0 && p[0] == a && p[p.len() - 1] == b && is_path(e, p);
    lemma_closed_path(e, vs, p);
}

proof fn lemma_closed_path(
    e: spec_fn(AxialCoords, AxialCoords) -> bool,
    vs: Seq<AxialCoords>,
    p: Seq<AxialCoords>,
)
    requires
        p.len() > 0,
        vs.contains(p[0]),
        forall|x: AxialCoords, y: AxialCoords|
            vs.contains(x) && #[trigger] e(x, y) ==> vs.contains(y),
        is_path(e, p),
    ensures
        vs.contains(p[p.len() - 1]),
    decreases p.len(),
{
    if p.len() > 1 {
        assert(e(p[0], p[1]));
        let p2 = p.subrange(1, p.len() as int);
        assert forall|i: int| 0 <= i < p2.len() - 1 implies e(#[trigger] p2[i], p2[i + 1]) by {
            assert(e(p[i + 1], p[i + 2]));
        }
        lemma_closed_path(e, vs, p2);
        assert(p2[p2.len() - 1] == p[p.len() - 1]);
    }
}

} // verus!
