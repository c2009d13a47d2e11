//! Laws of reachability over the heap model.

use vstd::prelude::*;

use crate::model::GcModel;
use crate::trace::Trace;

verus! {

/// A rooted address is reachable: the one-step walk that starts and ends at
/// it is a path.
pub proof fn lemma_rooted_reachable<T: Trace>(m: GcModel<T>, a: int)
    requires
        m.rooted(a),
    ensures
        m.reachable(a),
{
    let p: Seq<int> = seq![a];
    assert(m.is_path(p));
    assert(p.last() == a);
}

/// Reachability follows edges: one more step from a reachable object lands
/// on a reachable object.
pub proof fn lemma_reachable_step<T: Trace>(m: GcModel<T>, a: int, b: int)
    requires
        m.reachable(a),
        m.has_edge(a, b),
    ensures
        m.reachable(b),
{
    let p: Seq<int> = choose|p: Seq<int>| m.is_path(p) && p.last() == a;
    let q = p.push(b);
    assert forall|k: int| 0 <= k < q.len() - 1 implies #[trigger] m.has_edge(q[k], q[k + 1]) by {
        if k < p.len() - 1 {
            assert(m.has_edge(p[k], p[k + 1]));
        } else {
            assert(q[k] == p.last());
            assert(q[k + 1] == b);
        }
    }
    assert(m.is_path(q));
    assert(q.last() == b);
}

/// Every address along a rooted walk is marked, given a mark assignment that
/// covers the roots and is closed under edges.
proof fn lemma_path_marked<T: Trace>(m: GcModel<T>, marks: Seq<bool>, p: Seq<int>)
    requires
        marks.len() == m.values.len(),
        forall|i: int| #[trigger] m.rooted(i) ==> marks[i],
        forall|a: int, b: int| 0 <= a < marks.len() && marks[a] && #[trigger] m.has_edge(a, b)
            ==> marks[b],
        m.is_path(p),
    ensures
        0 <= p.last() < marks.len() && marks[p.last()],
    decreases p.len(),
{
    if p.len() == 1 {
        assert(m.rooted(p[0]));
    } else {
        let q = p.drop_last();
        assert forall|k: int| 0 <= k < q.len() - 1 implies #[trigger] m.has_edge(q[k], q[k + 1]) by {
            assert(m.has_edge(p[k], p[k + 1]));
        }
        assert(m.is_path(q));
        lemma_path_marked(m, marks, q);
        let k = p.len() - 2;
        assert(m.has_edge(p[k], p[k + 1]));
        assert(p[k + 1] == p.last());
    }
}

/// Soundness of a finished mark phase: a mark assignment that covers the
/// roots and is closed under edges covers everything reachable.
pub proof fn lemma_marks_cover_reachable<T: Trace>(m: GcModel<T>, marks: Seq<bool>, a: int)
    requires
        marks.len() == m.values.len(),
        forall|i: int| #[trigger] m.rooted(i) ==> marks[i],
        forall|i: int, b: int| 0 <= i < marks.len() && marks[i] && #[trigger] m.has_edge(i, b)
            ==> marks[b],
        m.reachable(a),
    ensures
        0 <= a < marks.len() && marks[a],
{
    let p: Seq<int> = choose|p: Seq<int>| m.is_path(p) && p.last() == a;
    lemma_path_marked(m, marks, p);
}

/// Unreached reclamation, the reachability half: an address that is not
/// rooted and that no reachable object refers to is itself unreachable, so a
/// collection frees it.
pub proof fn lemma_unreferenced_unreachable<T: Trace>(m: GcModel<T>, a: int)
    requires
        !m.rooted(a),
        forall|b: int| #[trigger] m.reachable(b) ==> !m.has_edge(b, a),
    ensures
        !m.reachable(a),
{
    if m.reachable(a) {
        let p: Seq<int> = choose|p: Seq<int>| m.is_path(p) && p.last() == a;
        if p.len() == 1 {
            assert(m.rooted(p[0]));
        } else {
            let q = p.drop_last();
            assert forall|k: int| 0 <= k < q.len() - 1 implies #[trigger] m.has_edge(
                q[k],
                q[k + 1],
            ) by {
                assert(m.has_edge(p[k], p[k + 1]));
            }
            assert(m.is_path(q));
            assert(m.reachable(q.last()));
            let k = p.len() - 2;
            assert(m.has_edge(p[k], p[k + 1]));
            assert(p[k + 1] == a);
            assert(q.last() == p[k]);
        }
    }
}

/// Cycle safety: in a two-object mutual-reference graph, if either object is
/// rooted then both are reachable, and so both survive a collection.
pub proof fn lemma_mutual_cycle<T: Trace>(m: GcModel<T>, a: int, b: int)
    requires
        m.has_edge(a, b),
        m.has_edge(b, a),
        m.rooted(a) || m.rooted(b),
    ensures
        m.reachable(a),
        m.reachable(b),
{
    if m.rooted(a) {
        lemma_rooted_reachable(m, a);
        lemma_reachable_step(m, a, b);
    } else {
        lemma_rooted_reachable(m, b);
        lemma_reachable_step(m, b, a);
    }
}

/// Self-reference: a rooted object that refers to itself is reachable, so it
/// survives a collection.
pub proof fn lemma_self_loop<T: Trace>(m: GcModel<T>, a: int)
    requires
        m.has_edge(a, a),
        m.rooted(a),
    ensures
        m.reachable(a),
{
    lemma_rooted_reachable(m, a);
}

} // verus!
