//! The mathematical model of the heap.
//!
//! [`GcModel`] is the view of [`crate::heap::Gc`]: per arena address, the
//! stored value (or `None` for a freed slot), the mark flag, and the pin
//! count of the root registry; beside them the token state, an `active` flag
//! and the current epoch. Reachability from the root set is defined here over
//! paths, and [`GcModel::wf`] is the well-formedness invariant every heap
//! operation preserves.

use vstd::prelude::*;

use crate::trace::Trace;

verus! {

/// The abstract state of a heap: three equal-length columns of the arena
/// table, and the context-token state.
pub struct GcModel<T> {
    /// Per address, the object stored there, or `None` for a freed slot.
    pub values: Seq<Option<T>>,
    /// Per address, the mark flag of the current or last mark phase.
    pub marked: Seq<bool>,
    /// Per address, how many root handles pin it.
    pub pins: Seq<u64>,
    /// Whether a context token is outstanding.
    pub active: bool,
    /// The epoch of the most recently acquired context token.
    pub epoch: u64,
}

impl<T: Trace> GcModel<T> {
    /// Well-formedness: the columns agree in length, no mark flag is set
    /// between collections, and a pinned address always holds an object.
    pub open spec fn wf(self) -> bool {
        &&& self.marked.len() == self.values.len()
        &&& self.pins.len() == self.values.len()
        &&& forall|i: int| 0 <= i < self.values.len() ==> !self.marked[i]
        &&& forall|i: int|
            0 <= i < self.values.len() && self.pins[i] > 0 ==> self.values[i] is Some
    }

    /// Address `i` holds a live object.
    pub open spec fn live(self, i: int) -> bool {
        0 <= i < self.values.len() && self.values[i] is Some
    }

    /// The outgoing edges of the object at address `i`.
    pub open spec fn obj_edges(self, i: int) -> Seq<usize>
        recommends
            self.live(i),
    {
        self.values[i].unwrap().edges()
    }

    /// Address `i` is pinned by at least one root handle.
    pub open spec fn rooted(self, i: int) -> bool {
        self.live(i) && self.pins[i] > 0
    }

    /// The object at address `a` holds an edge to the live object at `b`.
    pub open spec fn has_edge(self, a: int, b: int) -> bool {
        &&& self.live(a)
        &&& self.live(b)
        &&& exists|k: int| 0 <= k < self.obj_edges(a).len() && self.obj_edges(a)[k] as int == b
    }

    /// `p` is a walk through the object graph that starts at a rooted
    /// address and follows one edge per step.
    pub open spec fn is_path(self, p: Seq<int>) -> bool {
        &&& p.len() > 0
        &&& self.rooted(p[0])
        &&& forall|k: int| 0 <= k < p.len() - 1 ==> #[trigger] self.has_edge(p[k], p[k + 1])
    }

    /// Address `a` is transitively reachable from the root set.
    pub open spec fn reachable(self, a: int) -> bool {
        exists|p: Seq<int>| self.is_path(p) && p.last() == a
    }

    /// What a collection does to the heap, `self` being the state before
    /// and `post` the state after. This is reachability soundness: exactly
    /// the addresses reachable from the root set stay live, each with its
    /// value unchanged; pin counts are untouched, so every rooted object
    /// survives still rooted; every mark flag is `false` again, ready for
    /// the next cycle; and the token is no longer outstanding.
    pub open spec fn collect_post(self, post: GcModel<T>) -> bool {
        &&& post.wf()
        &&& !post.active
        &&& post.epoch == self.epoch
        &&& post.pins == self.pins
        &&& post.values.len() == self.values.len()
        &&& forall|i: int| 0 <= i < self.values.len() ==> (post.live(i) <==> self.reachable(i))
        &&& forall|i: int| #[trigger] post.live(i) ==> post.values[i] == self.values[i]
        &&& forall|i: int| 0 <= i < post.marked.len() ==> !post.marked[i]
        &&& forall|i: int|
            #[trigger] self.rooted(i) ==> post.rooted(i) && post.values[i] == self.values[i]
    }

    /// How many of the first `k` addresses hold a live object.
    pub open spec fn live_count_to(self, k: int) -> nat
        decreases k,
    {
        if k <= 0 {
            0
        } else {
            self.live_count_to(k - 1) + (if self.values[k - 1] is Some {
                1nat
            } else {
                0nat
            })
        }
    }

    /// How many addresses hold a live object.
    pub open spec fn live_count(self) -> nat {
        self.live_count_to(self.values.len() as int)
    }

    /// How many of the first `k` addresses are pinned.
    pub open spec fn root_count_to(self, k: int) -> nat
        decreases k,
    {
        if k <= 0 {
            0
        } else {
            self.root_count_to(k - 1) + (if self.pins[k - 1] > 0 {
                1nat
            } else {
                0nat
            })
        }
    }

    /// How many addresses are pinned as roots.
    pub open spec fn root_count(self) -> nat {
        self.root_count_to(self.pins.len() as int)
    }
}

} // verus!
