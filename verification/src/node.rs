//! A minimal heap-resident node type: an integer payload and one optional
//! outgoing edge. It is the simplest type on which self-referential and
//! mutually-referential object graphs can be built.

use vstd::prelude::*;

use crate::handles::{GcBor, GcPtr};
use crate::heap::{Gc, GcContext};
use crate::trace::{Trace, Tracer};

verus! {

/// A node holding an integer and at most one edge to another node.
pub struct SelfRef {
    /// The payload.
    pub x: i32,
    /// The optional outgoing edge.
    pub other: Option<GcPtr>,
}

impl Trace for SelfRef {
    open spec fn edges(&self) -> Seq<usize> {
        self.other.edges()
    }

    fn trace(&self, tracer: &mut Tracer) {
        self.other.trace(tracer);
    }
}

impl SelfRef {
    /// Allocate a node under the active token, resolving the optional
    /// borrow handle to an owned edge pointer. The new object sits at the
    /// next fresh address, carries the payload `x`, and its one potential
    /// edge leads to the address `other` wrapped.
    pub fn new(gc: &mut Gc<SelfRef>, ctx: &GcContext, x: i32, other: Option<GcBor>) -> (b: GcBor)
        requires
            old(gc)@.wf(),
            old(gc)@.active,
            ctx.epoch() == old(gc)@.epoch,
        ensures
            final(gc)@.wf(),
            final(gc)@.active == old(gc)@.active,
            final(gc)@.epoch == old(gc)@.epoch,
            final(gc)@.marked == old(gc)@.marked.push(false),
            final(gc)@.pins == old(gc)@.pins.push(0),
            final(gc)@.values.len() == old(gc)@.values.len() + 1,
            forall|i: int|
                0 <= i < old(gc)@.values.len()
                    ==> final(gc)@.values[i] == old(gc)@.values[i],
            b.addr() == old(gc)@.values.len(),
            b.epoch() == ctx.epoch(),
            final(gc).bor_ok(b),
            final(gc)@.values.last() is Some,
            final(gc)@.values.last().unwrap().x == x,
            other is Some ==> final(gc)@.values.last().unwrap().edges() == seq![
                other.unwrap().addr(),
            ],
            other is None ==> final(gc)@.values.last().unwrap().edges()
                == Seq::<usize>::empty(),
    {
        let edge: Option<GcPtr> = match other {
            Some(target) => Some(GcPtr::from_bor(target)),
            None => None,
        };
        gc.allocate(ctx, SelfRef { x, other: edge })
    }
}

} // verus!
