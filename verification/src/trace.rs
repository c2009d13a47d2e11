//! The tracing capability: how the collector discovers outgoing references.
//!
//! Every heap-resident type implements [`Trace`]. During the mark phase the
//! collector hands each reached object a [`Tracer`]; the object reports every
//! outgoing owned edge pointer it holds, directly or through composite
//! fields. Leaf primitive types report nothing; wrapper types forward to
//! their contents. The specification side of the capability is the
//! [`Trace::edges`] function, and `trace` is proved to report exactly those
//! edges — under-reporting, the classic silent bug of hand-written trace
//! implementations, is ruled out by the contract.

use vstd::prelude::*;

use crate::handles::GcPtr;

verus! {

/// The callback object passed to each [`Trace::trace`] invocation during the
/// mark phase. It records the addresses reported to it, in order; its view is
/// that sequence of addresses.
pub struct Tracer {
    reported: Vec<usize>,
}

impl View for Tracer {
    type V = Seq<usize>;

    closed spec fn view(&self) -> Seq<usize> {
        self.reported@
    }
}

impl Tracer {
    /// A tracer that has seen no edges yet; the collector makes one per
    /// traced object.
    pub fn new() -> (t: Tracer)
        ensures
            t@ == Seq::<usize>::empty(),
    {
        let t = Tracer { reported: Vec::new() };
        proof {
            assert(t@ =~= Seq::<usize>::empty());
        }
        t
    }

    /// Report one outgoing edge. Trace implementations call this once per
    /// owned edge pointer they hold.
    pub fn mark(&mut self, addr: usize)
        ensures
            final(self)@ == old(self)@.push(addr),
    {
        self.reported.push(addr);
    }

    /// Hand the recorded edges back to the collector.
    pub fn into_edges(self) -> (v: Vec<usize>)
        ensures
            v@ == self@,
    {
        self.reported
    }
}

/// The per-type tracing capability. `edges` is the specification: the
/// sequence of arena addresses this value refers to. `trace` must report
/// exactly those addresses to the tracer, in order; the contract makes the
/// totality requirement — never omit an edge — machine-checked for every
/// implementation.
pub trait Trace {
    /// The arena addresses of every object this value refers to.
    spec fn edges(&self) -> Seq<usize>;

    /// Report every outgoing owned edge pointer held by `self` to `tracer`.
    fn trace(&self, tracer: &mut Tracer)
        ensures
            final(tracer)@ == old(tracer)@ + self.edges(),
    ;
}

impl Trace for GcPtr {
    open spec fn edges(&self) -> Seq<usize> {
        seq![self.addr()]
    }

    fn trace(&self, tracer: &mut Tracer) {
        let ghost t0 = tracer@;
        tracer.mark(self.as_ptr());
        proof {
            assert(tracer@ =~= t0 + self.edges());
        }
    }
}

impl<T: Trace> Trace for Option<T> {
    open spec fn edges(&self) -> Seq<usize> {
        match self {
            Some(t) => t.edges(),
            None => Seq::empty(),
        }
    }

    fn trace(&self, tracer: &mut Tracer) {
        let ghost t0 = tracer@;
        match self {
            Some(t) => t.trace(tracer),
            None => {
                proof {
                    assert(tracer@ =~= t0 + self.edges());
                }
            }
        }
    }
}

impl Trace for i32 {
    open spec fn edges(&self) -> Seq<usize> {
        Seq::empty()
    }

    fn trace(&self, tracer: &mut Tracer) {
        proof {
            assert(tracer@ =~= tracer@ + self.edges());
        }
    }
}

impl Trace for i64 {
    open spec fn edges(&self) -> Seq<usize> {
        Seq::empty()
    }

    fn trace(&self, tracer: &mut Tracer) {
        proof {
            assert(tracer@ =~= tracer@ + self.edges());
        }
    }
}

} // verus!
