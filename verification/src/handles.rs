//! The three spellings of "reference to a heap object".
//!
//! - [`GcPtr`] is the owned edge pointer: the only form in which one heap
//!   object may refer to another from inside its own storage. It carries no
//!   scope information and must be stored inside an object allocated through
//!   the same heap; a pointer left dangling by misuse is never dereferenced
//!   blindly — every read goes through the heap, which rejects dead
//!   addresses.
//! - [`GcBor`] is the transient borrow handle: a copyable accessor stamped
//!   with the epoch of the context token it was derived from. The heap
//!   rejects a handle whose epoch is no longer the active one, so a handle
//!   that outlives its token fails with a typed error instead of reading
//!   freed storage.
//! - [`GcRoot`] is the long-lived root handle: it pins an address against
//!   collection until it is released, independent of any context token, and
//!   can be re-borrowed under any later token.

use vstd::prelude::*;

use crate::heap::GcContext;

verus! {

/// An owned edge pointer: how a heap object refers to another heap object
/// from inside its own storage.
#[derive(Clone, Copy)]
pub struct GcPtr {
    addr: usize,
}

impl GcPtr {
    /// The arena address this edge points to.
    pub closed spec fn addr(self) -> usize {
        self.addr
    }

    /// Turn a borrow handle into an owned edge pointer, for storing inside
    /// another heap object. A pointer that is not stored inside a live
    /// object keeps no object alive: once its target is collected, every
    /// read through it is rejected.
    pub fn from_bor(bor: GcBor) -> (p: GcPtr)
        ensures
            p.addr() == bor.addr(),
    {
        GcPtr { addr: bor.as_ptr() }
    }

    /// The raw arena address.
    pub fn as_ptr(self) -> (a: usize)
        ensures
            a == self.addr(),
    {
        self.addr
    }

    /// Derive a fresh borrow handle for this edge's target under the given
    /// context token, for navigating from one object to its neighbour.
    pub fn borrow(&self, ctx: &GcContext) -> (b: GcBor)
        ensures
            b.addr() == self.addr(),
            b.epoch() == ctx.epoch(),
    {
        GcBor::new(self.addr, ctx)
    }
}

/// A transient borrow handle: a copyable accessor to a heap object, valid
/// only while the context token it was derived from is the active one.
#[derive(Clone, Copy)]
pub struct GcBor {
    addr: usize,
    epoch: u64,
}

impl GcBor {
    /// The arena address this handle accesses.
    pub closed spec fn addr(self) -> usize {
        self.addr
    }

    /// The epoch of the context token this handle was derived from.
    pub closed spec fn epoch(self) -> u64 {
        self.epoch
    }

    /// A handle for `addr`, stamped with the epoch of `ctx`.
    pub(crate) fn new(addr: usize, ctx: &GcContext) -> (b: GcBor)
        ensures
            b.addr() == addr,
            b.epoch() == ctx.epoch(),
    {
        GcBor { addr, epoch: ctx.epoch_value() }
    }

    /// The raw arena address.
    pub fn as_ptr(self) -> (a: usize)
        ensures
            a == self.addr(),
    {
        self.addr
    }

    /// The raw epoch stamp.
    pub(crate) fn epoch_value(self) -> (e: u64)
        ensures
            e == self.epoch(),
    {
        self.epoch
    }
}

/// A long-lived root handle: while it exists, the address it wraps is pinned
/// and survives every collection. Releasing it through
/// [`crate::heap::Gc::unroot`] unpins the address again. Each root handle
/// holds one pin: two handles for the same address pin it twice, and
/// releasing one leaves the other effective.
pub struct GcRoot {
    addr: usize,
}

impl GcRoot {
    /// The pinned arena address.
    pub closed spec fn addr(self) -> usize {
        self.addr
    }

    /// A root handle for `addr`.
    pub(crate) fn new(addr: usize) -> (r: GcRoot)
        ensures
            r.addr() == addr,
    {
        GcRoot { addr }
    }

    /// Derive a fresh borrow handle for the pinned object under the given
    /// context token; valid under any token acquired while the root is held.
    pub fn borrow(&self, ctx: &GcContext) -> (b: GcBor)
        ensures
            b.addr() == self.addr(),
            b.epoch() == ctx.epoch(),
    {
        GcBor::new(self.addr, ctx)
    }

    /// The raw pinned address.
    pub(crate) fn addr_value(&self) -> (a: usize)
        ensures
            a == self.addr(),
    {
        self.addr
    }
}

} // verus!
