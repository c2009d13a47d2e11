//! An embeddable tracing garbage collector.
//!
//! The heap is an arena of user-defined objects reclaimed by mark-and-sweep.
//! Objects are identified by their arena address; one object refers to
//! another through an owned edge pointer ([`handles::GcPtr`]). Allocation and
//! collection are gated by an exclusive context token ([`heap::GcContext`]),
//! of which at most one is outstanding at a time. Transient borrow handles
//! ([`handles::GcBor`]) are stamped with the token's epoch and rejected once
//! that token has ended; root handles ([`handles::GcRoot`]) pin an address
//! against collection independently of any token.
//!
//! The collector proves its central property: after a collection, exactly the
//! objects transitively reachable from the root set remain live, each with
//! its value unchanged and its mark flag cleared.

pub mod handles;
pub mod heap;
pub mod laws;
pub mod model;
pub mod node;
pub mod trace;

pub use handles::{GcBor, GcPtr, GcRoot};
pub use heap::{Gc, GcContext, GcContextError, GcStaleError, GcStats};
pub use node::SelfRef;
pub use trace::{Trace, Tracer};
