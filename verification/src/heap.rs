//! The heap, root registry and context token.
//!
//! [`Gc`] owns the arena table (per address: value, mark flag, pin count) and
//! the token state. All lifetime decisions are made here: allocation
//! registers an object, root handles pin addresses, and
//! [`Gc::collect`] reclaims everything unreachable from the pinned set.
//!
//! Access is serialized by an exclusive, non-reentrant context token,
//! [`GcContext`]: at most one is outstanding at a time, acquiring a second
//! one fails with [`GcContextError`], and every allocation or collection
//! goes through the token. Each token carries a fresh epoch; borrow handles
//! are stamped with it, and once the token ends — released, or consumed by a
//! collection — stale handles are rejected with [`GcStaleError`].

use vstd::prelude::*;

use crate::handles::{GcBor, GcRoot};
use crate::laws;
use crate::model::GcModel;
use crate::trace::{Trace, Tracer};

verus! {

/// How many entries of `s` are still `false`; the mark phase's termination
/// measure.
spec fn count_false(s: Seq<bool>) -> nat
    decreases s.len(),
{
    if s.len() == 0 {
        0
    } else {
        count_false(s.drop_last()) + (if s.last() {
            0nat
        } else {
            1nat
        })
    }
}

/// Setting one `false` entry to `true` lowers the count by one.
proof fn lemma_count_false_update(s: Seq<bool>, i: int)
    requires
        0 <= i < s.len(),
        !s[i],
    ensures
        count_false(s.update(i, true)) + 1 == count_false(s),
    decreases s.len(),
{
    let t = s.update(i, true);
    if i == s.len() - 1 {
        assert(t.drop_last() =~= s.drop_last());
    } else {
        assert(t.drop_last() =~= s.drop_last().update(i, true));
        assert(t.last() == s.last());
        lemma_count_false_update(s.drop_last(), i);
    }
}

/// The running state of a mark phase over the heap state `g0` from its start:
/// flags fit the arena, every marked address is live and reachable, every
/// root is marked, and the worklist holds only live, marked addresses.
spec fn mark_inv<T: Trace>(g0: GcModel<T>, marked: Seq<bool>, pending: Seq<usize>) -> bool {
    &&& marked.len() == g0.values.len()
    &&& forall|j: int| 0 <= j < marked.len() && #[trigger] marked[j] ==> g0.live(j) && g0.reachable(j)
    &&& forall|j: int| #[trigger] g0.rooted(j) ==> marked[j]
    &&& forall|k: int|
        0 <= k < pending.len() ==> g0.live(#[trigger] pending[k] as int) && marked[pending[k] as int]
}

/// The marks are closed under edges, except possibly out of addresses still
/// on the worklist and out of `skip` (the address being processed; pass a
/// negative value to except nothing).
spec fn mark_closure<T: Trace>(
    g0: GcModel<T>,
    marked: Seq<bool>,
    pending: Seq<usize>,
    skip: int,
) -> bool {
    forall|x: int, y: int|
        0 <= x < marked.len() && marked[x] && x != skip && !pending.contains(x as usize)
            && #[trigger] g0.has_edge(x, y) ==> marked[y]
}

/// The heap and root registry, with the token state.
pub struct Gc<T: Trace> {
    values: Vec<Option<T>>,
    marked: Vec<bool>,
    pins: Vec<u64>,
    active: bool,
    epoch: u64,
}

impl<T: Trace> View for Gc<T> {
    type V = GcModel<T>;

    closed spec fn view(&self) -> GcModel<T> {
        GcModel {
            values: self.values@,
            marked: self.marked@,
            pins: self.pins@,
            active: self.active,
            epoch: self.epoch,
        }
    }
}

impl<T: Trace> Default for Gc<T> {
    /// The same fresh, empty heap that [`Gc::new`] returns.
    fn default() -> (gc: Gc<T>)
        ensures
            gc@.wf(),
            gc@.values == Seq::<Option<T>>::empty(),
            gc@.pins == Seq::<u64>::empty(),
            !gc@.active,
            gc@.epoch == 0,
    {
        Gc::new()
    }
}

/// The exclusive ticket required to allocate or collect. At most one exists
/// per heap at a time; it is consumed by a collection, or given back through
/// [`Gc::release`].
pub struct GcContext {
    epoch: u64,
}

impl GcContext {
    /// The epoch this token was acquired under; borrow handles derived from
    /// it carry the same stamp.
    pub closed spec fn epoch(self) -> u64 {
        self.epoch
    }

    /// The raw epoch of this token.
    pub(crate) fn epoch_value(&self) -> (e: u64)
        ensures
            e == self.epoch(),
    {
        self.epoch
    }

    /// Consume this token and collect `gc`; the same operation as
    /// [`Gc::collect`], spelled from the token's side.
    pub fn collect<T: Trace>(self, gc: &mut Gc<T>)
        requires
            old(gc)@.wf(),
            old(gc)@.active,
            self.epoch() == old(gc)@.epoch,
        ensures
            old(gc)@.collect_post(final(gc)@),
    {
        gc.collect(self)
    }
}

/// The token-contention failure: a context token was requested while one is
/// already outstanding.
#[derive(Debug)]
pub struct GcContextError;

/// The stale-handle failure: a borrow handle was used after the context
/// token it was derived from ended, or its target is no longer live.
#[derive(Debug)]
pub struct GcStaleError;

/// Observability counts returned by [`Gc::stats`].
#[derive(Debug, Clone, Copy, PartialEq, Eq, Structural)]
pub struct GcStats {
    /// How many addresses hold a live object.
    pub objs: usize,
    /// How many addresses are pinned as roots.
    pub roots: usize,
}

impl<T: Trace> Gc<T> {
    /// A fresh, empty heap with no token outstanding.
    pub fn new() -> (gc: Gc<T>)
        ensures
            gc@.wf(),
            gc@.values == Seq::<Option<T>>::empty(),
            gc@.pins == Seq::<u64>::empty(),
            !gc@.active,
            gc@.epoch == 0,
    {
        let gc = Gc {
            values: Vec::new(),
            marked: Vec::new(),
            pins: Vec::new(),
            active: false,
            epoch: 0,
        };
        proof {
            assert(gc@.values =~= Seq::<Option<T>>::empty());
            assert(gc@.pins =~= Seq::<u64>::empty());
        }
        gc
    }

    /// Validity of a borrow handle against the current heap state: the
    /// handle's token is the active one and its target is live.
    pub open spec fn bor_ok(self, bor: GcBor) -> bool {
        &&& self@.active
        &&& bor.epoch() == self@.epoch
        &&& self@.live(bor.addr() as int)
    }

    /// Acquire the exclusive context token. Fails with the contention error
    /// if and only if a token is already outstanding; nothing else changes
    /// either way.
    pub fn try_context(&mut self) -> (r: Result<GcContext, GcContextError>)
        requires
            !old(self)@.active ==> old(self)@.epoch < u64::MAX,
        ensures
            final(self)@.values == old(self)@.values,
            final(self)@.marked == old(self)@.marked,
            final(self)@.pins == old(self)@.pins,
            r is Ok <==> !old(self)@.active,
            r is Err ==> *final(self) == *old(self),
            r is Ok ==> final(self)@.active && final(self)@.epoch == old(self)@.epoch + 1
                && r.unwrap().epoch() == final(self)@.epoch,
            old(self)@.wf() ==> final(self)@.wf(),
    {
        if self.active {
            Err(GcContextError)
        } else {
            self.epoch = self.epoch + 1;
            self.active = true;
            Ok(GcContext { epoch: self.epoch })
        }
    }

    /// Acquire the exclusive context token, on a heap known to have none
    /// outstanding.
    pub fn context(&mut self) -> (ctx: GcContext)
        requires
            !old(self)@.active,
            old(self)@.epoch < u64::MAX,
        ensures
            final(self)@.values == old(self)@.values,
            final(self)@.marked == old(self)@.marked,
            final(self)@.pins == old(self)@.pins,
            final(self)@.active,
            final(self)@.epoch == old(self)@.epoch + 1,
            ctx.epoch() == final(self)@.epoch,
            old(self)@.wf() ==> final(self)@.wf(),
    {
        self.epoch = self.epoch + 1;
        self.active = true;
        GcContext { epoch: self.epoch }
    }

    /// Give the token back without collecting: ends its exclusivity, so a
    /// new token can be acquired; borrow handles stamped with it go stale.
    pub fn release(&mut self, ctx: GcContext)
        ensures
            final(self)@.values == old(self)@.values,
            final(self)@.marked == old(self)@.marked,
            final(self)@.pins == old(self)@.pins,
            final(self)@.epoch == old(self)@.epoch,
            !final(self)@.active,
            old(self)@.wf() ==> final(self)@.wf(),
    {
        let _ = ctx;
        self.active = false;
    }

    /// Allocate `value` on the heap under the active token: the value is
    /// registered at a fresh address with a clear mark flag and no pins, and
    /// a borrow handle scoped to the token is returned.
    pub fn allocate(&mut self, ctx: &GcContext, value: T) -> (b: GcBor)
        requires
            old(self)@.wf(),
            old(self)@.active,
            ctx.epoch() == old(self)@.epoch,
        ensures
            final(self)@.wf(),
            final(self)@.values == old(self)@.values.push(Some(value)),
            final(self)@.marked == old(self)@.marked.push(false),
            final(self)@.pins == old(self)@.pins.push(0),
            final(self)@.active == old(self)@.active,
            final(self)@.epoch == old(self)@.epoch,
            b.addr() == old(self)@.values.len(),
            b.epoch() == ctx.epoch(),
            final(self).bor_ok(b),
    {
        let addr = self.values.len();
        self.values.push(Some(value));
        self.marked.push(false);
        self.pins.push(0);
        GcBor::new(addr, ctx)
    }

    /// Pin the object behind a (valid) borrow handle: its pin count rises by
    /// one and the returned root handle keeps it alive across collections
    /// until released.
    pub fn root(&mut self, bor: GcBor) -> (r: GcRoot)
        requires
            old(self)@.wf(),
            old(self).bor_ok(bor),
            old(self)@.pins[bor.addr() as int] < u64::MAX,
        ensures
            final(self)@.wf(),
            final(self)@.values == old(self)@.values,
            final(self)@.marked == old(self)@.marked,
            final(self)@.active == old(self)@.active,
            final(self)@.epoch == old(self)@.epoch,
            final(self)@.pins == old(self)@.pins.update(
                bor.addr() as int,
                (old(self)@.pins[bor.addr() as int] + 1) as u64,
            ),
            r.addr() == bor.addr(),
            final(self)@.rooted(bor.addr() as int),
    {
        let addr = bor.as_ptr();
        let count = self.pins[addr];
        self.pins.set(addr, count + 1);
        GcRoot::new(addr)
    }

    /// Release a root handle: the pin it held is given back. Other root
    /// handles for the same address keep their own pins, so the address
    /// stays pinned until the last of them is released.
    pub fn unroot(&mut self, root: GcRoot)
        ensures
            final(self)@.values == old(self)@.values,
            final(self)@.marked == old(self)@.marked,
            final(self)@.active == old(self)@.active,
            final(self)@.epoch == old(self)@.epoch,
            final(self)@.pins == (if 0 <= root.addr() < old(self)@.pins.len()
                && old(self)@.pins[root.addr() as int] > 0 {
                old(self)@.pins.update(
                    root.addr() as int,
                    (old(self)@.pins[root.addr() as int] - 1) as u64,
                )
            } else {
                old(self)@.pins
            }),
            old(self)@.wf() ==> final(self)@.wf(),
    {
        let addr = root.addr_value();
        if addr < self.pins.len() {
            let count = self.pins[addr];
            if count > 0 {
                self.pins.set(addr, count - 1);
            }
        }
        proof {
            if !(0 <= root.addr() < old(self)@.pins.len() && old(self)@.pins[root.addr() as int] > 0) {
                assert(self@.pins =~= old(self)@.pins);
            }
        }
    }

    /// Read the object behind a borrow handle. Succeeds if and only if the
    /// handle is still valid: its token is the active one and its target is
    /// live. A stale handle is rejected with the typed error.
    pub fn get<'a>(&'a self, bor: &GcBor) -> (r: Result<&'a T, GcStaleError>)
        ensures
            r is Ok <==> self.bor_ok(*bor),
            r is Ok ==> *r.unwrap() == self@.values[bor.addr() as int].unwrap(),
    {
        if !self.active || bor.epoch_value() != self.epoch {
            return Err(GcStaleError);
        }
        let addr = bor.as_ptr();
        if addr >= self.values.len() {
            return Err(GcStaleError);
        }
        match &self.values[addr] {
            Some(v) => Ok(v),
            None => Err(GcStaleError),
        }
    }

    /// Replace the object behind a borrow handle with `value`, the mutation
    /// path by which cyclic and self-referential structures are built after
    /// allocation. Succeeds if and only if the handle is valid; a stale
    /// handle is rejected with the typed error and the heap is unchanged.
    pub fn set_value(&mut self, bor: &GcBor, value: T) -> (r: Result<(), GcStaleError>)
        requires
            old(self)@.wf(),
        ensures
            final(self)@.wf(),
            r is Ok <==> old(self).bor_ok(*bor),
            r is Ok ==> final(self)@.values == old(self)@.values.update(
                bor.addr() as int,
                Some(value),
            ),
            r is Err ==> final(self)@.values == old(self)@.values,
            final(self)@.marked == old(self)@.marked,
            final(self)@.pins == old(self)@.pins,
            final(self)@.active == old(self)@.active,
            final(self)@.epoch == old(self)@.epoch,
    {
        if !self.active || bor.epoch_value() != self.epoch {
            return Err(GcStaleError);
        }
        let addr = bor.as_ptr();
        if addr >= self.values.len() {
            return Err(GcStaleError);
        }
        let was_live = self.values[addr].is_some();
        if !was_live {
            return Err(GcStaleError);
        }
        self.values.set(addr, Some(value));
        Ok(())
    }

    /// Observability counts: how many objects are live and how many
    /// addresses are pinned. No side effects.
    pub fn stats(&self) -> (s: GcStats)
        requires
            self@.wf(),
        ensures
            s.objs == self@.live_count(),
            s.roots == self@.root_count(),
    {
        let n = self.values.len();
        let mut objs: usize = 0;
        let mut roots: usize = 0;
        let mut i: usize = 0;
        while i < n
            invariant
                i <= n,
                n == self@.values.len(),
                n == self@.pins.len(),
                objs == self@.live_count_to(i as int),
                roots == self@.root_count_to(i as int),
                objs <= i,
                roots <= i,
            decreases n - i,
        {
            if self.values[i].is_some() {
                objs = objs + 1;
            }
            if self.pins[i] > 0 {
                roots = roots + 1;
            }
            i = i + 1;
        }
        GcStats { objs, roots }
    }

    /// Collect garbage. Consumes the active token: the heap is idle again
    /// afterwards and handles stamped with the token go stale. The mark
    /// phase walks the object graph from the pinned addresses, following
    /// each object's tracing capability and never revisiting a marked
    /// object, so cyclic graphs terminate; the sweep frees every unmarked
    /// object and clears the flags of the survivors.
    ///
    /// The contract is [`GcModel::collect_post`], reachability soundness:
    /// an address is live afterwards if and only if it was reachable from
    /// the root set before; survivors keep their values, pin counts are
    /// untouched (so every rooted object survives, still rooted), and all
    /// mark flags are clear again.
    pub fn collect(&mut self, ctx: GcContext)
        requires
            old(self)@.wf(),
            old(self)@.active,
            ctx.epoch() == old(self)@.epoch,
        ensures
            old(self)@.collect_post(final(self)@),
    {
        let _ = ctx;
        let ghost g0: GcModel<T> = self@;
        let n = self.values.len();

        // Seed: mark every pinned address and queue it for tracing.
        let mut pending: Vec<usize> = Vec::new();
        let mut i: usize = 0;
        while i < n
            invariant
                i <= n,
                n == g0.values.len(),
                self@.values == g0.values,
                self@.pins == g0.pins,
                self@.active == g0.active,
                self@.epoch == g0.epoch,
                self@.marked.len() == n,
                g0.wf(),
                forall|j: int| 0 <= j < n && #[trigger] self@.marked[j] ==> g0.rooted(j),
                forall|j: int| 0 <= j < i && #[trigger] g0.rooted(j) ==> self@.marked[j],
                forall|j: int|
                    0 <= j < n && #[trigger] self@.marked[j] ==> pending@.contains(j as usize),
                forall|k: int|
                    0 <= k < pending@.len() ==> g0.rooted(#[trigger] pending@[k] as int)
                        && self@.marked[pending@[k] as int],
            decreases n - i,
        {
            let ghost pend_b = pending@;
            let ghost mk_b = self@.marked;
            if self.pins[i] > 0 {
                self.marked.set(i, true);
                pending.push(i);
                proof {
                    assert(pending@[pending@.len() - 1] == i);
                    assert forall|j: int|
                        0 <= j < n && #[trigger] self@.marked[j] implies pending@.contains(
                        j as usize,
                    ) by {
                        if j == i as int {
                            assert(pending@[pending@.len() - 1] == j as usize);
                        } else {
                            assert(mk_b[j]);
                            let k = choose|k: int|
                                0 <= k < pend_b.len() && pend_b[k] == j as usize;
                            assert(pending@[k] == j as usize);
                        }
                    }
                }
            }
            i = i + 1;
        }

        proof {
            assert forall|j: int| 0 <= j < n && #[trigger] self@.marked[j] implies g0.live(j)
                && g0.reachable(j) by {
                laws::lemma_rooted_reachable(g0, j);
            }
            assert(mark_inv(g0, self@.marked, pending@));
            assert forall|x: int, y: int|
                0 <= x < self@.marked.len() && self@.marked[x] && x != -1 && !pending@.contains(
                    x as usize,
                ) && #[trigger] g0.has_edge(x, y) implies self@.marked[y] by {
                assert(pending@.contains(x as usize));
            }
            assert(mark_closure(g0, self@.marked, pending@, -1));
        }

        // Mark: depth-first reachability walk over the worklist. An already
        // marked target is not queued again, which is what makes cyclic
        // graphs terminate.
        while pending.len() > 0
            invariant
                n == g0.values.len(),
                self@.values == g0.values,
                self@.pins == g0.pins,
                self@.active == g0.active,
                self@.epoch == g0.epoch,
                self@.marked.len() == n,
                g0.wf(),
                mark_inv(g0, self@.marked, pending@),
                mark_closure(g0, self@.marked, pending@, -1),
            decreases count_false(self@.marked) * 2 + pending@.len(),
        {
            let ghost d0 = count_false(self@.marked) * 2 + pending@.len();
            let ghost pend0 = pending@;
            let a = pending.pop().unwrap();
            let ghost a_int = a as int;
            proof {
                assert(pend0[pend0.len() - 1] == a);
                assert(g0.live(a_int) && self@.marked[a_int]);
                assert forall|x: int, y: int|
                    0 <= x < self@.marked.len() && self@.marked[x] && x != a_int
                        && !pending@.contains(x as usize) && #[trigger] g0.has_edge(x, y)
                    implies self@.marked[y] by {
                    if pend0.contains(x as usize) {
                        let k = choose|k: int|
                            0 <= k < pend0.len() && pend0[k] == x as usize;
                        if k < pend0.len() - 1 {
                            assert(pending@[k] == x as usize);
                            assert(pending@.contains(x as usize));
                        } else {
                            assert(pend0[k] == a);
                        }
                    }
                }
                assert(mark_closure(g0, self@.marked, pending@, a_int));
            }

            // Ask the object for its outgoing edges.
            let mut tracer = Tracer::new();
            match &self.values[a] {
                Some(v) => {
                    v.trace(&mut tracer);
                }
                None => {
                    proof {
                        assert(false);
                    }
                }
            }
            let edges = tracer.into_edges();
            proof {
                assert(edges@ =~= g0.obj_edges(a_int));
            }

            let m = edges.len();
            let mut j: usize = 0;
            while j < m
                invariant
                    n == g0.values.len(),
                    self@.values == g0.values,
                    self@.pins == g0.pins,
                    self@.active == g0.active,
                    self@.epoch == g0.epoch,
                    self@.marked.len() == n,
                    g0.wf(),
                    j <= m,
                    m == edges@.len(),
                    edges@ == g0.obj_edges(a_int),
                    a_int == a as int,
                    g0.live(a_int),
                    self@.marked[a_int],
                    mark_inv(g0, self@.marked, pending@),
                    mark_closure(g0, self@.marked, pending@, a_int),
                    forall|k: int|
                        0 <= k < j && g0.live(#[trigger] edges@[k] as int) ==> self@.marked[edges@[k] as int],
                    count_false(self@.marked) * 2 + pending@.len() <= d0 - 1,
                decreases m - j,
            {
                let e = edges[j];
                if e < n && self.values[e].is_some() && !self.marked[e] {
                    let ghost mk = self@.marked;
                    let ghost pend_b = pending@;
                    self.marked.set(e, true);
                    pending.push(e);
                    proof {
                        lemma_count_false_update(mk, e as int);
                        assert(g0.obj_edges(a_int)[j as int] == e);
                        assert(g0.has_edge(a_int, e as int));
                        laws::lemma_reachable_step(g0, a_int, e as int);
                        assert(pending@[pending@.len() - 1] == e);
                        assert forall|x: usize| pend_b.contains(x) implies pending@.contains(
                            x,
                        ) by {
                            let k = choose|k: int| 0 <= k < pend_b.len() && pend_b[k] == x;
                            assert(pending@[k] == x);
                        }
                        assert forall|x: int, y: int|
                            0 <= x < self@.marked.len() && self@.marked[x] && x != a_int
                                && !pending@.contains(x as usize) && #[trigger] g0.has_edge(x, y)
                            implies self@.marked[y] by {
                            assert(x != e as int);
                            assert(mk[x]);
                            assert(!pend_b.contains(x as usize));
                        }
                    }
                }
                j = j + 1;
            }

            proof {
                assert forall|x: int, y: int|
                    0 <= x < self@.marked.len() && self@.marked[x] && x != -1
                        && !pending@.contains(x as usize) && #[trigger] g0.has_edge(x, y)
                    implies self@.marked[y] by {
                    if x == a_int {
                        let k = choose|k: int|
                            0 <= k < g0.obj_edges(a_int).len() && g0.obj_edges(a_int)[k] as int
                                == y;
                        assert(edges@[k] as int == y);
                        assert(g0.live(y));
                        assert(self@.marked[edges@[k] as int]);
                    }
                }
                assert(mark_closure(g0, self@.marked, pending@, -1));
            }
        }

        // Between the phases: the mark flags now hold exactly the reachable
        // addresses.
        let ghost m1 = self@.marked;
        proof {
            assert forall|x: int, y: int|
                0 <= x < m1.len() && m1[x] && #[trigger] g0.has_edge(x, y) implies m1[y] by {
                assert(!pending@.contains(x as usize));
            }
            assert forall|jj: int| 0 <= jj < n && #[trigger] g0.reachable(jj) implies m1[jj] by {
                laws::lemma_marks_cover_reachable(g0, m1, jj);
            }
        }

        // Sweep: free every unmarked object, clear the flags of the rest.
        i = 0;
        while i < n
            invariant
                i <= n,
                n == g0.values.len(),
                self@.values.len() == n,
                self@.marked.len() == n,
                self@.pins == g0.pins,
                self@.active == g0.active,
                self@.epoch == g0.epoch,
                g0.wf(),
                m1.len() == n,
                forall|j: int| 0 <= j < n && #[trigger] m1[j] ==> g0.live(j) && g0.reachable(j),
                forall|j: int| 0 <= j < n && #[trigger] g0.reachable(j) ==> m1[j],
                forall|j: int| #[trigger] g0.rooted(j) ==> m1[j],
                forall|j: int| i <= j < n ==> #[trigger] self@.marked[j] == m1[j],
                forall|j: int| i <= j < n ==> #[trigger] self@.values[j] == g0.values[j],
                forall|j: int| 0 <= j < i ==> !(#[trigger] self@.marked[j]),
                forall|j: int|
                    0 <= j < i ==> self@.values[j] == (if m1[j] {
                        g0.values[j]
                    } else {
                        None::<T>
                    }),
            decreases n - i,
        {
            if self.marked[i] {
                self.marked.set(i, false);
            } else {
                self.values.set(i, None);
            }
            i = i + 1;
        }
        self.active = false;

        proof {
            assert forall|idx: int| 0 <= idx < n implies (self@.live(idx) <==> g0.reachable(
                idx,
            )) by {
                if m1[idx] {
                    assert(g0.live(idx));
                    assert(self@.values[idx] == g0.values[idx]);
                } else {
                    assert(self@.values[idx] is None);
                }
            }
            assert forall|idx: int| #[trigger] g0.rooted(idx) implies self@.rooted(idx)
                && self@.values[idx] == g0.values[idx] by {
                assert(m1[idx]);
                assert(g0.live(idx));
            }
            assert forall|idx: int|
                0 <= idx < self@.values.len() && self@.pins[idx] > 0 implies self@.values[idx]
                is Some by {
                assert(g0.rooted(idx));
                assert(m1[idx]);
            }
            assert(self@.wf());
        }
    }
}

} // verus!
