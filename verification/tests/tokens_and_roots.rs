//! Context-token discipline, stale handles, and root-handle bookkeeping.

use gc::{Gc, SelfRef};

/// Token exclusivity: acquiring a second token while one is active fails
/// with the contention error; after release or collection, acquisition
/// succeeds again.
#[test]
fn token_exclusivity() {
    let mut gc: Gc<SelfRef> = Gc::new();
    let ctx = gc.try_context().unwrap();
    assert!(gc.try_context().is_err());
    gc.release(ctx);

    let ctx = gc.try_context().unwrap();
    assert!(gc.try_context().is_err());
    gc.collect(ctx);
    assert!(gc.try_context().is_ok());
}

/// A borrow handle goes stale when its token is released: reads and writes
/// are rejected, and a handle from an ended token stays stale under a newer
/// token.
#[test]
fn stale_handle_rejected() {
    let mut gc: Gc<SelfRef> = Gc::new();
    let ctx = gc.try_context().unwrap();
    let a = SelfRef::new(&mut gc, &ctx, 3, None);
    assert!(gc.get(&a).is_ok());

    gc.release(ctx);
    assert!(gc.get(&a).is_err());
    assert!(gc.set_value(&a, SelfRef { x: 0, other: None }).is_err());

    let _ctx2 = gc.try_context().unwrap();
    // Still stale: the epoch moved on.
    assert!(gc.get(&a).is_err());
}

/// Root independence from token lifetime: a root handle created under one
/// token is re-borrowable under a later token, across an intervening
/// collection.
#[test]
fn root_outlives_token() {
    let mut gc: Gc<SelfRef> = Gc::new();
    let ctx = gc.try_context().unwrap();
    let a = SelfRef::new(&mut gc, &ctx, 11, None);
    let root = gc.root(a);
    gc.collect(ctx);

    let ctx2 = gc.try_context().unwrap();
    let a2 = root.borrow(&ctx2);
    assert_eq!(gc.get(&a2).unwrap().x, 11);
}

/// Two root handles pinning the same address hold one pin each: releasing
/// either leaves the object pinned until the other is released too.
#[test]
fn double_pin_released_one_at_a_time() {
    let mut gc: Gc<SelfRef> = Gc::new();
    let ctx = gc.try_context().unwrap();
    let a = SelfRef::new(&mut gc, &ctx, 8, None);
    let r1 = gc.root(a);
    let r2 = gc.root(a);
    assert_eq!(gc.stats().roots, 1);

    gc.unroot(r1);
    assert_eq!(gc.stats().roots, 1);
    gc.collect(ctx);
    assert_eq!(gc.stats().objs, 1);

    let ctx2 = gc.try_context().unwrap();
    let a2 = r2.borrow(&ctx2);
    assert_eq!(gc.get(&a2).unwrap().x, 8);

    gc.unroot(r2);
    assert_eq!(gc.stats().roots, 0);
    gc.collect(ctx2);
    assert_eq!(gc.stats().objs, 0);
}

/// Exact observability counts on a small mixed heap.
#[test]
fn stats_counts() {
    let mut gc: Gc<SelfRef> = Gc::new();
    assert_eq!(gc.stats().objs, 0);
    assert_eq!(gc.stats().roots, 0);

    let ctx = gc.try_context().unwrap();
    let a = SelfRef::new(&mut gc, &ctx, 1, None);
    let b = SelfRef::new(&mut gc, &ctx, 2, Some(a));
    let _c = SelfRef::new(&mut gc, &ctx, 3, None);
    let _ra = gc.root(a);
    let _rb = gc.root(b);
    let s = gc.stats();
    assert_eq!(s.objs, 3);
    assert_eq!(s.roots, 2);
    gc.release(ctx);
}

/// Allocation hands out a handle that reads back the stored value at once.
#[test]
fn allocate_then_read() {
    let mut gc: Gc<SelfRef> = Gc::new();
    let ctx = gc.try_context().unwrap();
    let a = gc.allocate(&ctx, SelfRef { x: 123, other: None });
    let av = gc.get(&a).unwrap();
    assert_eq!(av.x, 123);
    assert!(av.other.is_none());
}

/// `context` hands out the token directly on an idle heap, and the heap is
/// usable again after each release.
#[test]
fn context_acquires_when_idle() {
    let mut gc: Gc<SelfRef> = Gc::default();
    let ctx = gc.context();
    let a = gc.allocate(&ctx, SelfRef { x: 5, other: None });
    assert_eq!(gc.get(&a).unwrap().x, 5);
    gc.release(ctx);
    let ctx2 = gc.context();
    gc.release(ctx2);
}

/// The mutation path replaces the value behind a valid handle.
#[test]
fn set_value_replaces() {
    let mut gc: Gc<SelfRef> = Gc::new();
    let ctx = gc.try_context().unwrap();
    let a = SelfRef::new(&mut gc, &ctx, 1, None);
    gc.set_value(&a, SelfRef { x: 2, other: None }).unwrap();
    assert_eq!(gc.get(&a).unwrap().x, 2);
}
