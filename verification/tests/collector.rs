//! Collection behaviour: reachability, cycles, self-reference, reclamation.

use gc::{Gc, GcPtr, SelfRef};

/// The worked example: allocate two nodes, link them into a cycle through
/// the mutation path, root one, collect twice, then drop the root and watch
/// everything go.
#[test]
fn example_scenario() {
    let mut gc: Gc<SelfRef> = Gc::new();
    let s = gc.stats();
    assert_eq!(s.objs, 0);
    assert_eq!(s.roots, 0);

    let ctx = gc.try_context().unwrap();
    let a = SelfRef::new(&mut gc, &ctx, 1, None);
    let b = SelfRef::new(&mut gc, &ctx, 2, Some(a));

    // Rewrite a: new payload, and an edge back to b, closing the cycle.
    gc.set_value(
        &a,
        SelfRef {
            x: 5,
            other: Some(GcPtr::from_bor(b)),
        },
    )
    .unwrap();

    let a_root = gc.root(a);
    let s = gc.stats();
    assert_eq!(s.objs, 2);
    assert_eq!(s.roots, 1);

    gc.collect(ctx);
    let s = gc.stats();
    assert_eq!(s.objs, 2);
    assert_eq!(s.roots, 1);

    let ctx2 = gc.try_context().unwrap();
    let a2 = a_root.borrow(&ctx2);
    let (ax, a_edge) = {
        let av = gc.get(&a2).unwrap();
        (av.x, av.other)
    };
    assert_eq!(ax, 5);
    let b2 = a_edge.unwrap().borrow(&ctx2);
    assert_eq!(gc.get(&b2).unwrap().x, 2);

    gc.unroot(a_root);
    gc.collect(ctx2);
    let s = gc.stats();
    assert_eq!(s.objs, 0);
    assert_eq!(s.roots, 0);
}

/// Reachability soundness: everything reachable from the root survives,
/// everything else is freed.
#[test]
fn reachable_chain_survives_stray_is_freed() {
    let mut gc: Gc<SelfRef> = Gc::new();
    let ctx = gc.try_context().unwrap();
    let tail = SelfRef::new(&mut gc, &ctx, 30, None);
    let head = SelfRef::new(&mut gc, &ctx, 10, Some(tail));
    let _stray = SelfRef::new(&mut gc, &ctx, 99, None);
    let root = gc.root(head);
    assert_eq!(gc.stats().objs, 3);

    gc.collect(ctx);
    assert_eq!(gc.stats().objs, 2);

    let ctx2 = gc.try_context().unwrap();
    let h = root.borrow(&ctx2);
    let (hx, h_edge) = {
        let hv = gc.get(&h).unwrap();
        (hv.x, hv.other)
    };
    assert_eq!(hx, 10);
    let t = h_edge.unwrap().borrow(&ctx2);
    assert_eq!(gc.get(&t).unwrap().x, 30);
}

/// Cycle safety: a two-object mutual-reference graph with only one of them
/// rooted — the mark phase terminates and both survive.
#[test]
fn mutual_cycle_one_root() {
    let mut gc: Gc<SelfRef> = Gc::new();
    let ctx = gc.try_context().unwrap();
    let a = SelfRef::new(&mut gc, &ctx, 1, None);
    let b = SelfRef::new(&mut gc, &ctx, 2, Some(a));
    gc.set_value(
        &a,
        SelfRef {
            x: 1,
            other: Some(GcPtr::from_bor(b)),
        },
    )
    .unwrap();
    let root = gc.root(a);

    gc.collect(ctx);
    assert_eq!(gc.stats().objs, 2);

    // Walk the cycle: a -> b -> a.
    let ctx2 = gc.try_context().unwrap();
    let a2 = root.borrow(&ctx2);
    let a_edge = gc.get(&a2).unwrap().other;
    let b2 = a_edge.unwrap().borrow(&ctx2);
    let (bx, b_edge) = {
        let bv = gc.get(&b2).unwrap();
        (bv.x, bv.other)
    };
    assert_eq!(bx, 2);
    let back = b_edge.unwrap().borrow(&ctx2);
    assert_eq!(gc.get(&back).unwrap().x, 1);
}

/// Self-reference: a rooted object referring to itself survives, and the
/// mark phase terminates.
#[test]
fn self_reference_survives() {
    let mut gc: Gc<SelfRef> = Gc::new();
    let ctx = gc.try_context().unwrap();
    let a = SelfRef::new(&mut gc, &ctx, 41, None);
    gc.set_value(
        &a,
        SelfRef {
            x: 42,
            other: Some(GcPtr::from_bor(a)),
        },
    )
    .unwrap();
    let root = gc.root(a);

    gc.collect(ctx);
    assert_eq!(gc.stats().objs, 1);

    let ctx2 = gc.try_context().unwrap();
    let a2 = root.borrow(&ctx2);
    let (ax, a_edge) = {
        let av = gc.get(&a2).unwrap();
        (av.x, av.other)
    };
    assert_eq!(ax, 42);
    // The self-edge leads back to the same object.
    let again = a_edge.unwrap().borrow(&ctx2);
    assert_eq!(gc.get(&again).unwrap().x, 42);
}

/// Unreached reclamation: an object never rooted and never referenced by a
/// surviving object is freed by the next collection.
#[test]
fn unrooted_object_is_freed() {
    let mut gc: Gc<SelfRef> = Gc::new();
    let ctx = gc.try_context().unwrap();
    let a = SelfRef::new(&mut gc, &ctx, 7, None);
    assert_eq!(gc.stats().objs, 1);

    gc.collect(ctx);
    assert_eq!(gc.stats().objs, 0);

    // The old handle is stale now, and its target gone.
    let _ctx2 = gc.try_context().unwrap();
    assert!(gc.get(&a).is_err());
}

/// Idempotent sweep bookkeeping: collecting again right away keeps exactly
/// the same survivors, and a third collection after unrooting frees them.
#[test]
fn repeated_collections() {
    let mut gc: Gc<SelfRef> = Gc::new();
    let ctx = gc.try_context().unwrap();
    let b = SelfRef::new(&mut gc, &ctx, 2, None);
    let a = SelfRef::new(&mut gc, &ctx, 1, Some(b));
    let root = gc.root(a);

    gc.collect(ctx);
    assert_eq!(gc.stats().objs, 2);

    // The token-side spelling of the same operation.
    let ctx2 = gc.try_context().unwrap();
    ctx2.collect(&mut gc);
    assert_eq!(gc.stats().objs, 2);

    let ctx3 = gc.try_context().unwrap();
    let a3 = root.borrow(&ctx3);
    assert_eq!(gc.get(&a3).unwrap().x, 1);
    gc.unroot(root);
    gc.collect(ctx3);
    assert_eq!(gc.stats().objs, 0);
}

/// An empty heap collects without trouble.
#[test]
fn collect_empty_heap() {
    let mut gc: Gc<SelfRef> = Gc::new();
    let ctx = gc.try_context().unwrap();
    gc.collect(ctx);
    let s = gc.stats();
    assert_eq!(s.objs, 0);
    assert_eq!(s.roots, 0);
}
