use genref::{Gr, GrArena, Weak, BLOCK_SIZE};

#[test]
fn it_works() {
    let mut arena = GrArena::new();
    let r1;
    let r2;
    {
        let s = arena.allocate(String::from("Hello World"));
        // Weak references work as long as the single owner exists
        r1 = s.weak(&arena);
        assert_eq!(r1.get(&arena), Some(&String::from("Hello World")));
        r2 = s.weak(&arena);
        assert_eq!(r2.get(&arena), Some(&String::from("Hello World")));
        s.destroy(&mut arena);
    }

    // Once the single owner vanished, the weak references no longer function
    let s = r1.get(&arena);
    assert_eq!(s, None);
    let s = r2.get(&arena);
    assert_eq!(s, None);
}

#[test]
fn many() {
    // Test that we can allocate and use many things
    let mut arena = GrArena::new();
    let mut allocs: Vec<Gr> = Vec::new();

    for _ in 0..3 {
        for _ in 0..1500 {
            allocs.push(arena.allocate(String::from("Hello World")));
        }

        for i in allocs.iter() {
            i.weak(&arena).get(&arena).expect("String should be available");
        }

        let wr;
        {
            let r = allocs.pop().unwrap();
            wr = r.weak(&arena);
            r.destroy(&mut arena);
        }
        // Destroying the owning ref should invalidate the weak ref
        assert_eq!(wr.get(&arena), None);
        let new_s = arena.allocate(String::from("test"));

        assert_eq!(wr.get(&arena), None);
        let wr2 = new_s.weak(&arena);
        let s = wr2.get(&arena);
        assert_eq!(s, Some(&String::from("test")));

        // Store all weak refs, destroy all owning refs, and test that none can be retrieved
        let mut weak_refs: Vec<Weak> = Vec::new();

        for or in allocs.iter() {
            weak_refs.push(or.weak(&arena));
        }

        for or in allocs.drain(..) {
            or.destroy(&mut arena);
        }

        for wr in weak_refs.iter() {
            assert_eq!(wr.get(&arena), None);
        }
        new_s.destroy(&mut arena);
    }
}

#[test]
fn two_weak_handles_die_with_owner() {
    let mut arena = GrArena::new();
    let s = arena.allocate(String::from("Hello World"));
    let a = s.weak(&arena);
    let b = s.weak(&arena);
    s.destroy(&mut arena);
    assert_eq!(a.get(&arena), None);
    assert_eq!(b.get(&arena), None);
}

#[test]
fn reused_slot_does_not_revive_old_weak() {
    let mut arena = GrArena::new();
    let a = arena.allocate(1u32);
    let wa = a.weak(&arena);
    a.destroy(&mut arena);
    let b = arena.allocate(2u32);
    let wb = b.weak(&arena);
    assert_eq!(wa.get(&arena), None);
    assert_eq!(wb.get(&arena), Some(&2));
    assert_eq!(*b.value(&arena), 2);
}

#[test]
fn stale_after_later_allocations_and_destructions() {
    let mut arena = GrArena::new();
    let a = arena.allocate(10u64);
    let wa = a.weak(&arena);
    a.destroy(&mut arena);
    for k in 0..100u64 {
        let h = arena.allocate(k);
        assert_eq!(wa.get(&arena), None);
        h.destroy(&mut arena);
        assert_eq!(wa.get(&arena), None);
    }
}

#[test]
fn owner_survives_other_operations() {
    let mut arena = GrArena::new();
    let keep = arena.allocate(String::from("keep"));
    let wk = keep.weak(&arena);
    for _ in 0..20 {
        let other = arena.allocate(String::from("other"));
        assert_eq!(wk.get(&arena), Some(&String::from("keep")));
        other.destroy(&mut arena);
        assert_eq!(wk.get(&arena), Some(&String::from("keep")));
    }
    assert_eq!(keep.value(&arena), &String::from("keep"));
}

#[test]
fn clones_agree_before_and_after_destruction() {
    let mut arena = GrArena::new();
    let s = arena.allocate(5i32);
    let w = s.weak(&arena);
    let before = w.clone();
    assert_eq!(before.get(&arena), Some(&5));
    assert_eq!(w.get(&arena), Some(&5));
    s.destroy(&mut arena);
    let after = w.clone();
    assert_eq!(w.get(&arena), None);
    assert_eq!(before.get(&arena), None);
    assert_eq!(after.get(&arena), None);
}

#[test]
fn growth_beyond_one_block() {
    let mut arena = GrArena::new();
    let n: usize = 10_000;
    assert!(n > BLOCK_SIZE);
    let mut owners: Vec<Gr> = Vec::new();
    for i in 0..n {
        owners.push(arena.allocate(i));
    }
    let weaks: Vec<Weak> = owners.iter().map(|h| h.weak(&arena)).collect();
    for (i, w) in weaks.iter().enumerate() {
        assert_eq!(w.get(&arena), Some(&i));
    }
    let mut kept: Vec<Gr> = Vec::new();
    for (i, h) in owners.into_iter().enumerate() {
        if i % 2 == 0 {
            h.destroy(&mut arena);
        } else {
            kept.push(h);
        }
    }
    for (i, w) in weaks.iter().enumerate() {
        if i % 2 == 0 {
            assert_eq!(w.get(&arena), None);
        } else {
            assert_eq!(w.get(&arena), Some(&i));
        }
    }
    let fresh = arena.allocate(77usize);
    assert_eq!(fresh.weak(&arena).get(&arena), Some(&77));
    for (i, w) in weaks.iter().enumerate() {
        if i % 2 == 0 {
            assert_eq!(w.get(&arena), None);
        }
    }
}
