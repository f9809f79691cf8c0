//! The arena, its owning handles (`Gr`) and its checked, non-owning handles
//! (`Weak`).
use vstd::prelude::*;

use crate::slot_table::{SlotTable, SlotsModel, BLOCK_SIZE};

verus! {

/// Abstract state of an arena: the slot table, and for each slot the value
/// that currently lives there, if any.
pub struct ArenaModel<T> {
    pub slots: SlotsModel,
    pub vals: Seq<Option<T>>,
}

impl<T> ArenaModel<T> {
    /// Bookkeeping of slot `i`: an occupied slot is off the free list and its
    /// counter can still advance; an empty slot is on the free list exactly
    /// when it has not been retired.
    pub open spec fn slot_ok(self, i: int) -> bool {
        if self.vals[i] is Some {
            &&& !self.slots.free.contains(i as usize)
            &&& self.slots.gens[i] < u64::MAX
        } else {
            self.slots.free.contains(i as usize) <==> self.slots.gens[i] < u64::MAX
        }
    }

    pub open spec fn wf(self) -> bool {
        &&& self.slots.wf()
        &&& self.vals.len() == self.slots.gens.len()
        &&& forall|i: int| 0 <= i < self.vals.len() ==> #[trigger] self.slot_ok(i)
    }

    /// Whether an allocation can proceed: either a slot is free, or one more
    /// block of slots can still be indexed by `usize`.
    pub open spec fn can_alloc(self) -> bool {
        self.slots.free.len() == 0 ==> self.slots.can_grow()
    }

    /// Allocating `v`: the arena after the call, and the slot that `v` went to.
    pub open spec fn after_alloc(self, v: T) -> (ArenaModel<T>, usize) {
        let (slots, idx) = self.slots.acquire();
        let vals = if self.slots.free.len() == 0 {
            self.vals + Seq::new(BLOCK_SIZE as nat, |j: int| None)
        } else {
            self.vals
        };
        (ArenaModel { slots, vals: vals.update(idx as int, Some(v)) }, idx)
    }

    /// Destroying the occupant of slot `idx`: the value goes away and the
    /// slot's counter advances.
    pub open spec fn after_destroy(self, idx: usize) -> ArenaModel<T> {
        ArenaModel { slots: self.slots.release(idx), vals: self.vals.update(idx as int, None) }
    }

    /// `h` is the live owner of its slot in this arena.
    pub open spec fn holds(self, h: Gr) -> bool {
        &&& h.slot() < self.vals.len()
        &&& self.vals[h.slot() as int] is Some
        &&& self.slots.gens[h.slot() as int] == h.generation()
    }

    /// The value that `w` reaches: the occupant of its slot when the slot's
    /// counter still equals the generation that `w` captured, else nothing.
    pub open spec fn resolve(self, w: Weak) -> Option<T> {
        if w.slot() < self.vals.len() && self.slots.gens[w.slot() as int] == w.generation() {
            self.vals[w.slot() as int]
        } else {
            None
        }
    }
}

/// Arena of values of type `T`, each owned by exactly one `Gr`.
pub struct GrArena<T> {
    table: SlotTable,
    vals: Vec<Option<T>>,
}

/// Owning handle to a value in a `GrArena`. It cannot be copied; `destroy`
/// consumes it, frees the value and invalidates every `Weak` derived from it.
/// A `Gr` that is dropped without `destroy` keeps its slot occupied.
pub struct Gr {
    gen_idx: usize,
    gen: u64,
}

/// Non-owning handle: a slot index and the generation that the slot had when
/// the handle was derived. It reaches the value only while the two agree.
#[derive(Clone, Copy, Debug)]
pub struct Weak {
    gen_idx: usize,
    alloc_gen: u64,
}

impl Gr {
    pub closed spec fn slot(self) -> usize {
        self.gen_idx
    }

    pub closed spec fn generation(self) -> u64 {
        self.gen
    }
}

impl Weak {
    pub closed spec fn slot(self) -> usize {
        self.gen_idx
    }

    pub closed spec fn generation(self) -> u64 {
        self.alloc_gen
    }

    /// `self` was derived from `h`: same slot, same generation.
    pub open spec fn derived_from(self, h: Gr) -> bool {
        self.slot() == h.slot() && self.generation() == h.generation()
    }
}

impl<T> View for GrArena<T> {
    type V = ArenaModel<T>;

    closed spec fn view(&self) -> ArenaModel<T> {
        ArenaModel { slots: self.table@, vals: self.vals@ }
    }
}

impl<T> GrArena<T> {
    pub closed spec fn wf(&self) -> bool {
        &&& self.table.wf()
        &&& self@.wf()
    }

    /// An empty arena.
    pub fn new() -> (a: GrArena<T>)
        ensures
            a.wf(),
            a@.slots.gens.len() == 0,
            a@.slots.free.len() == 0,
            a@.vals.len() == 0,
    {
        GrArena { table: SlotTable::new(), vals: Vec::new() }
    }

    /// Moves `v` into the arena and returns its owning handle. The slot is
    /// popped from the free list, after appending a block of fresh slots when
    /// the list is empty.
    pub fn allocate(&mut self, v: T) -> (h: Gr)
        requires
            old(self).wf(),
            old(self)@.can_alloc(),
        ensures
            final(self).wf(),
            (final(self)@, h.slot()) == old(self)@.after_alloc(v),
            final(self)@.holds(h),
    {
        let ghost start = self@;
        let idx = self.table.acquire_slot();
        let n = self.table.len();
        let ghost acquired = self.table@;
        while self.vals.len() < n
            invariant
                self.table.wf(),
                self.table@ == acquired,
                n == acquired.gens.len(),
                start.vals.len() <= self.vals.len() <= n,
                self.vals@ == start.vals + Seq::new((self.vals.len() - start.vals.len()) as nat, |j: int| None::<T>),
            decreases n - self.vals.len(),
        {
            self.vals.push(None);
            proof {
                assert(self.vals@ =~= start.vals + Seq::new((self.vals.len() - start.vals.len()) as nat, |j: int| None::<T>));
            }
        }
        self.vals[idx] = Some(v);
        let gen = self.table.counter(idx);
        let h = Gr { gen_idx: idx, gen };
        proof {
            assert(self.vals@ =~= start.after_alloc(v).0.vals);
            let now = self@;
            assert forall|i: int| 0 <= i < now.vals.len() implies #[trigger] now.slot_ok(i) by {
                if i != idx {
                    assert(now.slots.free.contains(i as usize) <==> (start.slots.free.contains(i as usize)
                        || (start.slots.free.len() == 0 && start.slots.gens.len() <= i)));
                    if i < start.vals.len() {
                        assert(start.slot_ok(i));
                    }
                }
            }
        }
        h
    }
}

impl Gr {
    /// Derives a weak handle that captures the slot's current generation.
    pub fn weak<T>(&self, arena: &GrArena<T>) -> (w: Weak)
        requires
            arena.wf(),
            arena@.holds(*self),
        ensures
            w.slot() == self.slot(),
            w.generation() == arena@.slots.gens[self.slot() as int],
            w.derived_from(*self),
    {
        let gen = arena.table.counter(self.gen_idx);
        Weak { gen_idx: self.gen_idx, alloc_gen: gen }
    }

    /// The owned value; no check is needed while the handle is alive.
    pub fn value<'a, T>(&self, arena: &'a GrArena<T>) -> (r: &'a T)
        requires
            arena.wf(),
            arena@.holds(*self),
        ensures
            arena@.vals[self.slot() as int] == Some(*r),
    {
        arena.vals[self.gen_idx].as_ref().unwrap()
    }

    /// Frees the owned value, advances the slot's counter, which invalidates
    /// every weak handle derived from `self`, and gives the slot back.
    pub fn destroy<T>(self, arena: &mut GrArena<T>)
        requires
            old(arena).wf(),
            old(arena)@.holds(self),
        ensures
            final(arena).wf(),
            final(arena)@ == old(arena)@.after_destroy(self.slot()),
    {
        let ghost start = arena@;
        let idx = self.gen_idx;
        proof {
            assert(start.slot_ok(idx as int));
        }
        arena.vals[idx] = None;
        arena.table.release_slot(idx);
        proof {
            let now = arena@;
            assert(now.vals =~= start.after_destroy(idx).vals);
            assert forall|i: int| 0 <= i < now.vals.len() implies #[trigger] now.slot_ok(i) by {
                assert(start.slot_ok(i));
                if i != idx {
                    if start.slots.free.contains(i as usize) {
                        let k = choose|k: int| 0 <= k < start.slots.free.len() && start.slots.free[k] == i as usize;
                        assert(now.slots.free[k] == i as usize);
                    }
                    if now.slots.free.contains(i as usize) {
                        let k = choose|k: int| 0 <= k < now.slots.free.len() && now.slots.free[k] == i as usize;
                        if k < start.slots.free.len() {
                            assert(start.slots.free[k] == i as usize);
                        }
                    }
                } else if now.slots.gens[i] < u64::MAX {
                    assert(now.slots.free[now.slots.free.len() - 1] == idx);
                }
            }
        }
    }
}

impl Weak {
    /// The value, if the slot's counter still equals the captured generation;
    /// `None` once the owner has been destroyed, whatever occupies the slot now.
    pub fn get<'a, T>(&self, arena: &'a GrArena<T>) -> (r: Option<&'a T>)
        requires
            arena.wf(),
        ensures
            r is Some <==> arena@.resolve(*self) is Some,
            r is Some ==> arena@.resolve(*self) == Some(*r->0),
    {
        if self.gen_idx < arena.table.len() && arena.table.counter(self.gen_idx) == self.alloc_gen {
            arena.vals[self.gen_idx].as_ref()
        } else {
            None
        }
    }
}

} // verus!
