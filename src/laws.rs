//! Properties of the arena over whole sequences of operations, proved on the
//! abstract state that the operations' contracts are stated in.
use vstd::prelude::*;

use crate::arena::{ArenaModel, Gr, Weak};
use crate::slot_table::{BLOCK_SIZE, FIRST_GEN};

verus! {

/// `b` is a later state than `a`: no slot has disappeared and no counter has
/// gone down. Every allocation and every destruction leads to a later state.
pub open spec fn succeeds<T>(b: ArenaModel<T>, a: ArenaModel<T>) -> bool {
    &&& a.slots.gens.len() <= b.slots.gens.len()
    &&& forall|i: int| 0 <= i < a.slots.gens.len() ==> a.slots.gens[i] <= #[trigger] b.slots.gens[i]
}

/// Any state succeeds itself, and succession is transitive.
pub proof fn lemma_succeeds_refl_trans<T>(a: ArenaModel<T>, b: ArenaModel<T>, c: ArenaModel<T>)
    ensures
        succeeds(a, a),
        succeeds(b, a) && succeeds(c, b) ==> succeeds(c, a),
{
    if succeeds(b, a) && succeeds(c, b) {
        assert forall|i: int| 0 <= i < a.slots.gens.len() implies a.slots.gens[i] <= #[trigger] c.slots.gens[i] by {
            assert(a.slots.gens[i] <= b.slots.gens[i]);
        }
    }
}

/// Allocation leads to a later state.
pub proof fn lemma_alloc_succeeds<T>(a: ArenaModel<T>, v: T)
    ensures
        succeeds(a.after_alloc(v).0, a),
{
}

/// Destroying a live owner leads to a later state: its counter goes up by
/// one and no other counter changes.
pub proof fn lemma_destroy_succeeds<T>(a: ArenaModel<T>, h: Gr)
    requires
        a.wf(),
        a.holds(h),
    ensures
        succeeds(a.after_destroy(h.slot()), a),
        a.after_destroy(h.slot()).slots.gens[h.slot() as int] == h.generation() + 1,
{
    assert(a.slot_ok(h.slot() as int));
}

/// While its owner is alive, a weak handle derived from it reaches exactly
/// the owner's value.
pub proof fn lemma_live_while_owned<T>(a: ArenaModel<T>, h: Gr, w: Weak)
    requires
        a.holds(h),
        w.derived_from(h),
    ensures
        a.resolve(w) == a.vals[h.slot() as int],
        a.resolve(w) is Some,
{
}

/// Allocating another value leaves a live owner, and the value it owns, as
/// they were; the new value never lands in an occupied slot.
pub proof fn lemma_owner_survives_alloc<T>(a: ArenaModel<T>, h: Gr, v: T)
    requires
        a.wf(),
        a.holds(h),
    ensures
        a.after_alloc(v).1 != h.slot(),
        a.after_alloc(v).0.holds(h),
        a.after_alloc(v).0.vals[h.slot() as int] == a.vals[h.slot() as int],
{
    let s = h.slot() as int;
    assert(a.slot_ok(s));
    if a.slots.free.len() > 0 {
        let k = a.slots.free.len() - 1;
        assert(a.slots.free[k] == a.slots.free.last());
        assert(a.slots.free.contains(a.slots.free.last()));
    }
}

/// Destroying another owner leaves a live owner, and the value it owns, as
/// they were.
pub proof fn lemma_owner_survives_destroy<T>(a: ArenaModel<T>, h: Gr, other: Gr)
    requires
        a.wf(),
        a.holds(h),
        a.holds(other),
        other.slot() != h.slot(),
    ensures
        a.after_destroy(other.slot()).holds(h),
        a.after_destroy(other.slot()).vals[h.slot() as int] == a.vals[h.slot() as int],
{
}

/// Once its owner is destroyed, a weak handle derived from it reaches nothing
/// in that state and in every later state, whatever was allocated or
/// destroyed in between.
pub proof fn lemma_stale_forever<T>(a: ArenaModel<T>, h: Gr, w: Weak, b: ArenaModel<T>)
    requires
        a.wf(),
        a.holds(h),
        w.derived_from(h),
        succeeds(b, a.after_destroy(h.slot())),
    ensures
        b.resolve(w) is None,
{
    lemma_destroy_succeeds(a, h);
    let d = a.after_destroy(h.slot());
    assert(d.slots.gens[h.slot() as int] <= b.slots.gens[h.slot() as int]);
}

/// A slot that has a new owner does not bring back the weak handles of its
/// earlier owner: they reach nothing, while handles derived from the new
/// owner reach the new value, and the new owner's generation is larger.
pub proof fn lemma_no_false_revival<T>(
    a: ArenaModel<T>,
    h: Gr,
    w: Weak,
    b: ArenaModel<T>,
    h2: Gr,
    w2: Weak,
)
    requires
        a.wf(),
        a.holds(h),
        w.derived_from(h),
        succeeds(b, a.after_destroy(h.slot())),
        b.holds(h2),
        h2.slot() == h.slot(),
        w2.derived_from(h2),
    ensures
        b.resolve(w) is None,
        b.resolve(w2) == b.vals[h.slot() as int],
        b.resolve(w2) is Some,
        h2.generation() > h.generation(),
{
    lemma_stale_forever(a, h, w, b);
    lemma_destroy_succeeds(a, h);
    let d = a.after_destroy(h.slot());
    assert(d.slots.gens[h.slot() as int] <= b.slots.gens[h.slot() as int]);
}

/// Right after an owner is destroyed, the next allocation reuses its slot
/// (unless the slot's counter is exhausted), and a weak handle of the old
/// owner still reaches nothing while the new value lives there.
pub proof fn lemma_slot_reuse<T>(a: ArenaModel<T>, h: Gr, w: Weak, v: T)
    requires
        a.wf(),
        a.holds(h),
        w.derived_from(h),
        h.generation() + 1 < u64::MAX,
    ensures
        ({
            let (b, r) = a.after_destroy(h.slot()).after_alloc(v);
            &&& r == h.slot()
            &&& b.vals[r as int] == Some(v)
            &&& b.resolve(w) is None
        }),
{
    let d = a.after_destroy(h.slot());
    lemma_alloc_succeeds(d, v);
    lemma_stale_forever(a, h, w, d.after_alloc(v).0);
}

/// A clone of a weak handle captures the same slot and generation, so at
/// every point in time it reaches what the original reaches, whether it was
/// made before or after the owner was destroyed.
pub proof fn lemma_clone_agrees<T>(a: ArenaModel<T>, w: Weak, c: Weak)
    requires
        c.slot() == w.slot(),
        c.generation() == w.generation(),
    ensures
        a.resolve(c) == a.resolve(w),
{
}

/// Growth appends a whole block of fresh slots and places the new value in
/// it, leaving every existing slot, its counter and its value untouched.
pub proof fn lemma_growth_keeps_slots<T>(a: ArenaModel<T>, v: T)
    requires
        a.wf(),
        a.slots.free.len() == 0,
    ensures
        ({
            let (b, r) = a.after_alloc(v);
            &&& b.vals.len() == a.vals.len() + BLOCK_SIZE
            &&& a.vals.len() <= r < b.vals.len()
            &&& b.slots.gens[r as int] == FIRST_GEN
            &&& b.vals[r as int] == Some(v)
            &&& forall|i: int|
                0 <= i < a.vals.len() ==> #[trigger] b.slots.gens[i] == a.slots.gens[i] && b.vals[i]
                    == a.vals[i]
        }),
{
}

} // verus!
