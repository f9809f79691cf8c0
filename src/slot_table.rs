//! Generation counters kept in fixed-size blocks, and the free list of slot
//! indices that are ready to be handed out.
use vstd::prelude::*;

verus! {

/// Number of generation counters in one block. The table grows one block at
/// a time and never moves or resizes a block once it is appended.
pub const BLOCK_SIZE: usize = 512;

/// Value of every counter in a freshly appended block.
pub const FIRST_GEN: u64 = 1;

/// Abstract state of a slot table: the counter of every slot, by global index,
/// and the free list, whose last entry is handed out next.
pub struct SlotsModel {
    pub gens: Seq<u64>,
    pub free: Seq<usize>,
}

impl SlotsModel {
    /// The free list holds each index at most once, only indices of existing
    /// slots, and only slots whose counter can still be advanced.
    pub open spec fn wf(self) -> bool {
        &&& self.gens.len() % (BLOCK_SIZE as nat) == 0
        &&& self.gens.len() <= usize::MAX
        &&& self.free.no_duplicates()
        &&& forall|k: int|
            0 <= k < self.free.len() ==> {
                &&& (#[trigger] self.free[k]) < self.gens.len()
                &&& self.gens[self.free[k] as int] < u64::MAX
            }
        &&& forall|i: int| 0 <= i < self.gens.len() ==> #[trigger] self.gens[i] >= FIRST_GEN
    }

    /// Whether one more block can be appended with all indices fitting in `usize`.
    pub open spec fn can_grow(self) -> bool {
        self.gens.len() + BLOCK_SIZE <= usize::MAX
    }

    /// The indices of a block appended to a table of `base` slots, in the
    /// order in which they are pushed onto the free list.
    pub open spec fn block_indices(base: nat) -> Seq<usize> {
        Seq::new(BLOCK_SIZE as nat, |j: int| (base + j) as usize)
    }

    /// The table after one new block of fresh counters is appended and all of
    /// its indices are pushed onto the free list.
    pub open spec fn grown(self) -> SlotsModel {
        SlotsModel {
            gens: self.gens + Seq::new(BLOCK_SIZE as nat, |j: int| FIRST_GEN),
            free: self.free + Self::block_indices(self.gens.len()),
        }
    }

    /// Taking a slot: pop the free list, growing the table first if the list is empty.
    pub open spec fn acquire(self) -> (SlotsModel, usize) {
        let m = if self.free.len() == 0 {
            self.grown()
        } else {
            self
        };
        (SlotsModel { gens: m.gens, free: m.free.drop_last() }, m.free.last())
    }

    /// Giving a slot back: its counter advances by one, and the slot returns to
    /// the free list unless its counter has reached the largest value, in which
    /// case the slot is retired for good.
    pub open spec fn release(self, idx: usize) -> SlotsModel {
        let g = (self.gens[idx as int] + 1) as u64;
        SlotsModel {
            gens: self.gens.update(idx as int, g),
            free: if g < u64::MAX {
                self.free.push(idx)
            } else {
                self.free
            },
        }
    }
}

/// Growable table of generation counters with a free list of slot indices.
pub struct SlotTable {
    blocks: Vec<Vec<u64>>,
    unused: Vec<usize>,
}

impl View for SlotTable {
    type V = SlotsModel;

    closed spec fn view(&self) -> SlotsModel {
        SlotsModel {
            gens: Seq::new(
                (self.blocks@.len() * BLOCK_SIZE) as nat,
                |i: int| self.blocks@[i / BLOCK_SIZE as int]@[i % BLOCK_SIZE as int],
            ),
            free: self.unused@,
        }
    }
}

proof fn lemma_block_of(i: int, nb: int)
    requires
        0 <= i < nb * BLOCK_SIZE,
    ensures
        0 <= i / (BLOCK_SIZE as int) < nb,
        0 <= i % (BLOCK_SIZE as int) < BLOCK_SIZE,
{
    assert(0 <= i / 512 < nb) by (nonlinear_arith)
        requires
            0 <= i < nb * 512,
    ;
}

impl SlotTable {
    /// Every block holds exactly `BLOCK_SIZE` counters, and the abstract state
    /// is well formed.
    pub closed spec fn wf(&self) -> bool {
        &&& forall|b: int| 0 <= b < self.blocks@.len() ==> (#[trigger] self.blocks@[b])@.len() == BLOCK_SIZE
        &&& self@.wf()
    }

    /// An empty table: no blocks, nothing free.
    pub fn new() -> (t: SlotTable)
        ensures
            t.wf(),
            t@.gens.len() == 0,
            t@.free.len() == 0,
    {
        let t = SlotTable { blocks: Vec::new(), unused: Vec::new() };
        assert(t@.gens.len() == 0);
        t
    }

    /// Number of slots, free or not.
    pub fn len(&self) -> (n: usize)
        requires
            self.wf(),
        ensures
            n == self@.gens.len(),
    {
        proof {
            assert(self.blocks@.len() * BLOCK_SIZE == self@.gens.len());
        }
        self.blocks.len() * BLOCK_SIZE
    }

    /// Number of indices on the free list.
    pub fn free_len(&self) -> (n: usize)
        ensures
            n == self@.free.len(),
    {
        self.unused.len()
    }

    /// Current value of the counter of slot `idx`.
    pub fn counter(&self, idx: usize) -> (g: u64)
        requires
            self.wf(),
            idx < self@.gens.len(),
        ensures
            g == self@.gens[idx as int],
    {
        proof {
            lemma_block_of(idx as int, self.blocks@.len() as int);
        }
        self.blocks[idx / BLOCK_SIZE][idx % BLOCK_SIZE]
    }

    /// Appends one block of fresh counters and pushes its indices onto the
    /// free list, in increasing order.
    pub fn grow(&mut self)
        requires
            old(self).wf(),
            old(self)@.can_grow(),
        ensures
            final(self).wf(),
            final(self)@ == old(self)@.grown(),
    {
        let ghost old_blocks = self.blocks@;
        let ghost nb = self.blocks@.len() as int;
        let base: usize = self.len();
        let mut block: Vec<u64> = Vec::new();
        let mut i: usize = 0;
        while i < BLOCK_SIZE
            invariant
                i <= BLOCK_SIZE,
                block@ == Seq::new(i as nat, |j: int| FIRST_GEN),
            decreases BLOCK_SIZE - i,
        {
            block.push(FIRST_GEN);
            i = i + 1;
        }
        self.blocks.push(block);
        let mut k: usize = 0;
        while k < BLOCK_SIZE
            invariant
                k <= BLOCK_SIZE,
                base == old(self)@.gens.len(),
                base + BLOCK_SIZE <= usize::MAX,
                self.blocks@ == old_blocks.push(block),
                self.unused@ == old(self)@.free + SlotsModel::block_indices(base as nat).take(k as int),
            decreases BLOCK_SIZE - k,
        {
            self.unused.push(base + k);
            k = k + 1;
            proof {
                assert(SlotsModel::block_indices(base as nat).take(k as int)
                    =~= SlotsModel::block_indices(base as nat).take(k - 1).push((base + k - 1) as usize));
            }
        }
        proof {
            let g = old(self)@.grown();
            assert(SlotsModel::block_indices(base as nat).take(BLOCK_SIZE as int)
                =~= SlotsModel::block_indices(base as nat));
            assert forall|i: int| 0 <= i < g.gens.len() implies #[trigger] self@.gens[i] == g.gens[i] by {
                if i < base {
                    lemma_block_of(i, nb);
                } else {
                    assert(i / 512 == nb && i % 512 == i - base) by (nonlinear_arith)
                        requires
                            base == nb * 512,
                            base <= i < base + 512,
                    ;
                }
            }
            assert(self@.gens =~= g.gens);
            assert(self@.free =~= g.free);
            let f = g.free;
            let of = old(self)@.free;
            assert forall|a: int, b: int| 0 <= a < f.len() && 0 <= b < f.len() && a != b
                implies f[a] != f[b] by {
                if a < of.len() && b < of.len() {
                    assert(of.no_duplicates());
                }
            }
        }
    }

    /// Pops the free list, growing the table first when the list is empty.
    pub fn acquire_slot(&mut self) -> (idx: usize)
        requires
            old(self).wf(),
            old(self)@.free.len() == 0 ==> old(self)@.can_grow(),
        ensures
            final(self).wf(),
            (final(self)@, idx) == old(self)@.acquire(),
            idx < final(self)@.gens.len(),
            final(self)@.gens[idx as int] < u64::MAX,
            !final(self)@.free.contains(idx),
            forall|j: usize|
                j != idx ==> (#[trigger] final(self)@.free.contains(j) <==> (old(self)@.free.contains(j)
                    || (old(self)@.free.len() == 0 && old(self)@.gens.len() <= j < final(self)@.gens.len()))),
    {
        let ghost start = self@;
        if self.unused.len() == 0 {
            self.grow();
            proof {
                let bi = SlotsModel::block_indices(start.gens.len());
                assert forall|j: usize| #[trigger] self@.free.contains(j) <==> (start.free.contains(j)
                    || (start.gens.len() <= j < self@.gens.len())) by {
                    if start.gens.len() <= j < self@.gens.len() {
                        let k = j - start.gens.len();
                        assert(bi[k] == j);
                        assert(self@.free[start.free.len() + k] == j);
                    }
                    if self@.free.contains(j) {
                        let k = choose|k: int| 0 <= k < self@.free.len() && self@.free[k] == j;
                        if k >= start.free.len() {
                            assert(bi[k - start.free.len()] == j);
                        } else {
                            assert(start.free[k] == j);
                        }
                    }
                    if start.free.contains(j) {
                        let k = choose|k: int| 0 <= k < start.free.len() && start.free[k] == j;
                        assert(self@.free[k] == j);
                    }
                }
            }
        }
        let ghost before = self@;
        let idx = self.unused.pop().unwrap();
        proof {
            assert(self@.free =~= before.free.drop_last());
            assert forall|k: int| 0 <= k < self@.free.len() implies #[trigger] self@.free[k] == before.free[k] by {}
            let last = before.free.len() - 1;
            assert(before.free[last] == idx);
            assert forall|j: usize| #[trigger] self@.free.contains(j) <==> (before.free.contains(j) && j != idx) by {
                if before.free.contains(j) && j != idx {
                    let k = choose|k: int| 0 <= k < before.free.len() && before.free[k] == j;
                    assert(k != last);
                    assert(self@.free[k] == j);
                }
                if self@.free.contains(j) {
                    let k = choose|k: int| 0 <= k < self@.free.len() && self@.free[k] == j;
                    assert(before.free[k] == j);
                    assert(k != last);
                }
            }
        }
        idx
    }

    /// Advances the counter of slot `idx` by one and puts the slot back on the
    /// free list, unless the counter has reached `u64::MAX`: such a slot is
    /// retired, so that no counter ever wraps around to an earlier value.
    pub fn release_slot(&mut self, idx: usize)
        requires
            old(self).wf(),
            idx < old(self)@.gens.len(),
            !old(self)@.free.contains(idx),
            old(self)@.gens[idx as int] < u64::MAX,
        ensures
            final(self).wf(),
            final(self)@ == old(self)@.release(idx),
    {
        let ghost before = self@;
        let ghost nb = self.blocks@.len() as int;
        proof {
            lemma_block_of(idx as int, nb);
        }
        let b = idx / BLOCK_SIZE;
        let o = idx % BLOCK_SIZE;
        let g = self.blocks[b][o] + 1;
        self.blocks[b][o] = g;
        if g < u64::MAX {
            self.unused.push(idx);
        }
        proof {
            let r = before.release(idx);
            assert forall|i: int| 0 <= i < r.gens.len() implies #[trigger] self@.gens[i] == r.gens[i] by {
                lemma_block_of(i, nb);
                if i != idx {
                    assert(i / 512 != b || i % 512 != o) by (nonlinear_arith)
                        requires
                            i != idx,
                            idx == b * 512 + o,
                            i == (i / 512) * 512 + i % 512,
                    ;
                }
            }
            assert(self@.gens =~= r.gens);
            assert(self@.free =~= r.free);
            assert forall|k: int| 0 <= k < r.free.len() implies (#[trigger] r.free[k]) < r.gens.len()
                && r.gens[r.free[k] as int] < u64::MAX by {
                if k < before.free.len() {
                    assert(before.free[k] != idx);
                }
            }
        }
    }
}

} // verus!
