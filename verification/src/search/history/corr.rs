use crate::common::{Color, div_trunc};
use crate::search::Params;
use crate::search::history::{bounded, gravity, gravity_defined, gravity_value};
use crate::search::params::CORR_BONUS_SCALE;
use vstd::prelude::*;

verus! {

pub const MAX_CORR: i32 = 1024;

/// One correction history entry.
#[derive(Debug, Copy, Clone)]
pub struct CorrEntry(i16);

/// Corrections of the static evaluation, indexed by side to move and a hash of part of the
/// position modulo `SIZE`.
pub struct CorrHistory<const SIZE: usize> {
    entries: Vec<CorrEntry>,
}

/// Where the entry for side `stm` and hash `hash` stands.
pub open spec fn corr_index(stm: Color, hash: u64, size: int) -> int {
    stm.spec_index() * size + (hash as int) % size
}

/// Each side to move has its own half of a correction table: white's entries come first and
/// black's after them, so an entry of one side is never an entry of the other, whatever the
/// hashes.
pub proof fn lemma_corr_sides_apart(white_hash: u64, black_hash: u64, size: int)
    requires
        0 < size,
    ensures
        0 <= corr_index(Color::White, white_hash, size) < size,
        size <= corr_index(Color::Black, black_hash, size) < 2 * size,
{
    assert(0 <= (white_hash as int) % size < size);
    assert(0 <= (black_hash as int) % size < size);
}

/// Within one side's half, two hashes share an entry exactly when they agree modulo the
/// table size.
pub proof fn lemma_corr_same_entry(stm: Color, hash1: u64, hash2: u64, size: int)
    requires
        0 < size,
    ensures
        corr_index(stm, hash1, size) == corr_index(stm, hash2, size) <==> (hash1 as int) % size == (hash2 as int)
            % size,
{
}

/// The update a search result `diff` away from the static evaluation at `depth` makes.
pub open spec fn corr_amount(depth: int, diff: int) -> int {
    div_trunc(diff * depth * CORR_BONUS_SCALE, 1024) as i32 as int
}

impl<const SIZE: usize> View for CorrHistory<SIZE> {
    type V = Seq<i16>;

    closed spec fn view(&self) -> Seq<i16> {
        self.entries@.map_values(|e: CorrEntry| e.0)
    }
}

impl<const SIZE: usize> CorrHistory<SIZE> {
    pub open spec fn wf(&self) -> bool {
        &&& 0 < SIZE
        &&& 2 * SIZE <= usize::MAX
        &&& self@.len() == 2 * SIZE
    }

    /// A table with every entry zero.
    pub fn new() -> (r: Self)
        requires
            0 < SIZE,
            2 * SIZE <= usize::MAX,
        ensures
            r.wf(),
            r@ == Seq::new(2 * SIZE as nat, |i: int| 0i16),
    {
        let mut entries: Vec<CorrEntry> = Vec::new();
        let mut i: usize = 0;
        while i < 2 * SIZE
            invariant
                i <= 2 * SIZE,
                2 * SIZE <= usize::MAX,
                entries@.len() == i,
                forall|j: int| 0 <= j < i ==> (#[trigger] entries@[j]).0 == 0,
            decreases 2 * SIZE - i,
        {
            entries.push(CorrEntry(0));
            i += 1;
        }
        let r = CorrHistory { entries };
        assert(r@ =~= Seq::new(2 * SIZE as nat, |i: int| 0i16));
        r
    }

    fn index(stm: Color, hash: u64) -> (r: usize)
        requires
            0 < SIZE,
            2 * SIZE <= usize::MAX,
        ensures
            r == corr_index(stm, hash, SIZE as int),
            r < 2 * SIZE,
    {
        stm.index() * SIZE + (hash % (SIZE as u64)) as usize
    }

    pub fn entry(&self, stm: Color, hash: u64) -> (r: i32)
        requires
            self.wf(),
        ensures
            r == self@[corr_index(stm, hash, SIZE as int)],
    {
        let i = Self::index(stm, hash);
        self.entries[i].0 as i32
    }

    pub fn entry_mut(&mut self, stm: Color, hash: u64) -> (r: &mut i16)
        requires
            old(self).wf(),
        ensures
            *r == old(self)@[corr_index(stm, hash, SIZE as int)],
            final(self)@ == old(self)@.update(corr_index(stm, hash, SIZE as int), *final(r)),
    {
        let i = Self::index(stm, hash);
        &mut self.entries[i].0
    }

    /// Moves the entry for `stm` and `hash` towards a search result `diff` away from the
    /// static evaluation, by an amount that grows with `depth`.
    pub fn update(&mut self, stm: Color, hash: u64, depth: i32, diff: i64)
        requires
            old(self).wf(),
            i64::MIN <= diff * depth * CORR_BONUS_SCALE <= i64::MAX,
            gravity_defined(
                old(self)@[corr_index(stm, hash, SIZE as int)] as int,
                old(self)@[corr_index(stm, hash, SIZE as int)] as int,
                corr_amount(depth as int, diff as int),
                (MAX_CORR / 4) as int,
                MAX_CORR as int,
            ),
        ensures
            final(self).wf(),
            final(self)@ == old(self)@.update(
                corr_index(stm, hash, SIZE as int),
                gravity_value(
                    old(self)@[corr_index(stm, hash, SIZE as int)] as int,
                    corr_amount(depth as int, diff as int),
                    (MAX_CORR / 4) as int,
                    MAX_CORR as int,
                ) as i16,
            ),
    {
        let amount = Params::corr_bonus(depth, diff);
        gravity(self.entry_mut(stm, hash), MAX_CORR / 4, MAX_CORR, amount);
    }
}

} // verus!
