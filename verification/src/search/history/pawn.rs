use crate::board::{Board, BoardView, HashKind, board_hash};
use crate::common::{Move, Piece};
use crate::search::Params;
use crate::search::history::{MAX_HISTORY, gravity, gravity_defined, gravity_value};
use crate::search::params::{
    PAWN_BONUS_BASE,
    PAWN_BONUS_MAX,
    PAWN_BONUS_SCALE,
    PAWN_MALUS_BASE,
    PAWN_MALUS_MAX,
    PAWN_MALUS_SCALE,
    capped,
    step_fits,
};
use vstd::prelude::*;

verus! {

/// One pawn history entry.
#[derive(Debug, Copy, Clone)]
pub struct PawnEntry(pub i16);

/// History of moves by the pawn structure they were played in: indexed by side to move, the
/// pawn hash modulo `SIZE`, the moving piece and the destination.
pub struct PawnHistory<const SIZE: usize> {
    entries: Vec<PawnEntry>,
}

/// The piece standing on a move's source square.
pub open spec fn moved_piece(b: BoardView, mv: Move) -> Piece {
    match b.squares[mv.src@] {
        Some((_, p)) => p,
        None => Piece::Pawn,
    }
}

/// Whether a piece stands on the move's source square.
pub open spec fn has_mover(b: BoardView, mv: Move) -> bool {
    b.squares[mv.src@] is Some
}

pub open spec fn pawn_index(b: BoardView, mv: Move, size: int) -> int {
    ((b.stm.spec_index() * size + (board_hash(b, HashKind::Pawn) as int) % size) * 6
        + moved_piece(b, mv).spec_index()) * 64 + mv.dest@
}

/// The pawn history update of a move that raised (`bonus`) or failed to raise alpha.
pub open spec fn pawn_amount(bonus: bool, depth: int) -> int {
    if bonus {
        capped(PAWN_BONUS_BASE as int, PAWN_BONUS_SCALE as int, PAWN_BONUS_MAX as int, depth)
    } else {
        -capped(PAWN_MALUS_BASE as int, PAWN_MALUS_SCALE as int, PAWN_MALUS_MAX as int, depth)
    }
}

pub open spec fn pawn_step_fits(bonus: bool, depth: int) -> bool {
    if bonus {
        step_fits(PAWN_BONUS_BASE as int, PAWN_BONUS_SCALE as int, depth)
    } else {
        step_fits(PAWN_MALUS_BASE as int, PAWN_MALUS_SCALE as int, depth)
    }
}

impl<const SIZE: usize> View for PawnHistory<SIZE> {
    type V = Seq<i16>;

    closed spec fn view(&self) -> Seq<i16> {
        self.entries@.map_values(|e: PawnEntry| e.0)
    }
}

impl<const SIZE: usize> PawnHistory<SIZE> {
    pub open spec fn wf(&self) -> bool {
        &&& 0 < SIZE
        &&& self@.len() == 768 * SIZE
    }

    /// A table with every entry zero.
    pub fn new() -> (r: Self)
        requires
            0 < SIZE,
            768 * SIZE <= usize::MAX,
        ensures
            r.wf(),
            r@ == Seq::new(768 * SIZE as nat, |i: int| 0i16),
    {
        let mut entries: Vec<PawnEntry> = Vec::new();
        let mut i: usize = 0;
        while i < 768 * SIZE
            invariant
                i <= 768 * SIZE,
                768 * SIZE <= usize::MAX,
                entries@.len() == i,
                forall|j: int| 0 <= j < i ==> (#[trigger] entries@[j]).0 == 0,
            decreases 768 * SIZE - i,
        {
            entries.push(PawnEntry(0));
            i += 1;
        }
        let r = PawnHistory { entries };
        assert(r@ =~= Seq::new(768 * SIZE as nat, |i: int| 0i16));
        r
    }

    fn index(&self, board: &Board, mv: Move) -> (r: usize)
        requires
            self.wf(),
            has_mover(board@, mv),
        ensures
            r == pawn_index(board@, mv, SIZE as int),
            r < self@.len(),
    {
        let len = self.entries.len();
        let piece = match board.piece_on(mv.src()) {
            Some(p) => p,
            None => Piece::Pawn,
        };
        let hash = board.pawn_hash();
        let dest = mv.dest().index();
        let bucket = board.stm().index() * SIZE + (hash % (SIZE as u64)) as usize;
        let p = piece.index();
        assert(bucket < 2 * SIZE);
        assert(len == 768 * SIZE);
        assert((bucket * 6 + p) * 64 + dest < 768 * SIZE) by (nonlinear_arith)
            requires
                bucket < 2 * SIZE,
                p < 6,
                dest < 64,
        ;
        (bucket * 6 + p) * 64 + dest
    }

    pub fn entry(&self, board: &Board, mv: Move) -> (r: i32)
        requires
            self.wf(),
            has_mover(board@, mv),
        ensures
            0 <= pawn_index(board@, mv, SIZE as int) < self@.len(),
            r == self@[pawn_index(board@, mv, SIZE as int)],
    {
        let i = self.index(board, mv);
        self.entries[i].0 as i32
    }

    pub fn entry_mut(&mut self, board: &Board, mv: Move) -> (r: &mut i16)
        requires
            old(self).wf(),
            has_mover(board@, mv),
        ensures
            0 <= pawn_index(board@, mv, SIZE as int) < old(self)@.len(),
            *r == old(self)@[pawn_index(board@, mv, SIZE as int)],
            final(self)@ == old(self)@.update(pawn_index(board@, mv, SIZE as int), *final(r)),
    {
        let i = self.index(board, mv);
        &mut self.entries[i].0
    }

    /// Rewards (`BONUS`) or punishes a move in the pawn structure of `board`.
    pub fn update<const BONUS: bool>(&mut self, board: &Board, depth: i32, mv: Move)
        requires
            old(self).wf(),
            has_mover(board@, mv),
            pawn_step_fits(BONUS, depth as int),
            gravity_defined(
                old(self)@[pawn_index(board@, mv, SIZE as int)] as int,
                old(self)@[pawn_index(board@, mv, SIZE as int)] as int,
                pawn_amount(BONUS, depth as int),
                MAX_HISTORY as int,
                MAX_HISTORY as int,
            ),
        ensures
            final(self).wf(),
            final(self)@ == old(self)@.update(
                pawn_index(board@, mv, SIZE as int),
                gravity_value(
                    old(self)@[pawn_index(board@, mv, SIZE as int)] as int,
                    pawn_amount(BONUS, depth as int),
                    MAX_HISTORY as int,
                    MAX_HISTORY as int,
                ) as i16,
            ),
    {
        let amount = if BONUS {
            Params::pawn_bonus(depth)
        } else {
            Params::pawn_malus(depth)
        };
        gravity(self.entry_mut(board, mv), MAX_HISTORY, MAX_HISTORY, amount);
    }
}

} // verus!
