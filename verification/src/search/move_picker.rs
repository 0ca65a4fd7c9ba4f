use crate::board::{Board, BoardView};
use crate::common::{Bitboard, Move, MoveFlag, Piece, Square};
use crate::search::history::{duck_index, ContIndices, History, HistoryView};
use crate::search::history::pawn::has_mover;
use crate::search::params::{noisy_mp_value, quiet_mp_value, Params, MP_QUIET_NEUTRAL_MALUS};
use crate::search::MAX_PLY;
use vstd::multiset::Multiset;
use vstd::prelude::*;
use vstd::slice::slice_subrange;

verus! {

/// A move with its ordering score.
#[derive(Clone, Copy, PartialEq, Eq, Structural, Debug)]
pub struct ScoredMove(pub Move, pub i32);

/// The mathematical content of a move stack.
pub struct MoveStackView {
    /// All moves of all plies, the current ply's last.
    pub stack: Seq<ScoredMove>,
    /// Where the moves of each ply from 0 to `ply` end.
    pub start: Seq<int>,
    pub ply: int,
}

/// The moves of every ply of the current line, one after the other.
pub struct MoveStack {
    stack: Vec<ScoredMove>,
    start: Vec<usize>,
    ply: usize,
}

impl View for MoveStack {
    type V = MoveStackView;

    closed spec fn view(&self) -> MoveStackView {
        MoveStackView {
            stack: self.stack@,
            start: self.start@.take(self.ply as int + 1).map_values(|s: usize| s as int),
            ply: self.ply as int,
        }
    }
}

/// A well-formed stack: the ends of the plies rise from 0 to the length of the stack.
pub open spec fn stack_wf(v: MoveStackView) -> bool {
    &&& 0 <= v.ply <= MAX_PLY
    &&& v.start.len() == v.ply + 1
    &&& v.start[0] == 0
    &&& forall|i: int, j: int| 0 <= i <= j <= v.ply ==> v.start[i] <= v.start[j]
    &&& v.start[v.ply] == v.stack.len()
}

/// Where the moves of the current ply begin.
pub open spec fn ply_base(v: MoveStackView) -> int {
    v.start[v.ply - 1]
}

/// The moves of the current ply.
pub open spec fn current_moves(v: MoveStackView) -> Seq<ScoredMove> {
    v.stack.subrange(ply_base(v), v.stack.len() as int)
}

/// The stack after `push_ply`: a new ply with no moves.
pub open spec fn push_spec(v: MoveStackView) -> MoveStackView {
    MoveStackView { start: v.start.push(v.start[v.ply]), ply: v.ply + 1, ..v }
}

/// The stack after `pop_ply`: the current ply and its moves gone.
pub open spec fn pop_spec(v: MoveStackView) -> MoveStackView {
    MoveStackView {
        stack: v.stack.take(v.start[v.ply - 1]),
        start: v.start.take(v.ply),
        ply: v.ply - 1,
    }
}

/// The stack after `moves` are added to the current ply.
pub open spec fn add_spec(v: MoveStackView, moves: Seq<ScoredMove>) -> MoveStackView {
    MoveStackView {
        stack: v.stack + moves,
        start: v.start.update(v.ply, (v.stack.len() + moves.len()) as int),
        ..v
    }
}

impl MoveStack {
    pub closed spec fn wf(&self) -> bool {
        &&& self.start@.len() == MAX_PLY + 1
        &&& self.ply <= MAX_PLY
        &&& stack_wf(self@)
    }

    /// A well-formed stack has the shape `stack_wf` describes.
    pub proof fn lemma_wf(&self)
        requires
            self.wf(),
        ensures
            stack_wf(self@),
    {
    }

    proof fn lemma_view(&self)
        requires
            self.start@.len() == MAX_PLY + 1,
            self.ply <= MAX_PLY,
        ensures
            forall|i: int| 0 <= i <= self.ply ==> #[trigger] self@.start[i] == self.start@[i] as int,
            self@.start.len() == self.ply + 1,
    {
    }

    /// An empty stack at ply 0.
    pub fn new() -> (r: MoveStack)
        ensures
            r.wf(),
            r@.stack == Seq::<ScoredMove>::empty(),
            r@.ply == 0,
    {
        let mut start: Vec<usize> = Vec::new();
        let mut i: usize = 0;
        while i <= MAX_PLY
            invariant
                i <= MAX_PLY + 1,
                start@.len() == i,
                forall|k: int| 0 <= k < i ==> start@[k] == 0,
            decreases MAX_PLY + 1 - i,
        {
            start.push(0);
            i += 1;
        }
        let r = MoveStack { stack: Vec::new(), start, ply: 0 };
        proof {
            r.lemma_view();
        }
        r
    }

    /// Opens the next ply, with no moves yet.
    pub fn push_ply(&mut self)
        requires
            old(self).wf(),
            old(self)@.ply < MAX_PLY,
        ensures
            final(self).wf(),
            final(self)@ == push_spec(old(self)@),
            final(self)@.ply == old(self)@.ply + 1,
            final(self)@.stack == old(self)@.stack,
            current_moves(final(self)@) == Seq::<ScoredMove>::empty(),
    {
        proof {
            self.lemma_view();
        }
        let s = self.start[self.ply];
        self.start.set(self.ply + 1, s);
        self.ply += 1;
        proof {
            self.lemma_view();
            assert(self@.start =~= push_spec(old(self)@).start);
            assert(current_moves(self@) =~= Seq::<ScoredMove>::empty());
        }
    }

    /// Closes the current ply, dropping its moves.
    pub fn pop_ply(&mut self)
        requires
            old(self).wf(),
            old(self)@.ply > 0,
        ensures
            final(self).wf(),
            final(self)@ == pop_spec(old(self)@),
            final(self)@.ply == old(self)@.ply - 1,
            final(self)@.stack == old(self)@.stack.take(ply_base(old(self)@)),
    {
        proof {
            self.lemma_view();
        }
        self.ply -= 1;
        let s = self.start[self.ply];
        self.stack.truncate(s);
        proof {
            self.lemma_view();
            assert(self@.start =~= pop_spec(old(self)@).start);
            assert(self@.stack =~= pop_spec(old(self)@).stack);
        }
    }

    /// Empties the stack and goes back to ply 0.
    pub fn reset(&mut self)
        requires
            old(self).wf(),
        ensures
            final(self).wf(),
            final(self)@.stack == Seq::<ScoredMove>::empty(),
            final(self)@.ply == 0,
            final(self)@.start == seq![0int],
    {
        proof {
            self.lemma_view();
        }
        self.stack.clear();
        self.ply = 0;
        proof {
            self.lemma_view();
        }
    }

    /// The moves of the current ply.
    pub fn get(&self) -> (r: &[ScoredMove])
        requires
            self.wf(),
            self@.ply > 0,
        ensures
            r@ == current_moves(self@),
    {
        proof {
            self.lemma_view();
        }
        let base = self.start[self.ply - 1];
        assert(self@.start[self@.ply - 1] <= self@.start[self@.ply]);
        slice_subrange(self.stack.as_slice(), base, self.stack.len())
    }

    /// The moves of the current ply, to change in place.
    pub fn get_mut(&mut self) -> (r: &mut [ScoredMove])
        requires
            old(self).wf(),
            old(self)@.ply > 0,
        ensures
            r@ == current_moves(old(self)@),
            final(self)@.stack == old(self)@.stack.take(ply_base(old(self)@)) + final(r)@,
            final(self)@.start == old(self)@.start,
            final(self)@.ply == old(self)@.ply,
    {
        proof {
            self.lemma_view();
        }
        let base = self.start[self.ply - 1];
        assert(self@.start[self@.ply - 1] <= self@.start[self@.ply]);
        let (_, moves) = self.stack.as_mut_slice().split_at_mut(base);
        moves
    }

    /// The number of moves of the current ply.
    pub fn len(&self) -> (r: usize)
        requires
            self.wf(),
            self@.ply > 0,
        ensures
            r == current_moves(self@).len(),
    {
        self.get().len()
    }

    /// Whether the current ply has no moves.
    pub fn is_empty(&self) -> (r: bool)
        requires
            self.wf(),
            self@.ply > 0,
        ensures
            r == (current_moves(self@).len() == 0),
    {
        self.get().len() == 0
    }
}

/// The moves of one piece from one square to another, one for each duck square in `ducks`,
/// as the move generator hands them out.
#[derive(Clone, Copy, PartialEq, Eq, Structural, Debug)]
pub struct MoveGroup {
    pub src: Square,
    pub dest: Square,
    pub ducks: Bitboard,
    pub flag: MoveFlag,
}

/// The move of a group that puts the duck on square `d`.
pub open spec fn group_move(g: MoveGroup, d: int) -> Move {
    Move { src: g.src, dest: g.dest, duck: Square::at(d), flag: g.flag }
}

/// The duck history of the move of a group that puts the duck on square `d`.
pub open spec fn duck_key(h: HistoryView, b: BoardView, g: MoveGroup, d: int) -> int {
    h.duck[duck_index(b, group_move(g, d))] as int
}

/// Among the group's duck squares below `n` that are neutral, the one of highest duck history,
/// the last of several equal ones.
pub open spec fn best_duck_below(h: HistoryView, b: BoardView, g: MoveGroup, neutral: Bitboard, n: int) -> Option<int>
    decreases n,
{
    if n <= 0 {
        None
    } else {
        let prev = best_duck_below(h, b, g, neutral, n - 1);
        if g.ducks.contains(n - 1) && neutral.contains(n - 1) {
            match prev {
                None => Some(n - 1),
                Some(p) => if duck_key(h, b, g, n - 1) >= duck_key(h, b, g, p) {
                    Some(n - 1)
                } else {
                    prev
                },
            }
        } else {
            prev
        }
    }
}

/// The neutral duck square kept when neutral ducks are pruned: the best of them.
pub open spec fn best_neutral_duck(h: HistoryView, b: BoardView, g: MoveGroup, neutral: Bitboard) -> Option<int> {
    best_duck_below(h, b, g, neutral, 64)
}

/// Whether the move of a group with the duck on `d` is kept: with pruning, of the neutral
/// duck squares only the best stays.
pub open spec fn keeps(h: HistoryView, b: BoardView, g: MoveGroup, neutral: Bitboard, prune: bool, d: int) -> bool {
    &&& g.ducks.contains(d)
    &&& (prune && best_neutral_duck(h, b, g, neutral) is Some) ==> (!neutral.contains(d) || d
        == best_neutral_duck(h, b, g, neutral)->0)
}

/// The kept moves of a group with the duck below square `n`, unscored, in square order.
pub open spec fn group_moves_below(h: HistoryView, b: BoardView, g: MoveGroup, neutral: Bitboard, prune: bool, n: int) -> Seq<ScoredMove>
    decreases n,
{
    if n <= 0 {
        Seq::empty()
    } else {
        let s = group_moves_below(h, b, g, neutral, prune, n - 1);
        if keeps(h, b, g, neutral, prune, n - 1) {
            s.push(ScoredMove(group_move(g, n - 1), 0))
        } else {
            s
        }
    }
}

/// The moves of the groups, in order.
pub open spec fn groups_moves(h: HistoryView, b: BoardView, gs: Seq<MoveGroup>, neutral: Bitboard, prune: bool) -> Seq<ScoredMove>
    decreases gs.len(),
{
    if gs.len() == 0 {
        Seq::empty()
    } else {
        groups_moves(h, b, gs.drop_last(), neutral, prune) + group_moves_below(
            h,
            b,
            gs.last(),
            neutral,
            prune,
            64,
        )
    }
}

/// The neutral duck square of highest duck history, the last of equal ones.
fn best_duck(history: &History, board: &Board, g: MoveGroup, neutral: Bitboard, cand: Bitboard) -> (r: Option<Square>)
    requires
        history.wf(),
        forall|d: int| #[trigger] cand.contains(d) == (g.ducks.contains(d) && neutral.contains(d)),
    ensures
        match best_duck_below(history@, board@, g, neutral, 64) {
            None => r is None,
            Some(d) => r matches Some(sq) && sq@ == d && sq == Square::at(d),
        },
{
    broadcast use Square::lemma_at;
    let mut best: Option<Square> = None;
    let mut best_key: i32 = 0;
    let mut i: usize = 0;
    while i < 64
        invariant
            i <= 64,
            history.wf(),
            forall|d: int| #[trigger] cand.contains(d) == (g.ducks.contains(d) && neutral.contains(d)),
            match best_duck_below(history@, board@, g, neutral, i as int) {
                None => best is None,
                Some(d) => best matches Some(sq) && sq@ == d && sq == Square::at(d) && best_key
                    == duck_key(history@, board@, g, d) && 0 <= d < i,
            },
        decreases 64 - i,
    {
        let sq = Square::from_index(i);
        if cand.has(sq) {
            let key = history.duck(board, Move::new(g.src, g.dest, sq, g.flag));
            match best {
                None => {
                    best = Some(sq);
                    best_key = key;
                },
                Some(_) => {
                    if key >= best_key {
                        best = Some(sq);
                        best_key = key;
                    }
                },
            }
        }
        i += 1;
    }
    best
}

impl MoveStack {
    /// Appends the kept moves of one group.
    fn push_group(&mut self, history: &History, board: &Board, g: MoveGroup, neutral: Bitboard, prune: bool)
        requires
            history.wf(),
        ensures
            final(self).stack@ == old(self).stack@ + group_moves_below(history@, board@, g, neutral, prune, 64),
            final(self).start == old(self).start,
            final(self).ply == old(self).ply,
    {
        broadcast use Square::lemma_at;
        let mut ducks = g.ducks;
        if prune {
            let cand = g.ducks.and(neutral);
            if let Some(best) = best_duck(history, board, g, neutral, cand) {
                ducks = g.ducks.and(neutral.not().or(Bitboard::empty().with(best)));
            }
        }
        assert forall|d: int| 0 <= d < 64 implies #[trigger] ducks.contains(d) == keeps(history@, board@, g, neutral, prune, d) by {
        }
        let ghost before = self.stack@;
        let mut i: usize = 0;
        while i < 64
            invariant
                i <= 64,
                self.start == old(self).start,
                self.ply == old(self).ply,
                self.stack@ == before + group_moves_below(history@, board@, g, neutral, prune, i as int),
                forall|d: int| 0 <= d < 64 ==> #[trigger] ducks.contains(d) == keeps(history@, board@, g, neutral, prune, d),
            decreases 64 - i,
        {
            let sq = Square::from_index(i);
            if ducks.has(sq) {
                self.stack.push(ScoredMove(Move::new(g.src, g.dest, sq, g.flag), 0));
            }
            i += 1;
            assert(self.stack@ =~= before + group_moves_below(history@, board@, g, neutral, prune, i as int));
        }
    }

    /// Appends the moves of the groups to the current ply, keeping of each group's neutral duck
    /// squares only the best when `prune_neutral_ducks` is set. Returns the number of moves the
    /// ply had before.
    pub fn add_moves(
        &mut self,
        board: &Board,
        groups: &Vec<MoveGroup>,
        neutral_ducks: Bitboard,
        prune_neutral_ducks: bool,
        history: &History,
    ) -> (r: usize)
        requires
            old(self).wf(),
            old(self)@.ply > 0,
            history.wf(),
        ensures
            final(self).wf(),
            final(self)@ == add_spec(
                old(self)@,
                groups_moves(history@, board@, groups@, neutral_ducks, prune_neutral_ducks),
            ),
            r == current_moves(old(self)@).len(),
            final(self)@.ply == old(self)@.ply,
            final(self)@.stack.take(ply_base(old(self)@)) == old(self)@.stack.take(ply_base(old(self)@)),
            current_moves(final(self)@) == current_moves(old(self)@) + groups_moves(
                history@,
                board@,
                groups@,
                neutral_ducks,
                prune_neutral_ducks,
            ),
            current_moves(final(self)@).take(r as int) == current_moves(old(self)@),
    {
        proof {
            self.lemma_view();
        }
        let base = self.start[self.ply - 1];
        let old_len = self.stack.len();
        assert(self@.start[self@.ply - 1] <= self@.start[self@.ply]);
        let ghost before = self.stack@;
        let mut k: usize = 0;
        while k < groups.len()
            invariant
                k <= groups.len(),
                history.wf(),
                self.start == old(self).start,
                self.ply == old(self).ply,
                self.stack@ == before + groups_moves(history@, board@, groups@.take(k as int), neutral_ducks, prune_neutral_ducks),
            decreases groups.len() - k,
        {
            let g = groups[k];
            self.push_group(history, board, g, neutral_ducks, prune_neutral_ducks);
            k += 1;
            assert(groups@.take(k as int).drop_last() =~= groups@.take(k - 1 as int));
            assert(self.stack@ =~= before + groups_moves(history@, board@, groups@.take(k as int), neutral_ducks, prune_neutral_ducks));
        }
        assert(groups@.take(groups@.len() as int) =~= groups@);
        let len = self.stack.len();
        self.start.set(self.ply, len);
        proof {
            self.lemma_view();
            let gm = groups_moves(history@, board@, groups@, neutral_ducks, prune_neutral_ducks);
            assert(self@.start =~= add_spec(old(self)@, gm).start);
            lemma_add_current(old(self)@, gm);
            lemma_with_current(old(self)@, current_moves(old(self)@) + gm);
            assert((current_moves(old(self)@) + gm).take(current_moves(old(self)@).len() as int) =~= current_moves(old(self)@));
        }
        old_len - base
    }
}

impl Default for MoveStack {
    fn default() -> (r: MoveStack)
        ensures
            r.wf(),
            r@.stack == Seq::<ScoredMove>::empty(),
            r@.ply == 0,
    {
        MoveStack::new()
    }
}

/// Opening a ply, adding moves to it and closing it again gives back the stack as it was.
pub proof fn lemma_push_add_pop(v: MoveStackView, moves: Seq<ScoredMove>)
    requires
        stack_wf(v),
        v.ply < MAX_PLY,
    ensures
        stack_wf(add_spec(push_spec(v), moves)),
        pop_spec(add_spec(push_spec(v), moves)) == v,
        pop_spec(push_spec(v)) == v,
        current_moves(add_spec(push_spec(v), moves)) == moves,
{
    assert(v.stack.take(v.start[v.ply]) =~= v.stack);
    assert(push_spec(v).start.take(v.ply + 1) =~= v.start);
    let w = add_spec(push_spec(v), moves);
    assert(w.stack.take(v.start[v.ply]) =~= v.stack);
    assert(w.start.take(v.ply + 1) =~= v.start);
    assert(current_moves(w) =~= moves);
}

/// Closing a ply gives back the stack of the ply below it, whatever happened within the ply,
/// as long as the moves and ply ends below it were kept: what `push_ply`, `add_moves`,
/// `get_mut` and balanced `push_ply`/`pop_ply` pairs do.
pub proof fn lemma_pop_restores(v: MoveStackView, w: MoveStackView)
    requires
        stack_wf(v),
        stack_wf(w),
        w.ply == v.ply + 1,
        w.start.take(v.ply + 1) == v.start,
        w.stack.take(v.stack.len() as int) == v.stack,
    ensures
        pop_spec(w) == v,
{
    assert(w.start[v.ply] == v.start[v.ply]);
    assert(w.start.take(w.ply) =~= v.start);
    assert(pop_spec(w).stack =~= v.stack);
}

/// The stack after each list of `lists` is added to the current ply in turn.
pub open spec fn add_all(v: MoveStackView, lists: Seq<Seq<ScoredMove>>) -> MoveStackView
    decreases lists.len(),
{
    if lists.len() == 0 {
        v
    } else {
        add_spec(add_all(v, lists.drop_last()), lists.last())
    }
}

/// The lists one after another.
pub open spec fn concat_all(lists: Seq<Seq<ScoredMove>>) -> Seq<ScoredMove>
    decreases lists.len(),
{
    if lists.len() == 0 {
        Seq::empty()
    } else {
        concat_all(lists.drop_last()) + lists.last()
    }
}

/// After `push_ply` and any number of additions, the current ply holds exactly the moves added
/// since, in the order they were added, so `len` counts them; and closing the ply gives back
/// the stack as it was before `push_ply`.
pub proof fn lemma_push_adds(v: MoveStackView, lists: Seq<Seq<ScoredMove>>)
    requires
        stack_wf(v),
        v.ply < MAX_PLY,
    ensures
        stack_wf(add_all(push_spec(v), lists)),
        add_all(push_spec(v), lists).ply == v.ply + 1,
        current_moves(add_all(push_spec(v), lists)) == concat_all(lists),
        pop_spec(add_all(push_spec(v), lists)) == v,
    decreases lists.len(),
{
    if lists.len() == 0 {
        let w = push_spec(v);
        assert forall|i: int, j: int| 0 <= i <= j <= w.ply implies w.start[i] <= w.start[j] by {
            if j < w.ply {
                assert(v.start[i] <= v.start[j]);
            } else if i < w.ply {
                assert(v.start[i] <= v.start[v.ply]);
            }
        }
        assert(current_moves(w) =~= Seq::<ScoredMove>::empty());
        lemma_push_add_pop(v, Seq::empty());
    } else {
        lemma_push_adds(v, lists.drop_last());
        let w = add_all(push_spec(v), lists.drop_last());
        let m = lists.last();
        let w2 = add_spec(w, m);
        assert(w.start[w.ply - 1] <= w.start[w.ply]);
        assert forall|i: int, j: int| 0 <= i <= j <= w2.ply implies w2.start[i] <= w2.start[j] by {
            assert(w.start[i] <= w.start[j]);
            assert(w.start[i] <= w.start[w.ply]);
        }
        assert(current_moves(w2) =~= current_moves(w) + m);
        assert(w.start.take(v.ply + 1) =~= v.start);
        assert(w.stack.take(v.stack.len() as int) =~= v.stack);
        assert(w2.start.take(v.ply + 1) =~= v.start);
        assert(w2.stack.take(v.stack.len() as int) =~= v.stack);
        lemma_pop_restores(v, w2);
    }
}

/// `x` put into `s` after the last of the moves scored at least as high.
pub open spec fn insert_desc(s: Seq<ScoredMove>, x: ScoredMove) -> Seq<ScoredMove>
    decreases s.len(),
{
    if s.len() == 0 {
        seq![x]
    } else if s.last().1 >= x.1 {
        s.push(x)
    } else {
        insert_desc(s.drop_last(), x).push(s.last())
    }
}

/// The moves in descending order of score, equal scores in their first order.
pub open spec fn sort_desc(s: Seq<ScoredMove>) -> Seq<ScoredMove>
    decreases s.len(),
{
    if s.len() == 0 {
        s
    } else {
        insert_desc(sort_desc(s.drop_last()), s.last())
    }
}

/// Whether the scores never rise along the list.
pub open spec fn descending(s: Seq<ScoredMove>) -> bool {
    forall|i: int, j: int| 0 <= i <= j < s.len() ==> s[i].1 >= s[j].1
}

proof fn lemma_insert_at(t: Seq<ScoredMove>, x: ScoredMove, m: int)
    requires
        0 <= m <= t.len(),
        forall|k: int| m <= k < t.len() ==> #[trigger] t[k].1 < x.1,
        m > 0 ==> t[m - 1].1 >= x.1,
    ensures
        insert_desc(t, x) == t.take(m) + seq![x] + t.skip(m),
    decreases t.len(),
{
    if t.len() == 0 {
        assert(insert_desc(t, x) =~= t.take(m) + seq![x] + t.skip(m));
    } else if m == t.len() {
        assert(insert_desc(t, x) =~= t.take(m) + seq![x] + t.skip(m));
    } else {
        assert(t.last().1 < x.1);
        let u = t.drop_last();
        assert forall|k: int| m <= k < u.len() implies #[trigger] u[k].1 < x.1 by {
            assert(u[k] == t[k]);
        }
        if m > 0 {
            assert(u[m - 1] == t[m - 1]);
        }
        lemma_insert_at(u, x, m);
        assert(insert_desc(t, x) =~= t.take(m) + seq![x] + t.skip(m));
    }
}

proof fn lemma_insert_sorted(t: Seq<ScoredMove>, x: ScoredMove)
    requires
        descending(t),
    ensures
        descending(insert_desc(t, x)),
        insert_desc(t, x).to_multiset() == t.to_multiset().insert(x),
        insert_desc(t, x).len() == t.len() + 1,
    decreases t.len(),
{
    broadcast use vstd::seq_lib::group_to_multiset_ensures;
    if t.len() == 0 {
        assert(seq![x] =~= Seq::<ScoredMove>::empty().push(x));
    } else if t.last().1 >= x.1 {
    } else {
        let u = t.drop_last();
        assert(descending(u));
        lemma_insert_sorted(u, x);
        let w = insert_desc(u, x);
        assert(t =~= u.push(t.last()));
        assert forall|k: int| 0 <= k < w.len() implies #[trigger] w[k].1 >= t.last().1 by {
            assert(w.to_multiset().count(w[k]) > 0);
            assert(w.to_multiset() == u.to_multiset().insert(x));
            if w[k] != x {
                assert(u.to_multiset().count(w[k]) > 0);
                let j = choose|j: int| 0 <= j < u.len() && u[j] == w[k];
                assert(u[j] == t[j]);
            }
        }
    }
}

/// Sorting gives moves in descending order of score: the same moves.
pub proof fn lemma_sort_desc(s: Seq<ScoredMove>)
    ensures
        descending(sort_desc(s)),
        sort_desc(s).to_multiset() == s.to_multiset(),
        sort_desc(s).len() == s.len(),
    decreases s.len(),
{
    broadcast use vstd::seq_lib::group_to_multiset_ensures;
    if s.len() > 0 {
        lemma_sort_desc(s.drop_last());
        lemma_insert_sorted(sort_desc(s.drop_last()), s.last());
        assert(s =~= s.drop_last().push(s.last()));
    }
}

/// Sorts `v[from..]` in descending order of score, keeping equal scores in order.
fn sort_tail(v: &mut Vec<ScoredMove>, from: usize)
    requires
        from <= old(v)@.len(),
    ensures
        final(v)@ == old(v)@.take(from as int) + sort_desc(old(v)@.skip(from as int)),
{
    let ghost orig = v@;
    let len = v.len();
    let mut i: usize = from;
    while i < len
        invariant
            from <= i <= len,
            len == orig.len(),
            v@.len() == len,
            v@.take(from as int) == orig.take(from as int),
            v@.subrange(from as int, i as int) == sort_desc(orig.subrange(from as int, i as int)),
            v@.skip(i as int) == orig.skip(i as int),
        decreases len - i,
    {
        let ghost t = v@.subrange(from as int, i as int);
        let x = v[i];
        assert(x == orig[i as int]) by {
            assert(v@.skip(i as int)[0] == orig.skip(i as int)[0]);
        }
        proof {
            assert forall|k: int| 0 <= k < len - i - 1 implies #[trigger] v@.skip(i + 1)[k] == orig.skip(i + 1)[k] by {
                assert(v@.skip(i as int)[k + 1] == orig.skip(i as int)[k + 1]);
            }
            assert(v@.skip(i + 1) =~= orig.skip(i + 1));
            assert(v@.subrange(i + 1, i + 1) =~= t.skip(i - from));
            assert(v@.subrange(from as int, i as int) =~= t.take(i - from));
        }
        let mut j: usize = i;
        while j > from && v[j - 1].1 < x.1
            invariant
                from <= j <= i < len,
                v@.len() == len,
                t.len() == i - from,
                v@.take(from as int) == orig.take(from as int),
                v@.subrange(from as int, j as int) == t.take(j - from),
                v@.subrange(j + 1, i + 1) == t.skip(j - from),
                v@.skip(i + 1) == orig.skip(i + 1),
                forall|k: int| j - from <= k < t.len() ==> #[trigger] t[k].1 < x.1,
            decreases j,
        {
            let y = v[j - 1];
            assert(y == t[j - 1 - from]) by {
                assert(v@.subrange(from as int, j as int)[j - 1 - from] == t.take(j - from)[j - 1 - from]);
            }
            let ghost w = v@;
            v.set(j, y);
            j -= 1;
            assert(v@.subrange(from as int, j as int) =~= t.take(j - from));
            assert forall|k: int| 0 <= k < i - j implies #[trigger] v@.subrange(j + 1, i + 1)[k] == t.skip(j - from)[k] by {
                if k > 0 {
                    assert(w.subrange(j + 2, i + 1)[k - 1] == t.skip(j + 1 - from)[k - 1]);
                }
            }
            assert(v@.subrange(j + 1, i + 1) =~= t.skip(j - from));
            assert(v@.skip(i + 1) =~= w.skip(i + 1));
        }
        proof {
            if j > from {
                assert(v@.subrange(from as int, j as int)[j - 1 - from] == t.take(j - from)[j - 1 - from]);
            }
            lemma_insert_at(t, x, j - from);
        }
        v.set(j, x);
        i += 1;
        proof {
            let o = orig.subrange(from as int, i as int);
            assert(o.drop_last() =~= orig.subrange(from as int, i - 1));
            assert(o.last() == x);
            assert(v@.subrange(from as int, i as int) =~= sort_desc(o));
            assert(v@.skip(i as int) =~= orig.skip(i as int));
            assert(v@.take(from as int) =~= orig.take(from as int));
        }
    }
    assert(orig.subrange(from as int, len as int) =~= orig.skip(from as int));
    assert(v@ =~= orig.take(from as int) + sort_desc(orig.skip(from as int)));
}

/// The stack with the moves of the current ply replaced by `l`.
pub open spec fn with_current(v: MoveStackView, l: Seq<ScoredMove>) -> MoveStackView {
    MoveStackView {
        stack: v.stack.take(ply_base(v)) + l,
        start: v.start.update(v.ply, ply_base(v) + l.len()),
        ply: v.ply,
    }
}

proof fn lemma_with_current(v: MoveStackView, l: Seq<ScoredMove>)
    requires
        stack_wf(v),
        v.ply > 0,
    ensures
        stack_wf(with_current(v, l)),
        current_moves(with_current(v, l)) == l,
        with_current(v, l).stack.take(ply_base(v)) == v.stack.take(ply_base(v)),
        ply_base(with_current(v, l)) == ply_base(v),
        l.len() == current_moves(v).len() ==> with_current(v, l).start == v.start,
{
    let w = with_current(v, l);
    assert(v.start[v.ply - 1] <= v.start[v.ply]);
    assert(current_moves(w) =~= l);
    assert(w.stack.take(ply_base(v)) =~= v.stack.take(ply_base(v)));
    if l.len() == current_moves(v).len() {
        assert(w.start =~= v.start);
    }
}

proof fn lemma_with_current_self(v: MoveStackView)
    requires
        stack_wf(v),
        v.ply > 0,
    ensures
        with_current(v, current_moves(v)) == v,
{
    assert(v.start[v.ply - 1] <= v.start[v.ply]);
    assert(with_current(v, current_moves(v)).stack =~= v.stack);
    assert(with_current(v, current_moves(v)).start =~= v.start);
}

proof fn lemma_add_current(v: MoveStackView, m: Seq<ScoredMove>)
    requires
        stack_wf(v),
        v.ply > 0,
    ensures
        add_spec(v, m) == with_current(v, current_moves(v) + m),
{
    assert(v.start[v.ply - 1] <= v.start[v.ply]);
    assert(v.stack.take(ply_base(v)) + (current_moves(v) + m) =~= v.stack + m);
    assert(add_spec(v, m).start =~= with_current(v, current_moves(v) + m).start);
}

/// The stages of move picking, in the order they come.
#[derive(Clone, Copy, PartialEq, Eq, Structural, Debug, PartialOrd, Ord)]
pub enum Stage {
    TTMove,
    GenerateNoisies,
    YieldGoodNoisies,
    GenerateQuiets,
    YieldQuiets,
    YieldBadNoisies,
    Finished,
}

/// The place of a stage in the order of stages.
pub open spec fn stage_rank(s: Stage) -> int {
    match s {
        Stage::TTMove => 0,
        Stage::GenerateNoisies => 1,
        Stage::YieldGoodNoisies => 2,
        Stage::GenerateQuiets => 3,
        Stage::YieldQuiets => 4,
        Stage::YieldBadNoisies => 5,
        Stage::Finished => 6,
    }
}

/// Whether a capture that is not en passant has a victim on its destination.
pub open spec fn victim_present(b: BoardView, flag: MoveFlag, dest: Square) -> bool {
    flag.spec_is_capture() && flag != MoveFlag::EnPassant ==> b.squares[dest@] is Some
}

/// The most-valuable-victim value of a move, promotions counting the gain of the new piece.
pub open spec fn mvv_spec(b: BoardView, mv: Move) -> int {
    let victim = if mv.flag == MoveFlag::EnPassant {
        Params::spec_mvv_value(Piece::Pawn)
    } else if mv.flag.spec_is_capture() {
        match b.squares[mv.dest@] {
            Some((_, p)) => Params::spec_mvv_value(p),
            None => 0,
        }
    } else {
        0
    };
    let promotion = match mv.flag.spec_promotion() {
        Some(p) => Params::spec_mvv_value(p) - Params::spec_mvv_value(Piece::Pawn),
        None => 0,
    };
    victim + promotion
}

/// The victim value of a move counts the piece it captures (a pawn for en passant, nothing
/// when it captures nothing), and a promotion adds what the new piece is worth beyond the
/// pawn: the same move with a promotion to `p` is worth `mvv_value(p) - mvv_value(Pawn)` more
/// than without, so a queen promotion that captures nothing is worth 800.
pub proof fn lemma_mvv_promotion(b: BoardView, src: Square, dest: Square, duck: Square, p: Piece)
    ensures
        mvv_spec(b, (Move { src, dest, duck, flag: MoveFlag::Normal })) == 0,
        mvv_spec(b, (Move { src, dest, duck, flag: MoveFlag::EnPassant })) == Params::spec_mvv_value(Piece::Pawn),
        b.squares[dest@] matches Some((c, q)) ==> mvv_spec(b, (Move { src, dest, duck, flag: MoveFlag::Capture }))
            == Params::spec_mvv_value(q),
        mvv_spec(b, (Move { src, dest, duck, flag: MoveFlag::Promotion(p) })) == mvv_spec(
            b,
            (Move { src, dest, duck, flag: MoveFlag::Normal }),
        ) + Params::spec_mvv_value(p) - Params::spec_mvv_value(Piece::Pawn),
        mvv_spec(b, (Move { src, dest, duck, flag: MoveFlag::CapturePromotion(p) })) == mvv_spec(
            b,
            (Move { src, dest, duck, flag: MoveFlag::Capture }),
        ) + Params::spec_mvv_value(p) - Params::spec_mvv_value(Piece::Pawn),
        mvv_spec(b, (Move { src, dest, duck, flag: MoveFlag::Promotion(Piece::Queen) })) == 800,
{
}

fn mvv(board: &Board, mv: Move) -> (r: i32)
    requires
        victim_present(board@, mv.flag, mv.dest),
    ensures
        r == mvv_spec(board@, mv),
        0 <= r <= 40000,
{
    let victim = if mv.flag().is_en_passant() {
        Params::mvv_value(Piece::Pawn)
    } else if mv.flag().is_capture() {
        match board.piece_on(mv.dest()) {
            Some(p) => Params::mvv_value(p),
            None => 0,
        }
    } else {
        0
    };
    let promotion = match mv.flag().promotion() {
        Some(p) => Params::mvv_value(p) - Params::mvv_value(Piece::Pawn),
        None => 0,
    };
    victim + promotion
}

/// The state of a move picker.
pub struct PickerView {
    pub stage: Stage,
    pub tt_move: Option<Move>,
    pub see_threshold: i32,
    pub skip_quiets: bool,
    pub skip_bad_noisies: bool,
    pub neutral_ducks: Bitboard,
    pub prune_quiet_neutrals: bool,
    pub prune_noisy_neutrals: bool,
    /// The noisy moves that failed the exchange evaluation are moved to the front of the list;
    /// this many of them so far.
    pub bad_noisy_count: int,
    /// Where in the list of moves the picker is.
    pub cursor: int,
}

/// Hands out the moves of a node one by one: the transposition table move first, then the
/// noisy moves that pass the exchange evaluation, best first, then the quiet moves, best
/// first, then the noisy moves that failed it.
pub struct MovePicker {
    stage: Stage,
    tt_move: Option<Move>,
    see_threshold: i32,
    skip_quiets: bool,
    skip_bad_noisies: bool,
    neutral_ducks: Bitboard,
    prune_quiet_neutrals: bool,
    prune_noisy_neutrals: bool,
    bad_noisy_count: usize,
    cursor: usize,
}

impl View for MovePicker {
    type V = PickerView;

    closed spec fn view(&self) -> PickerView {
        PickerView {
            stage: self.stage,
            tt_move: self.tt_move,
            see_threshold: self.see_threshold,
            skip_quiets: self.skip_quiets,
            skip_bad_noisies: self.skip_bad_noisies,
            neutral_ducks: self.neutral_ducks,
            prune_quiet_neutrals: self.prune_quiet_neutrals,
            prune_noisy_neutrals: self.prune_noisy_neutrals,
            bad_noisy_count: self.bad_noisy_count as int,
            cursor: self.cursor as int,
        }
    }
}

/// What the board's move generator and exchange evaluation say of a node.
pub struct NodeMoves {
    /// Whether the transposition table move, if there is one, is legal here.
    pub tt_legal: bool,
    /// The noisy moves, as the generator hands them out.
    pub noisies: Vec<MoveGroup>,
    /// The quiet moves, as the generator hands them out.
    pub quiets: Vec<MoveGroup>,
    /// The noisy moves whose exchange evaluation reaches the picker's threshold.
    pub good_noisies: Vec<Move>,
}

/// What the picker's state says of the list of moves it works on.
pub open spec fn fits(p: PickerView, len: int) -> bool {
    &&& 0 <= p.cursor <= len
    &&& 0 <= p.bad_noisy_count <= len
    &&& stage_rank(p.stage) <= 2 ==> p.bad_noisy_count <= p.cursor
}

/// What the generator must hand out for the moves to be scored: noisy captures with their
/// victims, quiet moves with their piece.
pub open spec fn groups_scorable(b: BoardView, nm: NodeMoves) -> bool {
    &&& forall|k: int| 0 <= k < nm.noisies@.len() ==> victim_present(b, #[trigger] nm.noisies@[k].flag, nm.noisies@[k].dest)
    &&& forall|k: int| 0 <= k < nm.quiets@.len() ==> b.squares[(#[trigger] nm.quiets@[k]).src@] is Some
}

/// Whether a move is the transposition table move.
pub open spec fn is_tt(tt: Option<Move>, mv: Move) -> bool {
    tt == Some(mv)
}

/// A noisy move scored by its victim and its histories; the transposition table move keeps
/// its score.
pub open spec fn noisy_score(h: HistoryView, b: BoardView, tt: Option<Move>, m: ScoredMove) -> ScoredMove {
    if is_tt(tt, m.0) {
        m
    } else {
        ScoredMove(m.0, (mvv_spec(b, m.0) * 8 + noisy_mp_value(h, b, m.0)) as i32)
    }
}

/// A quiet move scored by its histories, less a malus where the duck goes to a neutral square;
/// the transposition table move keeps its score.
pub open spec fn quiet_score(h: HistoryView, b: BoardView, ind: ContIndices, tt: Option<Move>, neutral: Bitboard, m: ScoredMove) -> ScoredMove {
    if is_tt(tt, m.0) {
        m
    } else {
        ScoredMove(
            m.0,
            (quiet_mp_value(h, b, ind, m.0) - MP_QUIET_NEUTRAL_MALUS * (if neutral.contains(m.0.duck@) {
                1int
            } else {
                0int
            })) as i32,
        )
    }
}

/// The noisy moves of a node, scored and sorted.
pub open spec fn noisy_list(h: HistoryView, b: BoardView, p: PickerView, nm: NodeMoves) -> Seq<ScoredMove> {
    sort_desc(
        groups_moves(h, b, nm.noisies@, p.neutral_ducks, p.prune_noisy_neutrals).map_values(
            |m: ScoredMove| noisy_score(h, b, p.tt_move, m),
        ),
    )
}

/// The quiet moves of a node, scored and sorted.
pub open spec fn quiet_list(h: HistoryView, b: BoardView, ind: ContIndices, p: PickerView, nm: NodeMoves) -> Seq<ScoredMove> {
    sort_desc(
        groups_moves(h, b, nm.quiets@, p.neutral_ducks, p.prune_quiet_neutrals).map_values(
            |m: ScoredMove| quiet_score(h, b, ind, p.tt_move, p.neutral_ducks, m),
        ),
    )
}

/// Scans the list from `cursor` for a noisy move that passes the exchange evaluation,
/// skipping the transposition table move and moving each failing one to the front, behind
/// the `bad` failing ones before it. Gives the list, cursor, count of failing moves and the
/// move found.
pub open spec fn yield_good(l: Seq<ScoredMove>, cursor: int, bad: int, tt: Option<Move>, good: Seq<Move>) -> (Seq<ScoredMove>, int, int, Option<Move>)
    decreases l.len() - cursor,
{
    if !(0 <= bad <= cursor < l.len()) {
        (l, cursor, bad, None)
    } else {
        let mv = l[cursor].0;
        if is_tt(tt, mv) {
            yield_good(l, cursor + 1, bad, tt, good)
        } else if good.contains(mv) {
            (l, cursor + 1, bad, Some(mv))
        } else {
            yield_good(l.update(bad, l[cursor]).update(cursor, l[bad]), cursor + 1, bad + 1, tt, good)
        }
    }
}

/// The first move from `cursor` up to `index` other than the transposition table move, and
/// the cursor after it.
pub open spec fn yield_until(l: Seq<ScoredMove>, cursor: int, index: int, tt: Option<Move>) -> (int, Option<Move>)
    decreases index - cursor,
{
    if cursor >= index {
        (cursor, None)
    } else if !is_tt(tt, l[cursor].0) {
        (cursor + 1, Some(l[cursor].0))
    } else {
        yield_until(l, cursor + 1, index, tt)
    }
}

/// A picker's state with the list of moves of its node.
pub struct PickState {
    pub pick: PickerView,
    pub list: Seq<ScoredMove>,
}

/// The state moved on to another stage.
pub open spec fn at_stage(s: PickState, stage: Stage) -> PickState {
    PickState { pick: PickerView { stage, ..s.pick }, ..s }
}

/// The first stage: move on, handing out the transposition table move if it is legal.
pub open spec fn phase_tt(s: PickState, nm: NodeMoves) -> (PickState, Option<Move>) {
    if s.pick.stage == Stage::TTMove {
        let s1 = at_stage(s, Stage::GenerateNoisies);
        if s.pick.tt_move is Some && nm.tt_legal {
            (s1, s.pick.tt_move)
        } else {
            (s1, None)
        }
    } else {
        (s, None)
    }
}

/// Generate the noisy moves, scored and sorted, after the list.
pub open spec fn phase_gen_noisies(s: PickState, h: HistoryView, b: BoardView, nm: NodeMoves) -> PickState {
    if s.pick.stage == Stage::GenerateNoisies {
        PickState {
            pick: PickerView { stage: Stage::YieldGoodNoisies, ..s.pick },
            list: s.list + noisy_list(h, b, s.pick, nm),
        }
    } else {
        s
    }
}

/// Hand out the next noisy move that passes the exchange evaluation, or move on to the quiets.
pub open spec fn phase_good(s: PickState, nm: NodeMoves) -> (PickState, Option<Move>) {
    if s.pick.stage == Stage::YieldGoodNoisies {
        let (l, c, bad, r) = yield_good(
            s.list,
            s.pick.cursor,
            s.pick.bad_noisy_count,
            s.pick.tt_move,
            nm.good_noisies@,
        );
        let stage = if r is Some {
            Stage::YieldGoodNoisies
        } else {
            Stage::GenerateQuiets
        };
        (
            PickState {
                pick: PickerView { stage, cursor: c, bad_noisy_count: bad, ..s.pick },
                list: l,
            },
            r,
        )
    } else {
        (s, None)
    }
}

/// Generate the quiet moves, scored and sorted, after the list, unless quiets are skipped.
pub open spec fn phase_gen_quiets(s: PickState, h: HistoryView, b: BoardView, ind: ContIndices, nm: NodeMoves) -> PickState {
    if s.pick.stage == Stage::GenerateQuiets {
        if s.pick.skip_quiets {
            at_stage(s, Stage::YieldBadNoisies)
        } else {
            PickState {
                pick: PickerView { stage: Stage::YieldQuiets, ..s.pick },
                list: s.list + quiet_list(h, b, ind, s.pick, nm),
            }
        }
    } else {
        s
    }
}

/// Hand out the next quiet move, or move on to the failing noisy moves from the list's start.
pub open spec fn phase_quiets(s: PickState) -> (PickState, Option<Move>) {
    if s.pick.stage == Stage::YieldQuiets {
        let (c, r) = if s.pick.skip_quiets {
            (s.pick.cursor, None)
        } else {
            yield_until(s.list, s.pick.cursor, s.list.len() as int, s.pick.tt_move)
        };
        if r is Some {
            (PickState { pick: PickerView { cursor: c, ..s.pick }, ..s }, r)
        } else {
            (
                PickState {
                    pick: PickerView { stage: Stage::YieldBadNoisies, cursor: 0, ..s.pick },
                    ..s
                },
                None,
            )
        }
    } else {
        (s, None)
    }
}

/// Hand out the next noisy move that failed the exchange evaluation, or finish.
pub open spec fn phase_bad(s: PickState) -> (PickState, Option<Move>) {
    if s.pick.stage == Stage::YieldBadNoisies {
        let (c, r) = if s.pick.skip_bad_noisies {
            (s.pick.cursor, None)
        } else {
            yield_until(s.list, s.pick.cursor, s.pick.bad_noisy_count, s.pick.tt_move)
        };
        let stage = if r is Some {
            Stage::YieldBadNoisies
        } else {
            Stage::Finished
        };
        (PickState { pick: PickerView { stage, cursor: c, ..s.pick }, ..s }, r)
    } else {
        (s, None)
    }
}

/// One call of `next`: the stages run in turn until one hands out a move.
pub open spec fn next_spec(s: PickState, h: HistoryView, b: BoardView, ind: ContIndices, nm: NodeMoves) -> (PickState, Option<Move>) {
    let (s1, r1) = phase_tt(s, nm);
    if r1 is Some {
        (s1, r1)
    } else {
        let (s3, r3) = phase_good(phase_gen_noisies(s1, h, b, nm), nm);
        if r3 is Some {
            (s3, r3)
        } else {
            let (s5, r5) = phase_quiets(phase_gen_quiets(s3, h, b, ind, nm));
            if r5 is Some {
                (s5, r5)
            } else {
                phase_bad(s5)
            }
        }
    }
}

/// Whether a move stands in a group of `gs` with the same source, destination and flag.
pub open spec fn from_groups(m: Move, gs: Seq<MoveGroup>) -> bool {
    exists|j: int| 0 <= j < gs.len() && #[trigger] gs[j].src == m.src && gs[j].dest == m.dest && gs[j].flag == m.flag
}

proof fn lemma_group_moves_from(h: HistoryView, b: BoardView, g: MoveGroup, neutral: Bitboard, prune: bool, n: int)
    ensures
        forall|k: int| 0 <= k < group_moves_below(h, b, g, neutral, prune, n).len() ==> {
            let m = #[trigger] group_moves_below(h, b, g, neutral, prune, n)[k];
            m.0.src == g.src && m.0.dest == g.dest && m.0.flag == g.flag && m.1 == 0
        },
    decreases n,
{
    if n > 0 {
        lemma_group_moves_from(h, b, g, neutral, prune, n - 1);
    }
}

proof fn lemma_groups_moves_from(h: HistoryView, b: BoardView, gs: Seq<MoveGroup>, neutral: Bitboard, prune: bool)
    ensures
        forall|k: int| 0 <= k < groups_moves(h, b, gs, neutral, prune).len() ==> from_groups(
            (#[trigger] groups_moves(h, b, gs, neutral, prune)[k]).0,
            gs,
        ),
    decreases gs.len(),
{
    if gs.len() > 0 {
        let init = gs.drop_last();
        lemma_groups_moves_from(h, b, init, neutral, prune);
        lemma_group_moves_from(h, b, gs.last(), neutral, prune, 64);
        let a = groups_moves(h, b, init, neutral, prune);
        let c = group_moves_below(h, b, gs.last(), neutral, prune, 64);
        assert forall|k: int| 0 <= k < groups_moves(h, b, gs, neutral, prune).len() implies from_groups(
            (#[trigger] groups_moves(h, b, gs, neutral, prune)[k]).0,
            gs,
        ) by {
            if k < a.len() {
                let m = a[k].0;
                assert(from_groups(m, init));
                let j = choose|j: int| 0 <= j < init.len() && #[trigger] init[j].src == m.src && init[j].dest == m.dest && init[j].flag == m.flag;
                assert(gs[j] == init[j]);
            } else {
                assert(c[k - a.len()] == groups_moves(h, b, gs, neutral, prune)[k]);
                assert(gs[gs.len() - 1] == gs.last());
            }
        }
    }
}

fn is_tt_move(tt: Option<Move>, mv: Move) -> (r: bool)
    ensures
        r == is_tt(tt, mv),
{
    match tt {
        Some(t) => t == mv,
        None => false,
    }
}

fn contains_move(v: &Vec<Move>, mv: Move) -> (r: bool)
    ensures
        r == v@.contains(mv),
{
    let mut i: usize = 0;
    while i < v.len()
        invariant
            i <= v.len(),
            forall|k: int| 0 <= k < i ==> v@[k] != mv,
        decreases v.len() - i,
    {
        if v[i] == mv {
            return true;
        }
        i += 1;
    }
    false
}

impl MoveStack {
    /// Where the moves of the current ply begin.
    fn base(&self) -> (r: usize)
        requires
            self.wf(),
            self@.ply > 0,
        ensures
            r == ply_base(self@),
            r <= self.stack@.len(),
            self.stack@.skip(r as int) == current_moves(self@),
            self.stack@.take(r as int) == self@.stack.take(ply_base(self@)),
    {
        proof {
            self.lemma_view();
        }
        assert(self@.start[self@.ply - 1] <= self@.start[self@.ply]);
        let r = self.start[self.ply - 1];
        assert(self.stack@.skip(r as int) =~= current_moves(self@));
        r
    }
}

impl MovePicker {
    /// A picker at its first stage, with nothing skipped.
    pub fn new(
        tt_move: Option<Move>,
        see_threshold: i32,
        neutral_ducks: Bitboard,
        prune_quiet_neutrals: bool,
        prune_noisy_neutrals: bool,
    ) -> (r: MovePicker)
        ensures
            r@ == (PickerView {
                stage: Stage::TTMove,
                tt_move,
                see_threshold,
                skip_quiets: false,
                skip_bad_noisies: false,
                neutral_ducks,
                prune_quiet_neutrals,
                prune_noisy_neutrals,
                bad_noisy_count: 0,
                cursor: 0,
            }),
    {
        MovePicker {
            stage: Stage::TTMove,
            tt_move,
            see_threshold,
            skip_quiets: false,
            skip_bad_noisies: false,
            neutral_ducks,
            prune_quiet_neutrals,
            prune_noisy_neutrals,
            bad_noisy_count: 0,
            cursor: 0,
        }
    }

    pub fn stage(&self) -> (r: Stage)
        ensures
            r == self@.stage,
    {
        self.stage
    }

    /// From now on no quiet moves are handed out.
    pub fn skip_quiets(&mut self)
        ensures
            final(self)@ == (PickerView { skip_quiets: true, ..old(self)@ }),
    {
        self.skip_quiets = true;
    }

    /// From now on no noisy moves that failed the exchange evaluation are handed out.
    pub fn skip_bad_noisies(&mut self)
        ensures
            final(self)@ == (PickerView { skip_bad_noisies: true, ..old(self)@ }),
    {
        self.skip_bad_noisies = true;
    }

    fn yield_good_noisy(&mut self, stack: &mut MoveStack, good: &Vec<Move>) -> (r: Option<Move>)
        requires
            old(stack).wf(),
            old(stack)@.ply > 0,
            0 <= old(self)@.bad_noisy_count <= old(self)@.cursor <= current_moves(old(stack)@).len(),
        ensures
            ({
                let (l, c, bad, r0) = yield_good(
                    current_moves(old(stack)@),
                    old(self)@.cursor,
                    old(self)@.bad_noisy_count,
                    old(self)@.tt_move,
                    good@,
                );
                &&& r == r0
                &&& final(self)@ == (PickerView { cursor: c, bad_noisy_count: bad, ..old(self)@ })
                &&& final(stack)@ == with_current(old(stack)@, l)
            }),
            final(stack).wf(),
    {
        let base = stack.base();
        let len = stack.stack.len();
        let ghost target = yield_good(
            current_moves(old(stack)@),
            old(self)@.cursor,
            old(self)@.bad_noisy_count,
            old(self)@.tt_move,
            good@,
        );
        let ghost prefix = stack.stack@.take(base as int);
        proof {
            lemma_with_current(old(stack)@, current_moves(old(stack)@));
            assert(stack.stack@ =~= prefix + current_moves(old(stack)@));
        }
        let mut found: Option<Move> = None;
        while found.is_none() && self.cursor < len - base
            invariant
                stack_wf(old(stack)@),
                old(stack)@.ply > 0,
                base == ply_base(old(stack)@),
                prefix == old(stack)@.stack.take(ply_base(old(stack)@)),
                len - base == current_moves(old(stack)@).len(),
                base <= len,
                stack.stack@.len() == len,
                stack.start == old(stack).start,
                stack.ply == old(stack).ply,
                prefix.len() == base,
                stack.stack@ == prefix + stack.stack@.skip(base as int),
                0 <= self.bad_noisy_count <= self.cursor <= len - base,
                self.stage == old(self).stage,
                self.tt_move == old(self).tt_move,
                self.see_threshold == old(self).see_threshold,
                self.skip_quiets == old(self).skip_quiets,
                self.skip_bad_noisies == old(self).skip_bad_noisies,
                self.neutral_ducks == old(self).neutral_ducks,
                self.prune_quiet_neutrals == old(self).prune_quiet_neutrals,
                self.prune_noisy_neutrals == old(self).prune_noisy_neutrals,
                found is None ==> yield_good(stack.stack@.skip(base as int), self.cursor as int, self.bad_noisy_count as int, self.tt_move, good@) == target,
                found is Some ==> target == (stack.stack@.skip(base as int), self.cursor as int, self.bad_noisy_count as int, found),
            decreases len - base - self.cursor + (if found is None { 1int } else { 0int }),
        {
            let ghost cur = stack.stack@.skip(base as int);
            let mv = stack.stack[base + self.cursor].0;
            assert(mv == cur[self.cursor as int].0);
            self.cursor += 1;
            if is_tt_move(self.tt_move, mv) {
                continue;
            }
            if contains_move(good, mv) {
                found = Some(mv);
                continue;
            }
            let i = base + self.bad_noisy_count;
            let j = base + self.cursor - 1;
            let a = stack.stack[i];
            let b = stack.stack[j];
            stack.stack.set(i, b);
            stack.stack.set(j, a);
            self.bad_noisy_count += 1;
            proof {
                let bad0 = self.bad_noisy_count - 1;
                let c0 = self.cursor - 1;
                assert(stack.stack@.skip(base as int) =~= cur.update(bad0, cur[c0]).update(c0, cur[bad0]));
                assert(stack.stack@ =~= prefix + stack.stack@.skip(base as int));
            }
        }
        proof {
            let cur = stack.stack@.skip(base as int);
            lemma_with_current(old(stack)@, cur);
            assert(stack.stack@ =~= old(stack)@.stack.take(ply_base(old(stack)@)) + cur);
            assert(stack@.start =~= with_current(old(stack)@, cur).start);
        }
        found
    }

    fn yield_until(&mut self, stack: &MoveStack, index: usize) -> (r: Option<Move>)
        requires
            stack.wf(),
            stack@.ply > 0,
            index <= current_moves(stack@).len(),
        ensures
            ({
                let (c, r0) = yield_until(current_moves(stack@), old(self)@.cursor, index as int, old(self)@.tt_move);
                &&& r == r0
                &&& final(self)@ == (PickerView { cursor: c, ..old(self)@ })
            }),
    {
        let base = stack.base();
        let len = stack.stack.len();
        let ghost target = yield_until(current_moves(stack@), old(self)@.cursor, index as int, old(self)@.tt_move);
        let mut found: Option<Move> = None;
        while found.is_none() && self.cursor < index
            invariant
                len == stack.stack@.len(),
                index <= current_moves(stack@).len(),
                stack.stack@.skip(base as int) == current_moves(stack@),
                base <= stack.stack@.len(),
                current_moves(stack@).len() == stack.stack@.len() - base,
                self.stage == old(self).stage,
                self.tt_move == old(self).tt_move,
                self.see_threshold == old(self).see_threshold,
                self.skip_quiets == old(self).skip_quiets,
                self.skip_bad_noisies == old(self).skip_bad_noisies,
                self.neutral_ducks == old(self).neutral_ducks,
                self.prune_quiet_neutrals == old(self).prune_quiet_neutrals,
                self.prune_noisy_neutrals == old(self).prune_noisy_neutrals,
                self.bad_noisy_count == old(self).bad_noisy_count,
                found is None ==> yield_until(current_moves(stack@), self.cursor as int, index as int, self.tt_move) == target,
                found is Some ==> target == (self.cursor as int, found),
            decreases index - self.cursor + (if found is None { 1int } else { 0int }),
        {
            let mv = stack.stack[base + self.cursor].0;
            assert(mv == current_moves(stack@)[self.cursor as int].0);
            self.cursor += 1;
            if !is_tt_move(self.tt_move, mv) {
                found = Some(mv);
            }
        }
        found
    }
}

impl MovePicker {
    /// Scores the moves of the current ply from `start` on as noisy moves, all but the
    /// transposition table move, and sorts them best first.
    fn score_noisies(&self, board: &Board, stack: &mut MoveStack, history: &History, start: usize)
        requires
            old(stack).wf(),
            old(stack)@.ply > 0,
            history.wf(),
            start <= current_moves(old(stack)@).len(),
            forall|k: int| start <= k < current_moves(old(stack)@).len() ==> victim_present(
                board@,
                (#[trigger] current_moves(old(stack)@)[k]).0.flag,
                current_moves(old(stack)@)[k].0.dest,
            ),
        ensures
            final(stack).wf(),
            final(stack)@ == with_current(
                old(stack)@,
                current_moves(old(stack)@).take(start as int) + sort_desc(
                    current_moves(old(stack)@).skip(start as int).map_values(
                        |m: ScoredMove| noisy_score(history@, board@, self@.tt_move, m),
                    ),
                ),
            ),
    {
        let base = stack.base();
        let len = stack.stack.len();
        let from = base + start;
        let ghost orig = stack.stack@;
        let ghost cur = current_moves(old(stack)@);
        let ghost tt = self@.tt_move;
        let mut i: usize = from;
        while i < len
            invariant
                from == base + start,
                base + cur.len() == len,
                orig.skip(base as int) == cur,
                orig.len() == len,
                from <= i <= len,
                history.wf(),
                tt == self.tt_move,
                stack.stack@.len() == len,
                stack.start == old(stack).start,
                stack.ply == old(stack).ply,
                forall|k: int| start <= k < cur.len() ==> victim_present(board@, (#[trigger] cur[k]).0.flag, cur[k].0.dest),
                forall|k: int| 0 <= k < from ==> stack.stack@[k] == orig[k],
                forall|k: int| from <= k < i ==> stack.stack@[k] == noisy_score(history@, board@, tt, orig[k]),
                forall|k: int| i <= k < len ==> stack.stack@[k] == orig[k],
            decreases len - i,
        {
            let m = stack.stack[i];
            if !is_tt_move(self.tt_move, m.0) {
                assert(cur[i - base] == orig[i as int]);
                let victim = mvv(board, m.0);
                let hist = Params::noisy_mp_history(history, board, m.0);
                stack.stack.set(i, ScoredMove(m.0, victim * 8 + hist));
            }
            i += 1;
        }
        let ghost mid = stack.stack@;
        proof {
            assert(mid.skip(from as int) =~= cur.skip(start as int).map_values(
                |m: ScoredMove| noisy_score(history@, board@, tt, m),
            ));
        }
        sort_tail(&mut stack.stack, from);
        proof {
            let scored = cur.skip(start as int).map_values(|m: ScoredMove| noisy_score(history@, board@, tt, m));
            let l = cur.take(start as int) + sort_desc(scored);
            lemma_sort_desc(scored);
            lemma_with_current(old(stack)@, l);
            assert(mid.take(from as int) =~= old(stack)@.stack.take(ply_base(old(stack)@)) + cur.take(start as int));
            assert(stack.stack@ =~= old(stack)@.stack.take(ply_base(old(stack)@)) + l);
            assert(stack@.start =~= with_current(old(stack)@, l).start);
        }
    }

    /// Scores the moves of the current ply from `start` on as quiet moves, all but the
    /// transposition table move, and sorts them best first.
    fn score_quiets(&self, board: &Board, stack: &mut MoveStack, history: &History, indices: ContIndices, start: usize)
        requires
            old(stack).wf(),
            old(stack)@.ply > 0,
            history.wf(),
            start <= current_moves(old(stack)@).len(),
            forall|k: int| start <= k < current_moves(old(stack)@).len() ==> has_mover(
                board@,
                (#[trigger] current_moves(old(stack)@)[k]).0,
            ),
        ensures
            final(stack).wf(),
            final(stack)@ == with_current(
                old(stack)@,
                current_moves(old(stack)@).take(start as int) + sort_desc(
                    current_moves(old(stack)@).skip(start as int).map_values(
                        |m: ScoredMove| quiet_score(history@, board@, indices, self@.tt_move, self@.neutral_ducks, m),
                    ),
                ),
            ),
    {
        let base = stack.base();
        let len = stack.stack.len();
        let from = base + start;
        let ghost orig = stack.stack@;
        let ghost cur = current_moves(old(stack)@);
        let ghost tt = self@.tt_move;
        let ghost neutral = self@.neutral_ducks;
        let mut i: usize = from;
        while i < len
            invariant
                from == base + start,
                base + cur.len() == len,
                orig.skip(base as int) == cur,
                orig.len() == len,
                from <= i <= len,
                history.wf(),
                tt == self.tt_move,
                neutral == self.neutral_ducks,
                stack.stack@.len() == len,
                stack.start == old(stack).start,
                stack.ply == old(stack).ply,
                forall|k: int| start <= k < cur.len() ==> has_mover(board@, (#[trigger] cur[k]).0),
                forall|k: int| 0 <= k < from ==> stack.stack@[k] == orig[k],
                forall|k: int| from <= k < i ==> stack.stack@[k] == quiet_score(history@, board@, indices, tt, neutral, orig[k]),
                forall|k: int| i <= k < len ==> stack.stack@[k] == orig[k],
            decreases len - i,
        {
            let m = stack.stack[i];
            if !is_tt_move(self.tt_move, m.0) {
                assert(cur[i - base] == orig[i as int]);
                let hist = Params::quiet_mp_history(history, board, indices, m.0);
                let malus = if self.neutral_ducks.has(m.0.duck()) {
                    MP_QUIET_NEUTRAL_MALUS
                } else {
                    0
                };
                stack.stack.set(i, ScoredMove(m.0, hist - malus));
            }
            i += 1;
        }
        let ghost mid = stack.stack@;
        proof {
            assert(mid.skip(from as int) =~= cur.skip(start as int).map_values(
                |m: ScoredMove| quiet_score(history@, board@, indices, tt, neutral, m),
            ));
        }
        sort_tail(&mut stack.stack, from);
        proof {
            let scored = cur.skip(start as int).map_values(|m: ScoredMove| quiet_score(history@, board@, indices, tt, neutral, m));
            let l = cur.take(start as int) + sort_desc(scored);
            lemma_sort_desc(scored);
            lemma_with_current(old(stack)@, l);
            assert(mid.take(from as int) =~= old(stack)@.stack.take(ply_base(old(stack)@)) + cur.take(start as int));
            assert(stack.stack@ =~= old(stack)@.stack.take(ply_base(old(stack)@)) + l);
            assert(stack@.start =~= with_current(old(stack)@, l).start);
        }
    }
}

proof fn lemma_with_current_twice(v: MoveStackView, l1: Seq<ScoredMove>, l2: Seq<ScoredMove>)
    requires
        stack_wf(v),
        v.ply > 0,
    ensures
        with_current(with_current(v, l1), l2) == with_current(v, l2),
{
    lemma_with_current(v, l1);
    let w = with_current(v, l1);
    assert(with_current(w, l2).stack =~= with_current(v, l2).stack);
    assert(with_current(w, l2).start =~= with_current(v, l2).start);
}

proof fn lemma_yield_good(l: Seq<ScoredMove>, cursor: int, bad: int, tt: Option<Move>, good: Seq<Move>)
    requires
        0 <= bad <= cursor <= l.len(),
    ensures
        ({
            let (l2, c, bad2, r) = yield_good(l, cursor, bad, tt, good);
            &&& l2.len() == l.len()
            &&& 0 <= bad2 <= c <= l.len()
            &&& cursor <= c
            &&& (r matches Some(mv) ==> !is_tt(tt, mv) && good.contains(mv) && 0 < c && l2[c - 1].0 == mv)
        }),
    decreases l.len() - cursor,
{
    if cursor < l.len() {
        let mv = l[cursor].0;
        if is_tt(tt, mv) {
            lemma_yield_good(l, cursor + 1, bad, tt, good);
        } else if good.contains(mv) {
        } else {
            lemma_yield_good(l.update(bad, l[cursor]).update(cursor, l[bad]), cursor + 1, bad + 1, tt, good);
        }
    }
}

proof fn lemma_yield_until(l: Seq<ScoredMove>, cursor: int, index: int, tt: Option<Move>)
    ensures
        ({
            let (c, r) = yield_until(l, cursor, index, tt);
            &&& (cursor >= index ==> c == cursor && r is None)
            &&& (cursor < index ==> cursor < c <= index)
            &&& (r matches Some(mv) ==> !is_tt(tt, mv) && l[c - 1].0 == mv)
        }),
    decreases index - cursor,
{
    if cursor < index && is_tt(tt, l[cursor].0) {
        lemma_yield_until(l, cursor + 1, index, tt);
    }
}

proof fn lemma_phase_tt(s: PickState, nm: NodeMoves)
    requires
        fits(s.pick, s.list.len() as int),
    ensures
        ({
            let (s1, r) = phase_tt(s, nm);
            &&& s1.list == s.list
            &&& s1.pick.tt_move == s.pick.tt_move
            &&& fits(s1.pick, s1.list.len() as int)
            &&& stage_rank(s.pick.stage) <= stage_rank(s1.pick.stage)
            &&& 1 <= stage_rank(s1.pick.stage)
            &&& (r is Some ==> s.pick.stage == Stage::TTMove && s1.pick.stage == Stage::GenerateNoisies)
            &&& (s.pick.stage != Stage::TTMove ==> s1 == s && r is None)
            &&& s1.pick.skip_quiets == s.pick.skip_quiets && s1.pick.skip_bad_noisies == s.pick.skip_bad_noisies
            &&& (r is Some ==> r == s.pick.tt_move && nm.tt_legal)
        }),
{
}

proof fn lemma_phase_gen_noisies(s: PickState, h: HistoryView, b: BoardView, nm: NodeMoves)
    requires
        fits(s.pick, s.list.len() as int),
        1 <= stage_rank(s.pick.stage),
    ensures
        ({
            let s2 = phase_gen_noisies(s, h, b, nm);
            &&& s2.pick.tt_move == s.pick.tt_move
            &&& fits(s2.pick, s2.list.len() as int)
            &&& stage_rank(s.pick.stage) <= stage_rank(s2.pick.stage)
            &&& 2 <= stage_rank(s2.pick.stage)
            &&& (s.pick.stage != Stage::GenerateNoisies ==> s2 == s)
            &&& s2.pick.skip_quiets == s.pick.skip_quiets && s2.pick.skip_bad_noisies == s.pick.skip_bad_noisies
            &&& (s2.list == s.list || (s.pick.stage == Stage::GenerateNoisies && s2.list == s.list + noisy_list(h, b, s.pick, nm)))
        }),
{
}

proof fn lemma_phase_good(s: PickState, nm: NodeMoves)
    requires
        fits(s.pick, s.list.len() as int),
        2 <= stage_rank(s.pick.stage),
    ensures
        ({
            let (s3, r) = phase_good(s, nm);
            &&& s3.pick.tt_move == s.pick.tt_move
            &&& fits(s3.pick, s3.list.len() as int)
            &&& stage_rank(s.pick.stage) <= stage_rank(s3.pick.stage)
            &&& (r is None ==> 3 <= stage_rank(s3.pick.stage))
            &&& (r matches Some(mv) ==> !is_tt(s.pick.tt_move, mv) && s3.pick.stage == Stage::YieldGoodNoisies
                && 0 < s3.pick.cursor && s3.list[s3.pick.cursor - 1].0 == mv)
            &&& (s.pick.stage != Stage::YieldGoodNoisies ==> s3 == s && r is None)
            &&& s3.pick.skip_quiets == s.pick.skip_quiets && s3.pick.skip_bad_noisies == s.pick.skip_bad_noisies
            &&& s3.list.len() == s.list.len()
            &&& (r matches Some(mv) ==> nm.good_noisies@.contains(mv))
        }),
{
    if s.pick.stage == Stage::YieldGoodNoisies {
        lemma_yield_good(s.list, s.pick.cursor, s.pick.bad_noisy_count, s.pick.tt_move, nm.good_noisies@);
    }
}

proof fn lemma_phase_gen_quiets(s: PickState, h: HistoryView, b: BoardView, ind: ContIndices, nm: NodeMoves)
    requires
        fits(s.pick, s.list.len() as int),
        3 <= stage_rank(s.pick.stage),
    ensures
        ({
            let s4 = phase_gen_quiets(s, h, b, ind, nm);
            &&& s4.pick.tt_move == s.pick.tt_move
            &&& fits(s4.pick, s4.list.len() as int)
            &&& stage_rank(s.pick.stage) <= stage_rank(s4.pick.stage)
            &&& 4 <= stage_rank(s4.pick.stage)
            &&& (s.pick.stage != Stage::GenerateQuiets ==> s4 == s)
            &&& s4.pick.skip_quiets == s.pick.skip_quiets && s4.pick.skip_bad_noisies == s.pick.skip_bad_noisies
            &&& (s.pick.skip_quiets ==> s4.list == s.list)
        }),
{
}

proof fn lemma_phase_quiets(s: PickState)
    requires
        fits(s.pick, s.list.len() as int),
        4 <= stage_rank(s.pick.stage),
    ensures
        ({
            let (s5, r) = phase_quiets(s);
            &&& s5.pick.tt_move == s.pick.tt_move
            &&& fits(s5.pick, s5.list.len() as int)
            &&& stage_rank(s.pick.stage) <= stage_rank(s5.pick.stage)
            &&& (r is None ==> 5 <= stage_rank(s5.pick.stage))
            &&& (r matches Some(mv) ==> !is_tt(s.pick.tt_move, mv) && s5.pick.stage == Stage::YieldQuiets
                && 0 < s5.pick.cursor && s5.list[s5.pick.cursor - 1].0 == mv)
            &&& (s.pick.stage != Stage::YieldQuiets ==> s5 == s && r is None)
            &&& s5.pick.skip_quiets == s.pick.skip_quiets && s5.pick.skip_bad_noisies == s.pick.skip_bad_noisies
            &&& (s.pick.skip_quiets ==> r is None)
            &&& s5.list == s.list
        }),
{
    if s.pick.stage == Stage::YieldQuiets && !s.pick.skip_quiets {
        lemma_yield_until(s.list, s.pick.cursor, s.list.len() as int, s.pick.tt_move);
    }
}

proof fn lemma_phase_bad(s: PickState)
    requires
        fits(s.pick, s.list.len() as int),
        5 <= stage_rank(s.pick.stage),
    ensures
        ({
            let (s6, r) = phase_bad(s);
            &&& s6.pick.tt_move == s.pick.tt_move
            &&& fits(s6.pick, s6.list.len() as int)
            &&& stage_rank(s.pick.stage) <= stage_rank(s6.pick.stage)
            &&& (r is None <==> s6.pick.stage == Stage::Finished)
            &&& (r matches Some(mv) ==> !is_tt(s.pick.tt_move, mv) && 0 < s6.pick.cursor
                && s6.list[s6.pick.cursor - 1].0 == mv)
            &&& (s.pick.stage == Stage::Finished ==> s6 == s && r is None)
            &&& s6.pick.skip_quiets == s.pick.skip_quiets && s6.pick.skip_bad_noisies == s.pick.skip_bad_noisies
            &&& (s.pick.skip_bad_noisies ==> r is None)
            &&& (r is Some ==> s6.pick.stage == Stage::YieldBadNoisies)
            &&& s6.list == s.list
        }),
{
    if s.pick.stage == Stage::YieldBadNoisies && !s.pick.skip_bad_noisies {
        lemma_yield_until(s.list, s.pick.cursor, s.pick.bad_noisy_count, s.pick.tt_move);
    }
}

/// The stages a move is handed out at: the transposition table move as the picker moves on
/// to generating noisy moves, then the good noisy moves, the quiet moves and the bad noisy
/// moves at their stages.
pub open spec fn hands_out(stage: Stage) -> bool {
    stage == Stage::GenerateNoisies || stage == Stage::YieldGoodNoisies || stage == Stage::YieldQuiets
        || stage == Stage::YieldBadNoisies
}

/// What every call of `next` keeps: the stage never goes back; no move is handed out exactly
/// when the picker has finished; the transposition table move is handed out at most once, at
/// the first stage and only when legal; every other move handed out is the one in the list just
/// before the cursor; a finished picker stays as it is; and the state keeps fitting its list.
pub proof fn lemma_next(s: PickState, h: HistoryView, b: BoardView, ind: ContIndices, nm: NodeMoves)
    requires
        fits(s.pick, s.list.len() as int),
    ensures
        stage_rank(s.pick.stage) <= stage_rank(next_spec(s, h, b, ind, nm).0.pick.stage),
        next_spec(s, h, b, ind, nm).1 is None <==> next_spec(s, h, b, ind, nm).0.pick.stage == Stage::Finished,
        s.pick.stage != Stage::TTMove ==> (next_spec(s, h, b, ind, nm).1 matches Some(mv) ==> !is_tt(s.pick.tt_move, mv)),
        s.pick.stage == Stage::TTMove && s.pick.tt_move is Some && nm.tt_legal ==> next_spec(s, h, b, ind, nm) == (at_stage(s, Stage::GenerateNoisies), s.pick.tt_move),
        s.pick.stage == Stage::Finished ==> next_spec(s, h, b, ind, nm) == (s, None::<Move>),
        next_spec(s, h, b, ind, nm).1 matches Some(mv) ==> (s.pick.stage == Stage::TTMove && is_tt(s.pick.tt_move, mv)
            && nm.tt_legal) || (0 < next_spec(s, h, b, ind, nm).0.pick.cursor && next_spec(s, h, b, ind, nm).0.list[next_spec(s, h, b, ind, nm).0.pick.cursor - 1].0 == mv),
        fits(next_spec(s, h, b, ind, nm).0.pick, next_spec(s, h, b, ind, nm).0.list.len() as int),
        next_spec(s, h, b, ind, nm).0.pick.tt_move == s.pick.tt_move,
        next_spec(s, h, b, ind, nm).0.pick.skip_quiets == s.pick.skip_quiets,
        next_spec(s, h, b, ind, nm).0.pick.skip_bad_noisies == s.pick.skip_bad_noisies,
        next_spec(s, h, b, ind, nm).1 matches Some(mv) ==> (is_tt(s.pick.tt_move, mv) ==> s.pick.stage == Stage::TTMove
            && nm.tt_legal),
        next_spec(s, h, b, ind, nm).1 is Some ==> hands_out(next_spec(s, h, b, ind, nm).0.pick.stage),
        s.pick.skip_quiets && next_spec(s, h, b, ind, nm).1 is Some ==> next_spec(s, h, b, ind, nm).0.pick.stage
            != Stage::YieldQuiets,
        s.pick.skip_bad_noisies && next_spec(s, h, b, ind, nm).1 is Some ==> next_spec(s, h, b, ind, nm).0.pick.stage
            != Stage::YieldBadNoisies,
        next_spec(s, h, b, ind, nm).1 matches Some(mv) ==> (next_spec(s, h, b, ind, nm).0.pick.stage
            == Stage::GenerateNoisies ==> is_tt(s.pick.tt_move, mv)),
        next_spec(s, h, b, ind, nm).1 matches Some(mv) ==> (next_spec(s, h, b, ind, nm).0.pick.stage
            == Stage::YieldGoodNoisies ==> nm.good_noisies@.contains(mv)),
        s.pick.skip_quiets ==> next_spec(s, h, b, ind, nm).0.list.len() == s.list.len()
            || next_spec(s, h, b, ind, nm).0.list.len() == s.list.len() + noisy_list(h, b, s.pick, nm).len(),
{
    lemma_phase_tt(s, nm);
    let (s1, r1) = phase_tt(s, nm);
    let res = next_spec(s, h, b, ind, nm);
    if r1 is None {
        lemma_phase_gen_noisies(s1, h, b, nm);
        let s2 = phase_gen_noisies(s1, h, b, nm);
        lemma_phase_good(s2, nm);
        let (s3, r3) = phase_good(s2, nm);
        if r3 is None {
            lemma_phase_gen_quiets(s3, h, b, ind, nm);
            let s4 = phase_gen_quiets(s3, h, b, ind, nm);
            lemma_phase_quiets(s4);
            let (s5, r5) = phase_quiets(s4);
            if r5 is None {
                lemma_phase_bad(s5);
                assert(res == phase_bad(s5));
            } else {
                assert(res == (s5, r5));
            }
        } else {
            assert(res == (s3, r3));
        }
    } else {
        assert(res == (s1, r1));
    }
}


impl MovePicker {
    /// Adds the noisy moves to the current ply, scored and sorted, and moves on to handing
    /// out the good ones.
    fn generate_noisies(&mut self, board: &Board, stack: &mut MoveStack, history: &History, moves: &NodeMoves)
        requires
            old(stack).wf(),
            old(stack)@.ply > 0,
            history.wf(),
            old(self)@.stage == Stage::GenerateNoisies,
            groups_scorable(board@, *moves),
        ensures
            ({
                let s = phase_gen_noisies(
                    PickState { pick: old(self)@, list: current_moves(old(stack)@) },
                    history@,
                    board@,
                    *moves,
                );
                &&& final(self)@ == s.pick
                &&& final(stack)@ == with_current(old(stack)@, s.list)
            }),
            final(stack).wf(),
    {
        let ghost v0 = stack@;
        let ghost cur = current_moves(stack@);
        let ghost gm = groups_moves(history@, board@, moves.noisies@, self@.neutral_ducks, self@.prune_noisy_neutrals);
        proof {
            lemma_add_current(stack@, gm);
            lemma_groups_moves_from(history@, board@, moves.noisies@, self@.neutral_ducks, self@.prune_noisy_neutrals);
        }
        let start = stack.add_moves(board, &moves.noisies, self.neutral_ducks, self.prune_noisy_neutrals, history);
        proof {
            lemma_with_current(v0, cur + gm);
            assert forall|k: int| start <= k < current_moves(stack@).len() implies victim_present(
                board@,
                (#[trigger] current_moves(stack@)[k]).0.flag,
                current_moves(stack@)[k].0.dest,
            ) by {
                let m = gm[k - start].0;
                assert(current_moves(stack@)[k] == gm[k - start]);
                assert(from_groups(m, moves.noisies@));
                let j = choose|j: int| 0 <= j < moves.noisies@.len() && #[trigger] moves.noisies@[j].src == m.src && moves.noisies@[j].dest == m.dest && moves.noisies@[j].flag == m.flag;
                assert(victim_present(board@, moves.noisies@[j].flag, moves.noisies@[j].dest));
            }
        }
        self.score_noisies(board, stack, history, start);
        self.stage = Stage::YieldGoodNoisies;
        proof {
            let ext = cur + gm;
            assert(ext.take(start as int) =~= cur);
            assert(ext.skip(start as int) =~= gm);
            let s = phase_gen_noisies(PickState { pick: old(self)@, list: cur }, history@, board@, *moves);
            lemma_with_current_twice(v0, cur + gm, s.list);
        }
    }

    /// Adds the quiet moves to the current ply, scored and sorted, and moves on to handing
    /// them out.
    fn generate_quiets(&mut self, board: &Board, stack: &mut MoveStack, history: &History, indices: ContIndices, moves: &NodeMoves)
        requires
            old(stack).wf(),
            old(stack)@.ply > 0,
            history.wf(),
            old(self)@.stage == Stage::GenerateQuiets,
            !old(self)@.skip_quiets,
            groups_scorable(board@, *moves),
        ensures
            ({
                let s = phase_gen_quiets(
                    PickState { pick: old(self)@, list: current_moves(old(stack)@) },
                    history@,
                    board@,
                    indices,
                    *moves,
                );
                &&& final(self)@ == s.pick
                &&& final(stack)@ == with_current(old(stack)@, s.list)
            }),
            final(stack).wf(),
    {
        let ghost v0 = stack@;
        let ghost cur = current_moves(stack@);
        let ghost gm = groups_moves(history@, board@, moves.quiets@, self@.neutral_ducks, self@.prune_quiet_neutrals);
        proof {
            lemma_add_current(stack@, gm);
            lemma_groups_moves_from(history@, board@, moves.quiets@, self@.neutral_ducks, self@.prune_quiet_neutrals);
        }
        let start = stack.add_moves(board, &moves.quiets, self.neutral_ducks, self.prune_quiet_neutrals, history);
        proof {
            lemma_with_current(v0, cur + gm);
            assert forall|k: int| start <= k < current_moves(stack@).len() implies has_mover(
                board@,
                (#[trigger] current_moves(stack@)[k]).0,
            ) by {
                let m = gm[k - start].0;
                assert(current_moves(stack@)[k] == gm[k - start]);
                assert(from_groups(m, moves.quiets@));
                let j = choose|j: int| 0 <= j < moves.quiets@.len() && #[trigger] moves.quiets@[j].src == m.src && moves.quiets@[j].dest == m.dest && moves.quiets@[j].flag == m.flag;
                assert(board@.squares[moves.quiets@[j].src@] is Some);
            }
        }
        self.score_quiets(board, stack, history, indices, start);
        self.stage = Stage::YieldQuiets;
        proof {
            let ext = cur + gm;
            assert(ext.take(start as int) =~= cur);
            assert(ext.skip(start as int) =~= gm);
            let s = phase_gen_quiets(PickState { pick: old(self)@, list: cur }, history@, board@, indices, *moves);
            lemma_with_current_twice(v0, cur + gm, s.list);
        }
    }
}

impl MovePicker {
    /// The next move to search, or `None` once every stage is done.
    pub fn next(
        &mut self,
        board: &Board,
        stack: &mut MoveStack,
        history: &History,
        indices: ContIndices,
        moves: &NodeMoves,
    ) -> (r: Option<Move>)
        requires
            old(stack).wf(),
            old(stack)@.ply > 0,
            history.wf(),
            fits(old(self)@, current_moves(old(stack)@).len() as int),
            groups_scorable(board@, *moves),
        ensures
            ({
                let (s, r0) = next_spec(
                    PickState { pick: old(self)@, list: current_moves(old(stack)@) },
                    history@,
                    board@,
                    indices,
                    *moves,
                );
                &&& r == r0
                &&& final(self)@ == s.pick
                &&& final(stack)@ == with_current(old(stack)@, s.list)
            }),
            final(stack).wf(),
            fits(final(self)@, current_moves(final(stack)@).len() as int),
            stage_rank(old(self)@.stage) <= stage_rank(final(self)@.stage),
            r is None <==> final(self)@.stage == Stage::Finished,
            old(self)@.stage != Stage::TTMove ==> (r matches Some(mv) ==> !is_tt(old(self)@.tt_move, mv)),
            old(self)@.stage == Stage::Finished ==> r is None && final(self)@ == old(self)@ && final(stack)@
                == old(stack)@,
    {
        let ghost s0 = PickState { pick: self@, list: current_moves(stack@) };
        let ghost v0 = stack@;
        let r = self.step(board, stack, history, indices, moves);
        proof {
            lemma_next(s0, history@, board@, indices, *moves);
            lemma_with_current(v0, next_spec(s0, history@, board@, indices, *moves).0.list);
            lemma_with_current_self(v0);
        }
        r
    }

    #[verifier::rlimit(60)]
    #[verifier::spinoff_prover]
    fn step(
        &mut self,
        board: &Board,
        stack: &mut MoveStack,
        history: &History,
        indices: ContIndices,
        moves: &NodeMoves,
    ) -> (r: Option<Move>)
        requires
            old(stack).wf(),
            old(stack)@.ply > 0,
            history.wf(),
            fits(old(self)@, current_moves(old(stack)@).len() as int),
            groups_scorable(board@, *moves),
        ensures
            ({
                let (s, r0) = next_spec(
                    PickState { pick: old(self)@, list: current_moves(old(stack)@) },
                    history@,
                    board@,
                    indices,
                    *moves,
                );
                &&& r == r0
                &&& final(self)@ == s.pick
                &&& final(stack)@ == with_current(old(stack)@, s.list)
            }),
            final(stack).wf(),
    {
        let ghost s0 = PickState { pick: self@, list: current_moves(stack@) };
        let ghost v0 = stack@;
        proof {
            lemma_with_current(v0, s0.list);
            lemma_with_current_twice(v0, s0.list, s0.list);
            lemma_phase_tt(s0, *moves);
        }
        let ghost s1 = phase_tt(s0, *moves).0;
        if self.stage == Stage::TTMove {
            self.stage = Stage::GenerateNoisies;
            if let Some(mv) = self.tt_move {
                if moves.tt_legal {
                    proof {
                        lemma_with_current_self(v0);
                    }
                    return Some(mv);
                }
            }
        }
        assert(self@ == s1.pick && current_moves(stack@) == s1.list && stack@ == with_current(v0, s1.list)) by {
            lemma_with_current_self(v0);
        }
        let ghost s2 = phase_gen_noisies(s1, history@, board@, *moves);
        if self.stage == Stage::GenerateNoisies {
            self.generate_noisies(board, stack, history, moves);
            proof {
                lemma_with_current_twice(v0, s1.list, s2.list);
            }
        }
        assert(self@ == s2.pick && current_moves(stack@) == s2.list && stack@ == with_current(v0, s2.list) && stack.wf());
        let ghost s3 = phase_good(s2, *moves).0;
        if self.stage == Stage::YieldGoodNoisies {
            let ghost v2 = stack@;
            let found = self.yield_good_noisy(stack, &moves.good_noisies);
            proof {
                lemma_with_current_twice(v0, s2.list, s3.list);
                lemma_with_current(v2, s3.list);
            }
            if let Some(mv) = found {
                return Some(mv);
            }
            self.stage = Stage::GenerateQuiets;
        }
        assert(self@ == s3.pick && current_moves(stack@) == s3.list && stack@ == with_current(v0, s3.list) && stack.wf());
        let ghost s4 = phase_gen_quiets(s3, history@, board@, indices, *moves);
        if self.stage == Stage::GenerateQuiets {
            if self.skip_quiets {
                self.stage = Stage::YieldBadNoisies;
            } else {
                self.generate_quiets(board, stack, history, indices, moves);
                proof {
                    lemma_with_current_twice(v0, s3.list, s4.list);
                }
            }
        }
        assert(self@ == s4.pick && current_moves(stack@) == s4.list && stack@ == with_current(v0, s4.list) && stack.wf());
        let ghost s5 = phase_quiets(s4).0;
        if self.stage == Stage::YieldQuiets {
            if !self.skip_quiets {
                let len = stack.len();
                let found = self.yield_until(stack, len);
                if let Some(mv) = found {
                    return Some(mv);
                }
            }
            self.stage = Stage::YieldBadNoisies;
            self.cursor = 0;
        }
        assert(self@ == s5.pick && current_moves(stack@) == s5.list);
        proof {
            lemma_phase_gen_noisies(s1, history@, board@, *moves);
            lemma_phase_good(s2, *moves);
            lemma_phase_gen_quiets(s3, history@, board@, indices, *moves);
            lemma_phase_quiets(s4);
        }
        if self.stage == Stage::YieldBadNoisies {
            if !self.skip_bad_noisies {
                let count = self.bad_noisy_count;
                let found = self.yield_until(stack, count);
                if let Some(mv) = found {
                    return Some(mv);
                }
            }
            self.stage = Stage::Finished;
        }
        None
    }
}


/// One call of `next` from state `s`, handing out `r`, after which the caller may have told
/// the picker to skip quiet or bad noisy moves: state `t`.
pub open spec fn picker_step(s: PickState, t: PickState, r: Option<Move>, h: HistoryView, b: BoardView, ind: ContIndices, nm: NodeMoves) -> bool {
    let (u, r0) = next_spec(s, h, b, ind, nm);
    &&& r == r0
    &&& t.list == u.list
    &&& t.pick == (PickerView {
        skip_quiets: t.pick.skip_quiets,
        skip_bad_noisies: t.pick.skip_bad_noisies,
        ..u.pick
    })
    &&& (u.pick.skip_quiets ==> t.pick.skip_quiets)
    &&& (u.pick.skip_bad_noisies ==> t.pick.skip_bad_noisies)
}

/// A run of calls of `next` on one node: `results[i]` is what the call from `states[i]` hands
/// out, and `states[i + 1]` the state after it.
pub open spec fn picker_run(states: Seq<PickState>, results: Seq<Option<Move>>, h: HistoryView, b: BoardView, ind: ContIndices, nm: NodeMoves) -> bool {
    &&& states.len() == results.len() + 1
    &&& forall|i: int| 0 <= i < results.len() ==> #[trigger] step_at(states, results, i, h, b, ind, nm)
}

/// The call of a run from `states[i]`.
pub open spec fn step_at(states: Seq<PickState>, results: Seq<Option<Move>>, i: int, h: HistoryView, b: BoardView, ind: ContIndices, nm: NodeMoves) -> bool {
    picker_step(states[i], states[i + 1], results[i], h, b, ind, nm)
}

proof fn lemma_run_prefix(states: Seq<PickState>, results: Seq<Option<Move>>, h: HistoryView, b: BoardView, ind: ContIndices, nm: NodeMoves, k: int)
    requires
        picker_run(states, results, h, b, ind, nm),
        fits(states[0].pick, states[0].list.len() as int),
        0 <= k < states.len(),
    ensures
        forall|i: int| 0 <= i <= k ==> fits(#[trigger] states[i].pick, states[i].list.len() as int)
            && states[i].pick.tt_move == states[0].pick.tt_move,
        forall|i: int, j: int| 0 <= i <= j <= k ==> stage_rank(#[trigger] states[i].pick.stage) <= stage_rank(
            #[trigger] states[j].pick.stage,
        ) && (states[i].pick.skip_quiets ==> states[j].pick.skip_quiets) && (states[i].pick.skip_bad_noisies
            ==> states[j].pick.skip_bad_noisies),
    decreases k,
{
    if k > 0 {
        lemma_run_prefix(states, results, h, b, ind, nm, k - 1);
        assert(step_at(states, results, k - 1, h, b, ind, nm));
        lemma_next(states[k - 1], h, b, ind, nm);
        let u = next_spec(states[k - 1], h, b, ind, nm).0;
        assert(states[k].pick.stage == u.pick.stage && states[k].pick.cursor == u.pick.cursor);
        assert(fits(states[k].pick, states[k].list.len() as int));
    }
}

/// Over a run of calls of `next` on one node, from any state that fits its list:
/// - the transposition table move is handed out only by the first call, at the first stage
///   and when legal, and from a fresh picker with a legal one it is what the first call gives;
/// - every move handed out is handed out at a stage that hands out moves, and those stages
///   never go back: the good noisy moves come before the quiet moves, which come before the
///   bad noisy moves;
/// - once quiet moves are skipped none is handed out nor added to the list, and once bad noisy
///   moves are skipped none of them is handed out.
pub proof fn lemma_picker_run(states: Seq<PickState>, results: Seq<Option<Move>>, h: HistoryView, b: BoardView, ind: ContIndices, nm: NodeMoves)
    requires
        picker_run(states, results, h, b, ind, nm),
        fits(states[0].pick, states[0].list.len() as int),
    ensures
        forall|i: int| 0 <= i < results.len() ==> (#[trigger] results[i] matches Some(m) ==> (is_tt(
            states[0].pick.tt_move,
            m,
        ) ==> i == 0 && states[0].pick.stage == Stage::TTMove && nm.tt_legal)),
        results.len() > 0 && states[0].pick.stage == Stage::TTMove && states[0].pick.tt_move is Some
            && nm.tt_legal ==> results[0] == states[0].pick.tt_move,
        forall|i: int| 0 <= i < results.len() ==> (#[trigger] results[i] is Some ==> hands_out(states[i + 1].pick.stage)),
        forall|i: int, j: int|
            0 <= i < j < results.len() && #[trigger] results[i] is Some && #[trigger] results[j] is Some
                ==> stage_rank(states[i + 1].pick.stage) <= stage_rank(states[j + 1].pick.stage),
        forall|i: int, j: int|
            0 <= i <= j < results.len() && (#[trigger] states[i]).pick.skip_quiets && #[trigger] results[j] is Some
                ==> states[j + 1].pick.stage != Stage::YieldQuiets,
        forall|i: int, j: int|
            0 <= i <= j < results.len() && (#[trigger] states[i]).pick.skip_bad_noisies && #[trigger] results[j] is Some
                ==> states[j + 1].pick.stage != Stage::YieldBadNoisies,
        forall|i: int, j: int|
            0 <= i <= j < results.len() && (#[trigger] states[i]).pick.skip_bad_noisies ==> (#[trigger] results[j] matches Some(m)
                ==> is_tt(states[0].pick.tt_move, m) || nm.good_noisies@.contains(m) || states[j + 1].pick.stage
                == Stage::YieldQuiets),
        forall|i: int, j: int|
            0 <= i <= j < results.len() && (#[trigger] states[i]).pick.skip_quiets ==> (#[trigger] results[j] matches Some(m)
                ==> is_tt(states[0].pick.tt_move, m) || nm.good_noisies@.contains(m) || states[j + 1].pick.stage
                == Stage::YieldBadNoisies),
        forall|i: int, j: int|
            0 <= i <= j < results.len() && (#[trigger] states[i]).pick.skip_quiets ==> (#[trigger] states[j
                + 1]).list.len() == states[j].list.len() || states[j + 1].list.len() == states[j].list.len()
                + noisy_list(h, b, states[j].pick, nm).len(),
{
    let n = results.len() as int;
    lemma_run_prefix(states, results, h, b, ind, nm, n);
    assert forall|i: int| 0 <= i < n implies {
        &&& (results[i] matches Some(m) ==> (is_tt(states[0].pick.tt_move, m) ==> i == 0 && states[0].pick.stage
            == Stage::TTMove && nm.tt_legal))
        &&& (results[i] is Some ==> hands_out(states[i + 1].pick.stage))
        &&& stage_rank(states[i].pick.stage) <= stage_rank(states[i + 1].pick.stage)
        &&& (states[i].pick.skip_quiets && results[i] is Some ==> states[i + 1].pick.stage != Stage::YieldQuiets)
        &&& (states[i].pick.skip_bad_noisies && results[i] is Some ==> states[i + 1].pick.stage
            != Stage::YieldBadNoisies)
        &&& (results[i] matches Some(m) ==> is_tt(states[0].pick.tt_move, m) || nm.good_noisies@.contains(m)
            || states[i + 1].pick.stage == Stage::YieldQuiets || states[i + 1].pick.stage == Stage::YieldBadNoisies)
    } by {
        assert(step_at(states, results, i, h, b, ind, nm));
        lemma_next(states[i], h, b, ind, nm);
        if i > 0 {
            assert(stage_rank(states[1].pick.stage) <= stage_rank(states[i].pick.stage));
            assert(step_at(states, results, 0, h, b, ind, nm));
            lemma_next(states[0], h, b, ind, nm);
        }
    }
    if n > 0 {
        assert(step_at(states, results, 0, h, b, ind, nm));
        lemma_next(states[0], h, b, ind, nm);
    }
    assert forall|i: int, j: int|
        0 <= i < j < n && #[trigger] results[i] is Some && #[trigger] results[j] is Some implies stage_rank(
        states[i + 1].pick.stage,
    ) <= stage_rank(states[j + 1].pick.stage) by {
        assert(stage_rank(states[i + 1].pick.stage) <= stage_rank(states[j].pick.stage));
        assert(stage_rank(states[j].pick.stage) <= stage_rank(states[j + 1].pick.stage));
    }
    assert forall|i: int, j: int|
        0 <= i <= j < n && (#[trigger] states[i]).pick.skip_quiets && #[trigger] results[j] is Some implies states[j
        + 1].pick.stage != Stage::YieldQuiets by {
        assert(states[j].pick.skip_quiets);
    }
    assert forall|i: int, j: int|
        0 <= i <= j < n && (#[trigger] states[i]).pick.skip_bad_noisies && #[trigger] results[j] is Some implies states[j
        + 1].pick.stage != Stage::YieldBadNoisies by {
        assert(states[j].pick.skip_bad_noisies);
    }
    assert forall|i: int, j: int|
        0 <= i <= j < n && (#[trigger] states[i]).pick.skip_bad_noisies implies (#[trigger] results[j] matches Some(m)
            ==> is_tt(states[0].pick.tt_move, m) || nm.good_noisies@.contains(m) || states[j + 1].pick.stage
            == Stage::YieldQuiets) by {
        assert(states[j].pick.skip_bad_noisies);
    }
    assert forall|i: int, j: int|
        0 <= i <= j < n && (#[trigger] states[i]).pick.skip_quiets implies (#[trigger] results[j] matches Some(m)
            ==> is_tt(states[0].pick.tt_move, m) || nm.good_noisies@.contains(m) || states[j + 1].pick.stage
            == Stage::YieldBadNoisies) by {
        assert(states[j].pick.skip_quiets);
    }
    assert forall|i: int, j: int|
        0 <= i <= j < n && (#[trigger] states[i]).pick.skip_quiets implies (#[trigger] states[j + 1]).list.len()
            == states[j].list.len() || states[j + 1].list.len() == states[j].list.len() + noisy_list(
            h,
            b,
            states[j].pick,
            nm,
        ).len() by {
        assert(states[j].pick.skip_quiets);
        assert(step_at(states, results, j, h, b, ind, nm));
        lemma_next(states[j], h, b, ind, nm);
    }
}


/// Whether scores never rise along `l[a..b]`.
pub open spec fn desc_range(l: Seq<ScoredMove>, a: int, b: int) -> bool {
    forall|i: int, j: int| a <= i <= j < b ==> #[trigger] l[i].1 >= #[trigger] l[j].1
}

/// Whether every move of `l[a..b]` scores at least every move of `l[c..d]`.
pub open spec fn dominates(l: Seq<ScoredMove>, a: int, b: int, c: int, d: int) -> bool {
    forall|i: int, j: int| a <= i < b && c <= j < d ==> #[trigger] l[i].1 >= #[trigger] l[j].1
}

proof fn lemma_yield_good_order(l: Seq<ScoredMove>, cursor: int, bad: int, tt: Option<Move>, good: Seq<Move>)
    requires
        0 <= bad <= cursor <= l.len(),
        desc_range(l, cursor, l.len() as int),
        desc_range(l, 0, bad),
        dominates(l, 0, bad, cursor, l.len() as int),
    ensures
        ({
            let (l2, c, bad2, r) = yield_good(l, cursor, bad, tt, good);
            &&& l2.len() == l.len()
            &&& cursor <= c
            &&& (r is None ==> c == l.len())
            &&& (r is Some ==> c > cursor && forall|k: int| c - 1 <= k < l.len() ==> #[trigger] l2[k] == l[k])
            &&& 0 <= bad2 <= c
            &&& desc_range(l2, c, l.len() as int)
            &&& desc_range(l2, 0, bad2)
            &&& dominates(l2, 0, bad2, c, l.len() as int)
        }),
    decreases l.len() - cursor,
{
    if cursor < l.len() {
        let mv = l[cursor].0;
        if is_tt(tt, mv) {
            lemma_yield_good_order(l, cursor + 1, bad, tt, good);
        } else if good.contains(mv) {
        } else {
            let l1 = l.update(bad, l[cursor]).update(cursor, l[bad]);
            assert(l1.len() == l.len());
            assert forall|k: int| cursor < k < l.len() implies #[trigger] l1[k] == l[k] by {}
            assert(l1[bad] == l[cursor]);
            assert forall|k: int| 0 <= k < bad implies #[trigger] l1[k] == l[k] by {}
            assert(desc_range(l1, cursor + 1, l.len() as int)) by {
                assert forall|i: int, j: int| cursor + 1 <= i <= j < l.len() implies #[trigger] l1[i].1 >= #[trigger] l1[j].1 by {
                    assert(l[i].1 >= l[j].1);
                }
            }
            assert(desc_range(l1, 0, bad + 1)) by {
                assert forall|i: int, j: int| 0 <= i <= j < bad + 1 implies #[trigger] l1[i].1 >= #[trigger] l1[j].1 by {
                    if j < bad {
                        assert(l[i].1 >= l[j].1);
                    } else if i < bad {
                        assert(l[i].1 >= l[cursor].1);
                    }
                }
            }
            assert(dominates(l1, 0, bad + 1, cursor + 1, l.len() as int)) by {
                assert forall|i: int, j: int| 0 <= i < bad + 1 && cursor + 1 <= j < l.len() implies #[trigger] l1[i].1
                    >= #[trigger] l1[j].1 by {
                    if i < bad {
                        assert(l[i].1 >= l[j].1);
                    } else {
                        assert(l[cursor].1 >= l[j].1);
                    }
                }
            }
            lemma_yield_good_order(l1, cursor + 1, bad + 1, tt, good);
            let (l2, c, bad2, r) = yield_good(l1, cursor + 1, bad + 1, tt, good);
            if r is Some {
                assert forall|k: int| c - 1 <= k < l.len() implies #[trigger] l2[k] == l[k] by {
                    assert(l2[k] == l1[k]);
                }
            }
        }
    }
}

/// What the picker's state says of the order of its list, from a fresh picker on an empty ply:
/// the moves still to be scanned at each yielding stage come best first, and the noisy moves
/// that failed the exchange evaluation stand at the front in the order they were found, each
/// at least as good as every move still to scan.
pub open spec fn order_inv(s: PickState) -> bool {
    let l = s.list;
    let c = s.pick.cursor;
    let bd = s.pick.bad_noisy_count;
    let n = l.len() as int;
    match s.pick.stage {
        Stage::TTMove | Stage::GenerateNoisies => n == 0 && c == 0 && bd == 0,
        Stage::YieldGoodNoisies => 0 <= bd <= c <= n && desc_range(l, c, n) && desc_range(l, 0, bd) && dominates(
            l,
            0,
            bd,
            c,
            n,
        ),
        Stage::GenerateQuiets => c == n && 0 <= bd <= n && desc_range(l, 0, bd),
        Stage::YieldQuiets => 0 <= bd <= c <= n && desc_range(l, c, n) && desc_range(l, 0, bd),
        Stage::YieldBadNoisies => 0 <= bd <= n && 0 <= c <= n && desc_range(l, 0, bd),
        Stage::Finished => true,
    }
}

/// The move just before the cursor scores at least every move after it that its stage still
/// hands out.
pub open spec fn last_leads(s: PickState) -> bool {
    let l = s.list;
    let c = s.pick.cursor;
    &&& 0 < c <= l.len()
    &&& if s.pick.stage == Stage::YieldBadNoisies {
        c <= s.pick.bad_noisy_count && desc_range(l, c - 1, s.pick.bad_noisy_count)
    } else {
        desc_range(l, c - 1, l.len() as int)
    }
}

/// The score of the move a state has just handed out from its list.
pub open spec fn last_score(s: PickState) -> int {
    s.list[s.pick.cursor - 1].1 as int
}

proof fn lemma_order_gen_noisies(s: PickState, h: HistoryView, b: BoardView, nm: NodeMoves)
    requires
        order_inv(s),
    ensures
        order_inv(phase_gen_noisies(s, h, b, nm)),
{
    if s.pick.stage == Stage::GenerateNoisies {
        let gm = groups_moves(h, b, nm.noisies@, s.pick.neutral_ducks, s.pick.prune_noisy_neutrals);
        lemma_sort_desc(gm.map_values(|m: ScoredMove| noisy_score(h, b, s.pick.tt_move, m)));
        let l2 = phase_gen_noisies(s, h, b, nm).list;
        let q = noisy_list(h, b, s.pick, nm);
        assert(l2 =~= q);
        assert(desc_range(l2, 0, l2.len() as int)) by {
            assert forall|i: int, j: int| 0 <= i <= j < l2.len() implies #[trigger] l2[i].1 >= #[trigger] l2[j].1 by {
                assert(q[i].1 >= q[j].1);
            }
        }
    }
}

proof fn lemma_order_good(s: PickState, nm: NodeMoves)
    requires
        order_inv(s),
    ensures
        order_inv(phase_good(s, nm).0),
        phase_good(s, nm).1 is Some ==> last_leads(phase_good(s, nm).0),
        phase_good(s, nm).1 is Some && s.pick.stage == Stage::YieldGoodNoisies && last_leads(s) ==> last_score(
            phase_good(s, nm).0,
        ) <= last_score(s),
{
    if s.pick.stage == Stage::YieldGoodNoisies {
        let l = s.list;
        lemma_yield_good(l, s.pick.cursor, s.pick.bad_noisy_count, s.pick.tt_move, nm.good_noisies@);
        lemma_yield_good_order(l, s.pick.cursor, s.pick.bad_noisy_count, s.pick.tt_move, nm.good_noisies@);
        let (t, r) = phase_good(s, nm);
        if r is Some {
            let l2 = t.list;
            let c = t.pick.cursor;
            assert(desc_range(l2, c - 1, l.len() as int)) by {
                assert forall|i: int, j: int| c - 1 <= i <= j < l.len() implies #[trigger] l2[i].1 >= #[trigger] l2[j].1 by {
                    assert(l2[i] == l[i] && l2[j] == l[j]);
                }
            }
            assert(l2[c - 1] == l[c - 1]);
            if last_leads(s) {
                assert(l[s.pick.cursor - 1].1 >= l[c - 1].1);
            }
        }
    }
}

proof fn lemma_order_gen_quiets(s: PickState, h: HistoryView, b: BoardView, ind: ContIndices, nm: NodeMoves)
    requires
        order_inv(s),
    ensures
        order_inv(phase_gen_quiets(s, h, b, ind, nm)),
{
    if s.pick.stage == Stage::GenerateQuiets && !s.pick.skip_quiets {
        let q = quiet_list(h, b, ind, s.pick, nm);
        let gm = groups_moves(h, b, nm.quiets@, s.pick.neutral_ducks, s.pick.prune_quiet_neutrals);
        lemma_sort_desc(gm.map_values(|m: ScoredMove| quiet_score(h, b, ind, s.pick.tt_move, s.pick.neutral_ducks, m)));
        let l = s.list;
        let l4 = phase_gen_quiets(s, h, b, ind, nm).list;
        assert(l4 == l + q);
        assert(desc_range(l4, l.len() as int, l4.len() as int)) by {
            assert forall|i: int, j: int| l.len() <= i <= j < l4.len() implies #[trigger] l4[i].1 >= #[trigger] l4[j].1 by {
                assert(l4[i] == q[i - l.len()] && l4[j] == q[j - l.len()]);
                assert(q[i - l.len()].1 >= q[j - l.len()].1);
            }
        }
        assert(desc_range(l4, 0, s.pick.bad_noisy_count)) by {
            assert forall|i: int, j: int| 0 <= i <= j < s.pick.bad_noisy_count implies #[trigger] l4[i].1 >= #[trigger] l4[j].1 by {
                assert(l4[i] == l[i] && l4[j] == l[j]);
                assert(l[i].1 >= l[j].1);
            }
        }
    }
}

proof fn lemma_order_quiets(s: PickState)
    requires
        order_inv(s),
    ensures
        order_inv(phase_quiets(s).0),
        phase_quiets(s).1 is Some ==> last_leads(phase_quiets(s).0),
        phase_quiets(s).1 is Some && s.pick.stage == Stage::YieldQuiets && last_leads(s) ==> last_score(
            phase_quiets(s).0,
        ) <= last_score(s),
{
    if s.pick.stage == Stage::YieldQuiets && !s.pick.skip_quiets {
        let l = s.list;
        lemma_yield_until(l, s.pick.cursor, l.len() as int, s.pick.tt_move);
        let (t, r) = phase_quiets(s);
        if r is Some {
            let c = t.pick.cursor;
            assert(desc_range(l, c - 1, l.len() as int)) by {
                assert forall|i: int, j: int| c - 1 <= i <= j < l.len() implies #[trigger] l[i].1 >= #[trigger] l[j].1 by {
                    assert(l[i].1 >= l[j].1);
                }
            }
            if last_leads(s) {
                assert(l[s.pick.cursor - 1].1 >= l[c - 1].1);
            }
        }
    }
}

proof fn lemma_order_bad(s: PickState)
    requires
        order_inv(s),
    ensures
        order_inv(phase_bad(s).0),
        phase_bad(s).1 is Some ==> last_leads(phase_bad(s).0),
        phase_bad(s).1 is Some && s.pick.stage == Stage::YieldBadNoisies && last_leads(s) ==> last_score(
            phase_bad(s).0,
        ) <= last_score(s),
{
    if s.pick.stage == Stage::YieldBadNoisies && !s.pick.skip_bad_noisies {
        let l = s.list;
        let bd = s.pick.bad_noisy_count;
        lemma_yield_until(l, s.pick.cursor, bd, s.pick.tt_move);
        let (t, r) = phase_bad(s);
        if r is Some {
            let c = t.pick.cursor;
            assert(desc_range(l, c - 1, bd)) by {
                assert forall|i: int, j: int| c - 1 <= i <= j < bd implies #[trigger] l[i].1 >= #[trigger] l[j].1 by {
                    assert(l[i].1 >= l[j].1);
                }
            }
            if last_leads(s) {
                assert(l[s.pick.cursor - 1].1 >= l[c - 1].1);
            }
        }
    }
}

proof fn lemma_order_step(s: PickState, h: HistoryView, b: BoardView, ind: ContIndices, nm: NodeMoves)
    requires
        order_inv(s),
    ensures
        order_inv(next_spec(s, h, b, ind, nm).0),
        next_spec(s, h, b, ind, nm).1 is Some && (next_spec(s, h, b, ind, nm).0.pick.stage == Stage::YieldGoodNoisies
            || next_spec(s, h, b, ind, nm).0.pick.stage == Stage::YieldQuiets || next_spec(s, h, b, ind, nm).0.pick.stage
            == Stage::YieldBadNoisies) ==> last_leads(next_spec(s, h, b, ind, nm).0),
        next_spec(s, h, b, ind, nm).1 is Some && last_leads(s) && next_spec(s, h, b, ind, nm).0.pick.stage
            == s.pick.stage && (s.pick.stage == Stage::YieldGoodNoisies || s.pick.stage == Stage::YieldQuiets
            || s.pick.stage == Stage::YieldBadNoisies) ==> last_score(next_spec(s, h, b, ind, nm).0) <= last_score(s),
{
    let res = next_spec(s, h, b, ind, nm);
    let (s1, r1) = phase_tt(s, nm);
    assert(order_inv(s1));
    if r1 is None {
        lemma_order_gen_noisies(s1, h, b, nm);
        let s2 = phase_gen_noisies(s1, h, b, nm);
        lemma_order_good(s2, nm);
        let (s3, r3) = phase_good(s2, nm);
        if s.pick.stage == Stage::YieldGoodNoisies {
            assert(s2 == s);
        }
        if r3 is None {
            lemma_order_gen_quiets(s3, h, b, ind, nm);
            let s4 = phase_gen_quiets(s3, h, b, ind, nm);
            lemma_order_quiets(s4);
            let (s5, r5) = phase_quiets(s4);
            if s.pick.stage == Stage::YieldQuiets {
                assert(s4 == s);
            }
            if r5 is None {
                lemma_order_bad(s5);
                if s.pick.stage == Stage::YieldBadNoisies {
                    assert(s5 == s);
                }
                assert(res == phase_bad(s5));
            } else {
                assert(res == (s5, r5));
            }
        } else {
            assert(res == (s3, r3));
        }
    } else {
        assert(res == (s1, r1));
    }
}

/// From a fresh picker on an empty ply, over a run of calls of `next`: each move handed out at a
/// stage that yields from the list is the one just before the cursor, and of any two moves
/// handed out at the same such stage the later never scores higher. Within the good noisy
/// moves, the quiet moves and the bad noisy moves, moves come out best first.
pub proof fn lemma_picker_run_order(states: Seq<PickState>, results: Seq<Option<Move>>, h: HistoryView, b: BoardView, ind: ContIndices, nm: NodeMoves)
    requires
        picker_run(states, results, h, b, ind, nm),
        states[0].pick.stage == Stage::TTMove,
        states[0].list.len() == 0,
        states[0].pick.cursor == 0,
        states[0].pick.bad_noisy_count == 0,
    ensures
        forall|i: int| 0 <= i < states.len() ==> order_inv(#[trigger] states[i]),
        forall|i: int|
            0 <= i && i + 1 < results.len() && #[trigger] results[i] is Some && results[i + 1] is Some
                && states[i + 1].pick.stage == states[i + 2].pick.stage && (states[i + 1].pick.stage
                == Stage::YieldGoodNoisies || states[i + 1].pick.stage == Stage::YieldQuiets || states[i
                + 1].pick.stage == Stage::YieldBadNoisies) ==> results[i] == Some(states[i + 1].list[states[i
                + 1].pick.cursor - 1].0) && results[i + 1] == Some(states[i + 2].list[states[i + 2].pick.cursor
                - 1].0) && last_score(states[i + 2]) <= last_score(states[i + 1]),
        forall|i: int, j: int|
            0 <= i < j < results.len() && #[trigger] results[i] is Some && #[trigger] results[j] is Some
                && states[i + 1].pick.stage == states[j + 1].pick.stage && yields_from_list(states[i + 1].pick.stage)
                ==> last_score(states[j + 1]) <= last_score(states[i + 1]),
{
    lemma_order_prefix(states, results, h, b, ind, nm, states.len() - 1);
    assert forall|i: int|
        0 <= i && i + 1 < results.len() && #[trigger] results[i] is Some && results[i + 1] is Some
            && states[i + 1].pick.stage == states[i + 2].pick.stage && (states[i + 1].pick.stage
            == Stage::YieldGoodNoisies || states[i + 1].pick.stage == Stage::YieldQuiets || states[i
            + 1].pick.stage == Stage::YieldBadNoisies) implies results[i] == Some(states[i + 1].list[states[i
            + 1].pick.cursor - 1].0) && results[i + 1] == Some(states[i + 2].list[states[i + 2].pick.cursor
            - 1].0) && last_score(states[i + 2]) <= last_score(states[i + 1]) by {
        assert(step_at(states, results, i, h, b, ind, nm));
        assert(step_at(states, results, i + 1, h, b, ind, nm));
        lemma_order_step(states[i], h, b, ind, nm);
        lemma_order_step(states[i + 1], h, b, ind, nm);
        lemma_next(states[i], h, b, ind, nm);
        lemma_next(states[i + 1], h, b, ind, nm);
        assert(last_leads(states[i + 1]));
    }
    assert forall|i: int, j: int|
        0 <= i < j < results.len() && #[trigger] results[i] is Some && #[trigger] results[j] is Some
            && states[i + 1].pick.stage == states[j + 1].pick.stage && yields_from_list(states[i + 1].pick.stage)
            implies last_score(states[j + 1]) <= last_score(states[i + 1]) by {
        lemma_order_span(states, results, h, b, ind, nm, i, j);
    }
}

/// Whether a stage hands out moves from the picker's list.
pub open spec fn yields_from_list(stage: Stage) -> bool {
    stage == Stage::YieldGoodNoisies || stage == Stage::YieldQuiets || stage == Stage::YieldBadNoisies
}

proof fn lemma_order_span(states: Seq<PickState>, results: Seq<Option<Move>>, h: HistoryView, b: BoardView, ind: ContIndices, nm: NodeMoves, i: int, j: int)
    requires
        picker_run(states, results, h, b, ind, nm),
        fits(states[0].pick, states[0].list.len() as int),
        0 <= i < j < results.len(),
        results[i] is Some,
        results[j] is Some,
        states[i + 1].pick.stage == states[j + 1].pick.stage,
        yields_from_list(states[i + 1].pick.stage),
        forall|k: int|
            0 <= k && k + 1 < results.len() && #[trigger] results[k] is Some && results[k + 1] is Some
                && states[k + 1].pick.stage == states[k + 2].pick.stage && (states[k + 1].pick.stage
                == Stage::YieldGoodNoisies || states[k + 1].pick.stage == Stage::YieldQuiets || states[k
                + 1].pick.stage == Stage::YieldBadNoisies) ==> results[k] == Some(states[k + 1].list[states[k
                + 1].pick.cursor - 1].0) && results[k + 1] == Some(states[k + 2].list[states[k + 2].pick.cursor
                - 1].0) && last_score(states[k + 2]) <= last_score(states[k + 1]),
    ensures
        last_score(states[j + 1]) <= last_score(states[i + 1]),
    decreases j - i,
{
    lemma_run_prefix(states, results, h, b, ind, nm, states.len() - 1);
    let k = j - 1;
    assert(stage_rank(states[i + 1].pick.stage) <= stage_rank(states[k + 1].pick.stage));
    assert(stage_rank(states[k + 1].pick.stage) <= stage_rank(states[j + 1].pick.stage));
    assert(states[k + 1].pick.stage == states[j + 1].pick.stage);
    assert(step_at(states, results, k, h, b, ind, nm));
    lemma_next(states[k], h, b, ind, nm);
    assert(results[k] is Some);
    if k > i {
        lemma_order_span(states, results, h, b, ind, nm, i, k);
    }
}

proof fn lemma_order_prefix(states: Seq<PickState>, results: Seq<Option<Move>>, h: HistoryView, b: BoardView, ind: ContIndices, nm: NodeMoves, k: int)
    requires
        picker_run(states, results, h, b, ind, nm),
        states[0].pick.stage == Stage::TTMove,
        states[0].list.len() == 0,
        states[0].pick.cursor == 0,
        states[0].pick.bad_noisy_count == 0,
        0 <= k < states.len(),
    ensures
        forall|i: int| 0 <= i <= k ==> order_inv(#[trigger] states[i]),
    decreases k,
{
    if k > 0 {
        lemma_order_prefix(states, results, h, b, ind, nm, k - 1);
        assert(step_at(states, results, k - 1, h, b, ind, nm));
        lemma_order_step(states[k - 1], h, b, ind, nm);
        assert(order_inv(states[k]));
    }
}

/// The moves of a list, in order.
pub open spec fn moves_seq(l: Seq<ScoredMove>) -> Seq<Move> {
    l.map_values(|x: ScoredMove| x.0)
}

/// The moves of a list, each as often as it stands in it.
pub open spec fn list_moves(l: Seq<ScoredMove>) -> Multiset<Move> {
    moves_seq(l).to_multiset()
}

proof fn lemma_list_moves_add(a: Seq<ScoredMove>, b: Seq<ScoredMove>)
    ensures
        list_moves(a + b) =~= list_moves(a).add(list_moves(b)),
{
    assert(moves_seq(a + b) =~= moves_seq(a) + moves_seq(b));
    vstd::seq_lib::lemma_multiset_commutative(moves_seq(a), moves_seq(b));
}

proof fn lemma_list_moves_empty(l: Seq<ScoredMove>, m: Move)
    requires
        l.len() == 0,
    ensures
        list_moves(l).count(m) == 0,
{
    broadcast use vstd::seq_lib::group_to_multiset_ensures;
    assert(!moves_seq(l).contains(m));
}

/// Splitting off the first move of `l[c..idx]`.
proof fn lemma_list_moves_first(l: Seq<ScoredMove>, c: int, idx: int, m: Move)
    requires
        0 <= c < idx <= l.len(),
    ensures
        list_moves(l.subrange(c, idx)).count(m) == list_moves(l.subrange(c + 1, idx)).count(m) + (if l[c].0 == m {
            1int
        } else {
            0int
        }),
{
    broadcast use vstd::multiset::group_multiset_axioms;
    let x = l[c];
    let rest = l.subrange(c + 1, idx);
    assert(l.subrange(c, idx) =~= seq![x] + rest);
    lemma_list_moves_add(seq![x], rest);
    assert(moves_seq(seq![x]) =~= Seq::<Move>::empty().push(x.0));
    vstd::seq_lib::to_multiset_build(Seq::<Move>::empty(), x.0);
    lemma_list_moves_empty(Seq::<ScoredMove>::empty(), m);
    assert(moves_seq(Seq::<ScoredMove>::empty()) =~= Seq::<Move>::empty());
}

proof fn lemma_list_moves_swap(l: Seq<ScoredMove>, i: int, j: int)
    requires
        0 <= i < l.len(),
        0 <= j < l.len(),
    ensures
        list_moves(l.update(i, l[j]).update(j, l[i])) =~= list_moves(l),
{
    broadcast use vstd::multiset::group_multiset_axioms;
    broadcast use vstd::seq_lib::group_to_multiset_ensures;
    let ms = moves_seq(l);
    let l1 = l.update(i, l[j]);
    let ms1 = ms.update(i, ms[j]);
    assert(moves_seq(l1) =~= ms1);
    assert(moves_seq(l1.update(j, l[i])) =~= ms1.update(j, ms[i]));
    assert(ms1[j] == ms[j]);
    assert(ms.contains(ms[i]));
    assert(ms.to_multiset().count(ms[i]) > 0);
}

/// The part of a state's list still to be handed out, the transposition table move among it
/// being passed over when its turn comes.
pub open spec fn pending(s: PickState) -> Seq<ScoredMove> {
    let l = s.list;
    let c = s.pick.cursor;
    let bd = s.pick.bad_noisy_count;
    let n = l.len() as int;
    match s.pick.stage {
        Stage::YieldGoodNoisies | Stage::YieldQuiets => l.subrange(0, bd) + l.subrange(c, n),
        Stage::GenerateQuiets => l.subrange(0, bd),
        Stage::YieldBadNoisies => l.subrange(c, bd),
        _ => Seq::empty(),
    }
}

/// The moves handed out by a run of calls, each as often as it was handed out.
pub open spec fn handed(results: Seq<Option<Move>>) -> Multiset<Move>
    decreases results.len(),
{
    if results.len() == 0 {
        Multiset::empty()
    } else {
        match results.last() {
            Some(m) => handed(results.drop_last()).insert(m),
            None => handed(results.drop_last()),
        }
    }
}

/// Every move of the list other than the transposition table move is either handed out
/// already or still to be handed out, as often as it stands in the list.
pub open spec fn once_inv(s: PickState, hd: Multiset<Move>) -> bool {
    &&& (s.pick.stage == Stage::YieldBadNoisies ==> 0 <= s.pick.cursor <= s.pick.bad_noisy_count)
    &&& forall|m: Move|
        !is_tt(s.pick.tt_move, m) ==> #[trigger] list_moves(s.list).count(m) == hd.count(m) + list_moves(
            pending(s),
        ).count(m)
}

/// What a picker is set up with, beside its stage and cursor.
pub open spec fn same_setup(p: PickerView, q: PickerView) -> bool {
    &&& p.tt_move == q.tt_move
    &&& p.neutral_ducks == q.neutral_ducks
    &&& p.prune_quiet_neutrals == q.prune_quiet_neutrals
    &&& p.prune_noisy_neutrals == q.prune_noisy_neutrals
    &&& p.skip_quiets == q.skip_quiets
    &&& p.skip_bad_noisies == q.skip_bad_noisies
}

proof fn lemma_yield_good_once(l: Seq<ScoredMove>, cursor: int, bad: int, tt: Option<Move>, good: Seq<Move>, m: Move)
    requires
        0 <= bad <= cursor <= l.len(),
    ensures
        ({
            let (l2, c, bad2, r) = yield_good(l, cursor, bad, tt, good);
            &&& list_moves(l2) == list_moves(l)
            &&& l2.len() == l.len()
            &&& 0 <= bad2 <= c <= l.len()
            &&& !is_tt(tt, m) ==> list_moves(l.subrange(0, bad) + l.subrange(cursor, l.len() as int)).count(m)
                == list_moves(l2.subrange(0, bad2) + l2.subrange(c, l.len() as int)).count(m) + (if r == Some(m) {
                1int
            } else {
                0int
            })
        }),
    decreases l.len() - cursor,
{
    broadcast use vstd::multiset::group_multiset_axioms;
    let n = l.len() as int;
    if cursor < n {
        let x = l[cursor];
        lemma_list_moves_add(l.subrange(0, bad), l.subrange(cursor, n));
        lemma_list_moves_add(l.subrange(0, bad), l.subrange(cursor + 1, n));
        lemma_list_moves_first(l, cursor, n, m);
        if is_tt(tt, x.0) {
            lemma_yield_good_once(l, cursor + 1, bad, tt, good, m);
        } else if good.contains(x.0) {
        } else {
            let l1 = l.update(bad, l[cursor]).update(cursor, l[bad]);
            lemma_list_moves_swap(l, bad, cursor);
            assert(l1.subrange(0, bad + 1) + l1.subrange(cursor + 1, n) =~= l.subrange(0, bad) + l.subrange(
                cursor,
                n,
            ));
            lemma_yield_good_once(l1, cursor + 1, bad + 1, tt, good, m);
        }
    }
}

proof fn lemma_yield_until_once(l: Seq<ScoredMove>, cursor: int, index: int, tt: Option<Move>, m: Move)
    requires
        0 <= cursor <= index <= l.len(),
        !is_tt(tt, m),
    ensures
        ({
            let (c, r) = yield_until(l, cursor, index, tt);
            &&& cursor <= c <= index
            &&& (r is None ==> c == index)
            &&& list_moves(l.subrange(cursor, index)).count(m) == list_moves(l.subrange(c, index)).count(m) + (if r
                == Some(m) {
                1int
            } else {
                0int
            })
        }),
    decreases index - cursor,
{
    if cursor < index {
        lemma_list_moves_first(l, cursor, index, m);
        if is_tt(tt, l[cursor].0) {
            lemma_yield_until_once(l, cursor + 1, index, tt, m);
        }
    }
}

/// The handed-out moves after one more result.
pub open spec fn hand_on(hd: Multiset<Move>, r: Option<Move>) -> Multiset<Move> {
    match r {
        Some(m) => hd.insert(m),
        None => hd,
    }
}

proof fn lemma_once_tt(s: PickState, hd: Multiset<Move>, nm: NodeMoves)
    requires
        order_inv(s),
        once_inv(s, hd),
    ensures
        once_inv(phase_tt(s, nm).0, hand_on(hd, phase_tt(s, nm).1)),
        phase_tt(s, nm).0.list == s.list,
        same_setup(phase_tt(s, nm).0.pick, s.pick),
{
    broadcast use vstd::multiset::group_multiset_axioms;
    let (s1, r1) = phase_tt(s, nm);
    assert forall|m: Move| !is_tt(s1.pick.tt_move, m) implies #[trigger] list_moves(s1.list).count(m) == hand_on(
        hd,
        r1,
    ).count(m) + list_moves(pending(s1)).count(m) by {
        assert(list_moves(s.list).count(m) == hd.count(m) + list_moves(pending(s)).count(m));
        if s.pick.stage == Stage::TTMove {
            assert(pending(s1) =~= pending(s));
        }
    }
}

proof fn lemma_once_gen_noisies(s: PickState, hd: Multiset<Move>, h: HistoryView, b: BoardView, nm: NodeMoves)
    requires
        order_inv(s),
        once_inv(s, hd),
    ensures
        once_inv(phase_gen_noisies(s, h, b, nm), hd),
        list_moves(phase_gen_noisies(s, h, b, nm).list) =~= list_moves(s.list).add(
            if s.pick.stage == Stage::GenerateNoisies {
                list_moves(noisy_list(h, b, s.pick, nm))
            } else {
                Multiset::empty()
            },
        ),
        same_setup(phase_gen_noisies(s, h, b, nm).pick, s.pick),
{
    broadcast use vstd::multiset::group_multiset_axioms;
    let s2 = phase_gen_noisies(s, h, b, nm);
    if s.pick.stage == Stage::GenerateNoisies {
        let q = noisy_list(h, b, s.pick, nm);
        assert(s2.list =~= s.list + q);
        lemma_list_moves_add(s.list, q);
        assert(pending(s2) =~= q);
        assert forall|m: Move| !is_tt(s2.pick.tt_move, m) implies #[trigger] list_moves(s2.list).count(m) == hd.count(
            m,
        ) + list_moves(pending(s2)).count(m) by {
            assert(list_moves(s.list).count(m) == hd.count(m) + list_moves(pending(s)).count(m));
            lemma_list_moves_empty(s.list, m);
        }
    } else {
        assert(list_moves(s.list).add(Multiset::empty()) =~= list_moves(s.list));
    }
}

proof fn lemma_once_good(s: PickState, hd: Multiset<Move>, nm: NodeMoves)
    requires
        order_inv(s),
        once_inv(s, hd),
    ensures
        once_inv(phase_good(s, nm).0, hand_on(hd, phase_good(s, nm).1)),
        list_moves(phase_good(s, nm).0.list) == list_moves(s.list),
        same_setup(phase_good(s, nm).0.pick, s.pick),
{
    broadcast use vstd::multiset::group_multiset_axioms;
    let (s3, r3) = phase_good(s, nm);
    if s.pick.stage == Stage::YieldGoodNoisies {
        let l = s.list;
        let n = l.len() as int;
        lemma_yield_good_order(l, s.pick.cursor, s.pick.bad_noisy_count, s.pick.tt_move, nm.good_noisies@);
        lemma_yield_good_once(l, s.pick.cursor, s.pick.bad_noisy_count, s.pick.tt_move, nm.good_noisies@, l[0].0);
        let l2 = s3.list;
        let bad2 = s3.pick.bad_noisy_count;
        let c = s3.pick.cursor;
        if r3 is None {
            assert(pending(s3) =~= l2.subrange(0, bad2) + l2.subrange(c, n));
        } else {
            assert(pending(s3) == l2.subrange(0, bad2) + l2.subrange(c, n));
        }
        assert forall|m: Move| !is_tt(s3.pick.tt_move, m) implies #[trigger] list_moves(s3.list).count(m) == hand_on(
            hd,
            r3,
        ).count(m) + list_moves(pending(s3)).count(m) by {
            assert(list_moves(s.list).count(m) == hd.count(m) + list_moves(pending(s)).count(m));
            lemma_yield_good_once(l, s.pick.cursor, s.pick.bad_noisy_count, s.pick.tt_move, nm.good_noisies@, m);
        }
    }
}

proof fn lemma_once_gen_quiets(s: PickState, hd: Multiset<Move>, h: HistoryView, b: BoardView, ind: ContIndices, nm: NodeMoves)
    requires
        order_inv(s),
        once_inv(s, hd),
        !s.pick.skip_quiets,
    ensures
        once_inv(phase_gen_quiets(s, h, b, ind, nm), hd),
        list_moves(phase_gen_quiets(s, h, b, ind, nm).list) =~= list_moves(s.list).add(
            if s.pick.stage == Stage::GenerateQuiets {
                list_moves(quiet_list(h, b, ind, s.pick, nm))
            } else {
                Multiset::empty()
            },
        ),
        same_setup(phase_gen_quiets(s, h, b, ind, nm).pick, s.pick),
{
    broadcast use vstd::multiset::group_multiset_axioms;
    let s4 = phase_gen_quiets(s, h, b, ind, nm);
    if s.pick.stage == Stage::GenerateQuiets {
        let q = quiet_list(h, b, ind, s.pick, nm);
        let l = s.list;
        let bd = s.pick.bad_noisy_count;
        lemma_list_moves_add(l, q);
        assert(pending(s4) =~= l.subrange(0, bd) + q);
        lemma_list_moves_add(l.subrange(0, bd), q);
        assert forall|m: Move| !is_tt(s4.pick.tt_move, m) implies #[trigger] list_moves(s4.list).count(m) == hd.count(
            m,
        ) + list_moves(pending(s4)).count(m) by {
            assert(list_moves(s.list).count(m) == hd.count(m) + list_moves(pending(s)).count(m));
        }
    } else {
        assert(list_moves(s.list).add(Multiset::empty()) =~= list_moves(s.list));
    }
}

proof fn lemma_once_quiets(s: PickState, hd: Multiset<Move>)
    requires
        order_inv(s),
        once_inv(s, hd),
        !s.pick.skip_quiets,
    ensures
        once_inv(phase_quiets(s).0, hand_on(hd, phase_quiets(s).1)),
        phase_quiets(s).0.list == s.list,
        same_setup(phase_quiets(s).0.pick, s.pick),
{
    broadcast use vstd::multiset::group_multiset_axioms;
    let (s5, r5) = phase_quiets(s);
    if s.pick.stage == Stage::YieldQuiets {
        let l = s.list;
        let n = l.len() as int;
        let bd = s.pick.bad_noisy_count;
        let c = s.pick.cursor;
        assert forall|m: Move| !is_tt(s5.pick.tt_move, m) implies #[trigger] list_moves(s5.list).count(m) == hand_on(
            hd,
            r5,
        ).count(m) + list_moves(pending(s5)).count(m) by {
            assert(list_moves(s.list).count(m) == hd.count(m) + list_moves(pending(s)).count(m));
            lemma_yield_until_once(l, c, n, s.pick.tt_move, m);
            let c2 = yield_until(l, c, n, s.pick.tt_move).0;
            lemma_list_moves_add(l.subrange(0, bd), l.subrange(c, n));
            lemma_list_moves_add(l.subrange(0, bd), l.subrange(c2, n));
            lemma_list_moves_empty(l.subrange(n, n), m);
        }
    }
}

proof fn lemma_once_bad(s: PickState, hd: Multiset<Move>)
    requires
        order_inv(s),
        once_inv(s, hd),
        !s.pick.skip_bad_noisies,
    ensures
        once_inv(phase_bad(s).0, hand_on(hd, phase_bad(s).1)),
        phase_bad(s).0.list == s.list,
        same_setup(phase_bad(s).0.pick, s.pick),
{
    broadcast use vstd::multiset::group_multiset_axioms;
    let (s6, r6) = phase_bad(s);
    if s.pick.stage == Stage::YieldBadNoisies {
        let l = s.list;
        let bd = s.pick.bad_noisy_count;
        let c = s.pick.cursor;
        lemma_yield_until(l, c, bd, s.pick.tt_move);
        assert forall|m: Move| !is_tt(s6.pick.tt_move, m) implies #[trigger] list_moves(s6.list).count(m) == hand_on(
            hd,
            r6,
        ).count(m) + list_moves(pending(s6)).count(m) by {
            assert(list_moves(s.list).count(m) == hd.count(m) + list_moves(pending(s)).count(m));
            lemma_yield_until_once(l, c, bd, s.pick.tt_move, m);
            lemma_list_moves_empty(l.subrange(bd, bd), m);
            lemma_list_moves_empty(Seq::<ScoredMove>::empty(), m);
        }
    }
}

/// The moves added to the list by a call of `next` that moves from one stage to another.
pub open spec fn generated_between(h: HistoryView, b: BoardView, ind: ContIndices, nm: NodeMoves, p: PickerView, from: int, to: int) -> Multiset<Move> {
    (if from <= 1 && 2 <= to {
        list_moves(noisy_list(h, b, p, nm))
    } else {
        Multiset::empty()
    }).add(
        if from <= 3 && 4 <= to {
            list_moves(quiet_list(h, b, ind, p, nm))
        } else {
            Multiset::empty()
        },
    )
}

proof fn lemma_once_step(s: PickState, hd: Multiset<Move>, h: HistoryView, b: BoardView, ind: ContIndices, nm: NodeMoves)
    requires
        fits(s.pick, s.list.len() as int),
        order_inv(s),
        once_inv(s, hd),
        !s.pick.skip_quiets,
        !s.pick.skip_bad_noisies,
    ensures
        once_inv(next_spec(s, h, b, ind, nm).0, hand_on(hd, next_spec(s, h, b, ind, nm).1)),
        same_setup(next_spec(s, h, b, ind, nm).0.pick, s.pick),
        list_moves(next_spec(s, h, b, ind, nm).0.list) =~= list_moves(s.list).add(
            generated_between(h, b, ind, nm, s.pick, stage_rank(s.pick.stage), stage_rank(next_spec(s, h, b, ind, nm).0.pick.stage)),
        ),
{
    broadcast use vstd::multiset::group_multiset_axioms;
    let res = next_spec(s, h, b, ind, nm);
    lemma_next(s, h, b, ind, nm);
    lemma_phase_tt(s, nm);
    lemma_once_tt(s, hd, nm);
    let (s1, r1) = phase_tt(s, nm);
    assert(order_inv(s1));
    let e = Multiset::<Move>::empty();
    if r1 is None {
        lemma_phase_gen_noisies(s1, h, b, nm);
        lemma_once_gen_noisies(s1, hd, h, b, nm);
        lemma_order_gen_noisies(s1, h, b, nm);
        let s2 = phase_gen_noisies(s1, h, b, nm);
        lemma_phase_good(s2, nm);
        lemma_once_good(s2, hd, nm);
        lemma_order_good(s2, nm);
        let (s3, r3) = phase_good(s2, nm);
        let gn = if s1.pick.stage == Stage::GenerateNoisies {
            list_moves(noisy_list(h, b, s1.pick, nm))
        } else {
            e
        };
        assert(noisy_list(h, b, s1.pick, nm) == noisy_list(h, b, s.pick, nm));
        if r3 is None {
            lemma_phase_gen_quiets(s3, h, b, ind, nm);
            lemma_once_gen_quiets(s3, hand_on(hd, r3), h, b, ind, nm);
            lemma_order_gen_quiets(s3, h, b, ind, nm);
            let s4 = phase_gen_quiets(s3, h, b, ind, nm);
            lemma_phase_quiets(s4);
            lemma_once_quiets(s4, hand_on(hd, r3));
            lemma_order_quiets(s4);
            let (s5, r5) = phase_quiets(s4);
            let gq = if s3.pick.stage == Stage::GenerateQuiets {
                list_moves(quiet_list(h, b, ind, s3.pick, nm))
            } else {
                e
            };
            assert(quiet_list(h, b, ind, s3.pick, nm) == quiet_list(h, b, ind, s.pick, nm));
            assert(list_moves(s5.list) =~= list_moves(s.list).add(gn).add(gq));
            if r5 is None {
                lemma_phase_bad(s5);
                lemma_once_bad(s5, hand_on(hd, r3));
                assert(res == phase_bad(s5));
            } else {
                assert(res == (s5, r5));
            }
            assert(generated_between(h, b, ind, nm, s.pick, stage_rank(s.pick.stage), stage_rank(res.0.pick.stage))
                =~= gn.add(gq));
        } else {
            assert(res == (s3, r3));
            assert(generated_between(h, b, ind, nm, s.pick, stage_rank(s.pick.stage), stage_rank(res.0.pick.stage))
                =~= gn.add(e));
        }
    } else {
        assert(res == (s1, r1));
        assert(generated_between(h, b, ind, nm, s.pick, stage_rank(s.pick.stage), stage_rank(res.0.pick.stage))
            =~= e.add(e));
    }
}

/// The moves a node's picker adds to its list by the time it reaches a stage of the given rank.
pub open spec fn generated_upto(h: HistoryView, b: BoardView, ind: ContIndices, nm: NodeMoves, p: PickerView, rank: int) -> Multiset<Move> {
    generated_between(h, b, ind, nm, p, 0, rank)
}

proof fn lemma_once_prefix(states: Seq<PickState>, results: Seq<Option<Move>>, h: HistoryView, b: BoardView, ind: ContIndices, nm: NodeMoves, k: int)
    requires
        picker_run(states, results, h, b, ind, nm),
        states[0].pick.stage == Stage::TTMove,
        states[0].list.len() == 0,
        states[0].pick.cursor == 0,
        states[0].pick.bad_noisy_count == 0,
        forall|i: int| 0 <= i < states.len() ==> !(#[trigger] states[i]).pick.skip_quiets && !states[i].pick.skip_bad_noisies,
        0 <= k < states.len(),
    ensures
        once_inv(states[k], handed(results.take(k))),
        same_setup(states[k].pick, states[0].pick),
        list_moves(states[k].list) =~= generated_upto(h, b, ind, nm, states[0].pick, stage_rank(states[k].pick.stage)),
    decreases k,
{
    broadcast use vstd::multiset::group_multiset_axioms;
    if k == 0 {
        assert(results.take(0) =~= Seq::<Option<Move>>::empty());
        assert forall|m: Move| !is_tt(states[0].pick.tt_move, m) implies #[trigger] list_moves(states[0].list).count(m)
            == handed(results.take(0)).count(m) + list_moves(pending(states[0])).count(m) by {
            lemma_list_moves_empty(states[0].list, m);
            lemma_list_moves_empty(pending(states[0]), m);
        }
        assert(list_moves(states[0].list) =~= Multiset::empty()) by {
            assert forall|m: Move| list_moves(states[0].list).count(m) == 0 by {
                lemma_list_moves_empty(states[0].list, m);
            }
        }
    } else {
        lemma_once_prefix(states, results, h, b, ind, nm, k - 1);
        lemma_run_prefix(states, results, h, b, ind, nm, k);
        lemma_order_prefix(states, results, h, b, ind, nm, k);
        let s = states[k - 1];
        assert(step_at(states, results, k - 1, h, b, ind, nm));
        assert(!s.pick.skip_quiets && !s.pick.skip_bad_noisies);
        assert(!states[k].pick.skip_quiets && !states[k].pick.skip_bad_noisies);
        lemma_once_step(s, handed(results.take(k - 1)), h, b, ind, nm);
        lemma_next(s, h, b, ind, nm);
        let u = next_spec(s, h, b, ind, nm).0;
        assert(states[k].pick == u.pick);
        assert(states[k] == u);
        assert(results.take(k).drop_last() =~= results.take(k - 1));
        assert(handed(results.take(k)) == hand_on(handed(results.take(k - 1)), results[k - 1]));
        let p0 = states[0].pick;
        assert(noisy_list(h, b, s.pick, nm) == noisy_list(h, b, p0, nm));
        assert(quiet_list(h, b, ind, s.pick, nm) == quiet_list(h, b, ind, p0, nm));
        let r0 = stage_rank(s.pick.stage);
        let r1 = stage_rank(u.pick.stage);
        assert(generated_upto(h, b, ind, nm, p0, r0).add(generated_between(h, b, ind, nm, s.pick, r0, r1))
            =~= generated_upto(h, b, ind, nm, p0, r1));
    }
}

proof fn lemma_tt_count(states: Seq<PickState>, results: Seq<Option<Move>>, h: HistoryView, b: BoardView, ind: ContIndices, nm: NodeMoves, t: Move, k: int)
    requires
        picker_run(states, results, h, b, ind, nm),
        states[0].pick.stage == Stage::TTMove,
        states[0].list.len() == 0,
        states[0].pick.cursor == 0,
        states[0].pick.bad_noisy_count == 0,
        states[0].pick.tt_move == Some(t),
        0 <= k <= results.len(),
    ensures
        handed(results.take(k)).count(t) == (if k >= 1 && nm.tt_legal {
            1int
        } else {
            0int
        }),
    decreases k,
{
    broadcast use vstd::multiset::group_multiset_axioms;
    if k == 0 {
        assert(results.take(0) =~= Seq::<Option<Move>>::empty());
    } else {
        lemma_tt_count(states, results, h, b, ind, nm, t, k - 1);
        lemma_picker_run(states, results, h, b, ind, nm);
        assert(results.take(k).drop_last() =~= results.take(k - 1));
        assert(handed(results.take(k)) == hand_on(handed(results.take(k - 1)), results[k - 1]));
        if results[k - 1] == Some(t) {
            assert(is_tt(states[0].pick.tt_move, t));
        }
    }
}

/// From a fresh picker on an empty ply, with neither the quiet nor the bad noisy moves
/// skipped, over a run of calls of `next` that ends when one gives nothing: the
/// transposition table move is handed out once if it is legal and never otherwise, and every
/// noisy and quiet move the node generates, other than the transposition table move, is handed
/// out as many times as it was generated, so a move generated once is handed out exactly once.
pub proof fn lemma_picker_run_once(states: Seq<PickState>, results: Seq<Option<Move>>, h: HistoryView, b: BoardView, ind: ContIndices, nm: NodeMoves)
    requires
        picker_run(states, results, h, b, ind, nm),
        states[0].pick.stage == Stage::TTMove,
        states[0].list.len() == 0,
        states[0].pick.cursor == 0,
        states[0].pick.bad_noisy_count == 0,
        forall|i: int| 0 <= i < states.len() ==> !(#[trigger] states[i]).pick.skip_quiets && !states[i].pick.skip_bad_noisies,
        results.len() > 0,
        results.last() is None,
    ensures
        forall|m: Move|
            !is_tt(states[0].pick.tt_move, m) ==> #[trigger] handed(results).count(m) == list_moves(
                noisy_list(h, b, states[0].pick, nm),
            ).count(m) + list_moves(quiet_list(h, b, ind, states[0].pick, nm)).count(m),
        states[0].pick.tt_move matches Some(t) ==> handed(results).count(t) == (if nm.tt_legal {
            1int
        } else {
            0int
        }),
{
    broadcast use vstd::multiset::group_multiset_axioms;
    let k = results.len() as int;
    if let Some(t) = states[0].pick.tt_move {
        lemma_tt_count(states, results, h, b, ind, nm, t, k);
    }
    lemma_once_prefix(states, results, h, b, ind, nm, k);
    lemma_run_prefix(states, results, h, b, ind, nm, k);
    assert(step_at(states, results, k - 1, h, b, ind, nm));
    lemma_next(states[k - 1], h, b, ind, nm);
    assert(states[k].pick.stage == Stage::Finished);
    assert(results.take(k) =~= results);
    assert forall|m: Move| !is_tt(states[0].pick.tt_move, m) implies #[trigger] handed(results).count(m) == list_moves(
        noisy_list(h, b, states[0].pick, nm),
    ).count(m) + list_moves(quiet_list(h, b, ind, states[0].pick, nm)).count(m) by {
        assert(list_moves(states[k].list).count(m) == handed(results.take(k)).count(m) + list_moves(
            pending(states[k]),
        ).count(m));
        lemma_list_moves_empty(pending(states[k]), m);
    }
}

/// At the quiet stage the list ends with the quiet moves `q`, and the cursor stands among them.
pub open spec fn quiets_at_end(s: PickState, q: Seq<ScoredMove>) -> bool {
    s.pick.stage == Stage::YieldQuiets ==> {
        let n = s.list.len() as int;
        &&& q.len() <= n
        &&& s.list.subrange(n - q.len(), n) == q
        &&& n - q.len() <= s.pick.cursor
    }
}

/// What the quiet moves a picker generates depend on.
pub open spec fn same_quiet_setup(p: PickerView, q: PickerView) -> bool {
    &&& p.tt_move == q.tt_move
    &&& p.neutral_ducks == q.neutral_ducks
    &&& p.prune_quiet_neutrals == q.prune_quiet_neutrals
}

proof fn lemma_quiet_origin_step(s: PickState, h: HistoryView, b: BoardView, ind: ContIndices, nm: NodeMoves)
    requires
        fits(s.pick, s.list.len() as int),
        order_inv(s),
        quiets_at_end(s, quiet_list(h, b, ind, s.pick, nm)),
    ensures
        quiets_at_end(next_spec(s, h, b, ind, nm).0, quiet_list(h, b, ind, s.pick, nm)),
        same_quiet_setup(next_spec(s, h, b, ind, nm).0.pick, s.pick),
        next_spec(s, h, b, ind, nm).1 matches Some(m) ==> (next_spec(s, h, b, ind, nm).0.pick.stage
            == Stage::YieldQuiets ==> moves_seq(quiet_list(h, b, ind, s.pick, nm)).contains(m)),
{
    let q = quiet_list(h, b, ind, s.pick, nm);
    let res = next_spec(s, h, b, ind, nm);
    lemma_next(s, h, b, ind, nm);
    let (s1, r1) = phase_tt(s, nm);
    lemma_phase_tt(s, nm);
    if r1 is None {
        lemma_order_gen_noisies(s1, h, b, nm);
        lemma_phase_gen_noisies(s1, h, b, nm);
        let s2 = phase_gen_noisies(s1, h, b, nm);
        lemma_order_good(s2, nm);
        lemma_phase_good(s2, nm);
        let (s3, r3) = phase_good(s2, nm);
        if r3 is None {
            lemma_phase_gen_quiets(s3, h, b, ind, nm);
            let s4 = phase_gen_quiets(s3, h, b, ind, nm);
            assert(quiet_list(h, b, ind, s3.pick, nm) == q);
            if s3.pick.stage == Stage::GenerateQuiets && !s3.pick.skip_quiets {
                assert(s4.list.subrange(s3.list.len() as int, s4.list.len() as int) =~= q);
            }
            assert(quiets_at_end(s4, q));
            lemma_phase_quiets(s4);
            let (s5, r5) = phase_quiets(s4);
            if s4.pick.stage == Stage::YieldQuiets && !s4.pick.skip_quiets {
                let l = s4.list;
                let n = l.len() as int;
                lemma_yield_until(l, s4.pick.cursor, n, s4.pick.tt_move);
                if r5 is Some {
                    let c = s5.pick.cursor;
                    let j = c - 1 - (n - q.len());
                    assert(l.subrange(n - q.len(), n)[j] == l[c - 1]);
                    assert(moves_seq(q)[j] == q[j].0);
                }
            }
            if r5 is None {
                lemma_phase_bad(s5);
                assert(res == phase_bad(s5));
            } else {
                assert(res == (s5, r5));
            }
        } else {
            assert(res == (s3, r3));
        }
    } else {
        assert(res == (s1, r1));
    }
}

proof fn lemma_quiet_origin_prefix(states: Seq<PickState>, results: Seq<Option<Move>>, h: HistoryView, b: BoardView, ind: ContIndices, nm: NodeMoves, k: int)
    requires
        picker_run(states, results, h, b, ind, nm),
        states[0].pick.stage == Stage::TTMove,
        states[0].list.len() == 0,
        states[0].pick.cursor == 0,
        states[0].pick.bad_noisy_count == 0,
        0 <= k < states.len(),
    ensures
        forall|i: int| 0 <= i <= k ==> quiets_at_end(#[trigger] states[i], quiet_list(h, b, ind, states[0].pick, nm))
            && same_quiet_setup(states[i].pick, states[0].pick),
        forall|i: int|
            0 <= i < k ==> (#[trigger] results[i] matches Some(m) ==> (states[i + 1].pick.stage == Stage::YieldQuiets
                ==> moves_seq(quiet_list(h, b, ind, states[0].pick, nm)).contains(m))),
    decreases k,
{
    if k > 0 {
        lemma_quiet_origin_prefix(states, results, h, b, ind, nm, k - 1);
        lemma_run_prefix(states, results, h, b, ind, nm, k);
        lemma_order_prefix(states, results, h, b, ind, nm, k);
        let s = states[k - 1];
        assert(step_at(states, results, k - 1, h, b, ind, nm));
        assert(quiet_list(h, b, ind, s.pick, nm) == quiet_list(h, b, ind, states[0].pick, nm));
        lemma_quiet_origin_step(s, h, b, ind, nm);
        assert(quiets_at_end(states[k], quiet_list(h, b, ind, states[0].pick, nm)));
    }
}

/// From a fresh picker on an empty ply, over a run of calls of `next`: every move handed out at
/// the quiet stage is one of the quiet moves the node generates; so once bad noisy moves are
/// skipped, every move handed out is the transposition table move, a noisy move that passes the
/// exchange evaluation, or a generated quiet move.
pub proof fn lemma_picker_run_sources(states: Seq<PickState>, results: Seq<Option<Move>>, h: HistoryView, b: BoardView, ind: ContIndices, nm: NodeMoves)
    requires
        picker_run(states, results, h, b, ind, nm),
        states[0].pick.stage == Stage::TTMove,
        states[0].list.len() == 0,
        states[0].pick.cursor == 0,
        states[0].pick.bad_noisy_count == 0,
    ensures
        forall|i: int|
            0 <= i < results.len() ==> (#[trigger] results[i] matches Some(m) ==> (states[i + 1].pick.stage
                == Stage::YieldQuiets ==> moves_seq(quiet_list(h, b, ind, states[0].pick, nm)).contains(m))),
        forall|i: int, j: int|
            0 <= i <= j < results.len() && (#[trigger] states[i]).pick.skip_bad_noisies ==> (#[trigger] results[j] matches Some(m)
                ==> is_tt(states[0].pick.tt_move, m) || nm.good_noisies@.contains(m) || moves_seq(
                quiet_list(h, b, ind, states[0].pick, nm),
            ).contains(m)),
{
    lemma_quiet_origin_prefix(states, results, h, b, ind, nm, results.len() as int);
    lemma_picker_run(states, results, h, b, ind, nm);
    assert forall|i: int, j: int|
        0 <= i <= j < results.len() && (#[trigger] states[i]).pick.skip_bad_noisies implies (#[trigger] results[j] matches Some(m)
            ==> is_tt(states[0].pick.tt_move, m) || nm.good_noisies@.contains(m) || moves_seq(
            quiet_list(h, b, ind, states[0].pick, nm),
        ).contains(m)) by {
        if results[j] is Some {
            assert(results[j] matches Some(m) ==> (states[j + 1].pick.stage == Stage::YieldQuiets ==> moves_seq(
                quiet_list(h, b, ind, states[0].pick, nm),
            ).contains(m)));
        }
    }
}

} // verus!
