pub mod corr;
pub mod pawn;

use crate::board::{Board, BoardView, HashKind, board_hash};
use crate::common::{Bitboard, Color, Move, Piece, Square, div_trunc};
use crate::search::params::{
    capped,
    step_fits,
    Params,
    QUIET_BONUS_BASE,
    QUIET_BONUS_MAX,
    QUIET_BONUS_SCALE,
    QUIET_MALUS_BASE,
    QUIET_MALUS_MAX,
    QUIET_MALUS_SCALE,
    NOISY_BONUS_BASE,
    NOISY_BONUS_MAX,
    NOISY_BONUS_SCALE,
    NOISY_MALUS_BASE,
    NOISY_MALUS_MAX,
    NOISY_MALUS_SCALE,
    DUCK_BONUS_BASE,
    DUCK_BONUS_MAX,
    DUCK_BONUS_SCALE,
    DUCK_MALUS_BASE,
    DUCK_MALUS_MAX,
    DUCK_MALUS_SCALE,
    PAWN_CORR,
    MINOR_CORR,
    MAJOR_CORR,
    NONPAWN_CORR,
    CORR_BONUS_SCALE,
};
use crate::search::Score;
use crate::search::history::pawn::{has_mover, moved_piece, pawn_amount, pawn_index};
use crate::search::history::corr::{corr_amount, corr_index};
use vstd::prelude::*;

pub use corr::{CorrEntry, CorrHistory, MAX_CORR};
pub use pawn::{PawnEntry, PawnHistory};

verus! {

pub const MAX_HISTORY: i32 = 16384;
pub const PAWN_HIST_SIZE: usize = 4096;
pub const PAWN_CORR_SIZE: usize = 4096;
pub const MINOR_CORR_SIZE: usize = 16384;
pub const MAJOR_CORR_SIZE: usize = 16384;
pub const NONPAWN_CORR_SIZE: usize = 16384;

/// Whether every entry lies in `[-m, m]`.
pub open spec fn bounded(s: Seq<i16>, m: int) -> bool {
    forall|i: int| 0 <= i < s.len() ==> -m <= #[trigger] s[i] <= m
}

/// A table of history scores.
pub struct HistoryTable {
    entries: Vec<i16>,
}

impl View for HistoryTable {
    type V = Seq<i16>;

    closed spec fn view(&self) -> Seq<i16> {
        self.entries@
    }
}

impl HistoryTable {
    /// A table of `len` zero entries.
    pub fn new(len: usize) -> (r: HistoryTable)
        ensures
            r@ == Seq::new(len as nat, |i: int| 0i16),
    {
        let mut entries: Vec<i16> = Vec::new();
        let mut i: usize = 0;
        while i < len
            invariant
                i <= len,
                entries@ == Seq::new(i as nat, |j: int| 0i16),
            decreases len - i,
        {
            entries.push(0);
            i += 1;
            assert(entries@ =~= Seq::new(i as nat, |j: int| 0i16));
        }
        HistoryTable { entries }
    }

    pub fn len(&self) -> (r: usize)
        ensures
            r == self@.len(),
    {
        self.entries.len()
    }

    pub fn get(&self, i: usize) -> (r: i32)
        requires
            i < self@.len(),
        ensures
            r == self@[i as int],
    {
        self.entries[i] as i32
    }

    /// Applies a gravity update to entry `i`.
    pub fn update(&mut self, i: usize, max_bonus: i32, max_value: i32, amount: i32)
        requires
            i < old(self)@.len(),
            gravity_defined(
                old(self)@[i as int] as int,
                old(self)@[i as int] as int,
                amount as int,
                max_bonus as int,
                max_value as int,
            ),
        ensures
            final(self)@ == old(self)@.update(
                i as int,
                gravity_value(old(self)@[i as int] as int, amount as int, max_bonus as int, max_value as int) as i16,
            ),
    {
        let mut e = self.entries[i];
        gravity(&mut e, max_bonus, max_value, amount);
        self.entries.set(i, e);
    }
}

pub open spec fn clamp(x: int, lo: int, hi: int) -> int {
    if x < lo {
        lo
    } else if x > hi {
        hi
    } else {
        x
    }
}

pub open spec fn abs(x: int) -> int {
    if x < 0 {
        -x
    } else {
        x
    }
}

/// The amount of a history update once it is clamped to `[-max_bonus, max_bonus]`.
pub open spec fn clamped(amount: int, max_bonus: int) -> int {
    clamp(amount, -max_bonus, max_bonus)
}

/// How far an update with `decay` pulls an entry back: `decay * |amount| / max_value`,
/// rounded towards zero.
pub open spec fn decay_term(decay: int, amount: int, max_bonus: int, max_value: int) -> int {
    div_trunc(decay * abs(clamped(amount, max_bonus)), max_value)
}

/// The entry's change: the clamped amount less the decay, both taken as `i16` values.
pub open spec fn gravity_delta(decay: int, amount: int, max_bonus: int, max_value: int) -> int {
    (clamped(amount, max_bonus) as i16) as int - (decay_term(decay, amount, max_bonus, max_value)
        as i16) as int
}

/// The inputs for which a gravity update computes without overflow.
pub open spec fn gravity_defined(entry: int, decay: int, amount: int, max_bonus: int, max_value: int) -> bool {
    &&& 0 <= max_bonus
    &&& max_value != 0
    &&& i32::MIN <= decay * abs(clamped(amount, max_bonus)) <= i32::MAX
    &&& (max_value == -1 ==> decay * abs(clamped(amount, max_bonus)) != i32::MIN)
    &&& i16::MIN <= gravity_delta(decay, amount, max_bonus, max_value) <= i16::MAX
    &&& i16::MIN <= entry + gravity_delta(decay, amount, max_bonus, max_value) <= i16::MAX
}

proof fn lemma_div_within(a: int, b: int)
    requires
        a >= 0,
        b >= 1,
    ensures
        0 <= a / b <= a,
{
    assert(0 <= a / b <= a) by (nonlinear_arith)
        requires
            a >= 0,
            b >= 1,
    ;
}

/// Moves a history entry by `amount`, clamped to `[-max_bonus, max_bonus]`, less
/// `decay * |amount| / max_value`.
pub fn gravity_with_decay(entry: &mut i16, max_bonus: i32, max_value: i32, decay: i32, amount: i32)
    requires
        gravity_defined(*old(entry) as int, decay as int, amount as int, max_bonus as int, max_value as int),
    ensures
        *final(entry) == *old(entry) + gravity_delta(decay as int, amount as int, max_bonus as int, max_value as int),
{
    let amount = if amount < -max_bonus {
        -max_bonus
    } else if amount > max_bonus {
        max_bonus
    } else {
        amount
    };
    let magnitude = if amount < 0 {
        -amount
    } else {
        amount
    };
    let x = decay * magnitude;
    proof {
        let xi = x as int;
        let d = max_value as int;
        if xi >= 0 && d < 0 {
            lemma_div_within(xi, -d);
        } else if xi < 0 && d > 0 {
            lemma_div_within(-xi, d);
        } else if xi < 0 && d < 0 {
            lemma_div_within(-xi, -d);
            if d == -1 {
                assert((-xi) / 1 == -xi);
            } else {
                assert((-xi) / (-d) <= (-xi) / 2) by (nonlinear_arith)
                    requires
                        -xi >= 0,
                        -d >= 2,
                ;
            }
        } else if xi >= 0 && d > 0 {
            lemma_div_within(xi, d);
        }
    }
    let q = match x.checked_div(max_value) {
        Some(q) => q,
        None => 0,
    };
    assert(q == div_trunc(decay * magnitude, max_value as int));
    let decay = q as i16;
    *entry += amount as i16 - decay;
}

/// Moves a history entry by `amount` towards `±max_value`: the larger the entry already is
/// in the direction of the update, the less it moves.
pub fn gravity(entry: &mut i16, max_bonus: i32, max_value: i32, amount: i32)
    requires
        gravity_defined(*old(entry) as int, *old(entry) as int, amount as int, max_bonus as int, max_value as int),
    ensures
        *final(entry) == gravity_value(*old(entry) as int, amount as int, max_bonus as int, max_value as int),
{
    let decay = *entry as i32;
    gravity_with_decay(entry, max_bonus, max_value, decay, amount);
}

/// The entry a gravity update leaves.
pub open spec fn gravity_value(entry: int, amount: int, max_bonus: int, max_value: int) -> int {
    entry + gravity_delta(entry, amount, max_bonus, max_value)
}

proof fn lemma_trunc_bounds(x: int, m: int)
    requires
        m > 0,
    ensures
        x >= 0 ==> m * div_trunc(x, m) <= x < m * div_trunc(x, m) + m,
        x < 0 ==> m * div_trunc(x, m) - m < x <= m * div_trunc(x, m),
{
    if x >= 0 {
        vstd::arithmetic::div_mod::lemma_fundamental_div_mod(x, m);
        assert(0 <= x % m < m);
    } else {
        vstd::arithmetic::div_mod::lemma_fundamental_div_mod(-x, m);
        assert(0 <= (-x) % m < m);
        assert(m * div_trunc(x, m) == -(m * ((-x) / m))) by (nonlinear_arith)
            requires
                div_trunc(x, m) == -((-x) / m),
        ;
    }
}

/// With an amount of at most `max_value` and an entry of any `i16` value, the decayed update
/// stays between `min(entry, -max_value)` and `max(entry, max_value)`.
proof fn lemma_gravity_range(e: int, a: int, m: int)
    requires
        0 < m,
        -m <= a <= m,
        i16::MIN <= e <= i16::MAX,
    ensures
        ({
            let q = div_trunc(e * abs(a), m);
            let n = e + a - q;
            &&& (if e < -m { e } else { -m }) <= n <= (if e > m { e } else { m })
            &&& abs(q) <= abs(e)
        }),
{
    let s = abs(a);
    let x = e * s;
    let q = div_trunc(x, m);
    lemma_trunc_bounds(x, m);
    assert(0 <= s <= m);
    if e >= 0 {
        assert(x >= 0) by (nonlinear_arith)
            requires
                e >= 0,
                s >= 0,
                x == e * s,
        ;
        assert(0 <= q <= e) by (nonlinear_arith)
            requires
                x == e * s,
                0 <= s <= m,
                e >= 0,
                m * q <= x < m * q + m,
        ;
        if a >= 0 {
            assert(e + a - q <= (if e > m { e } else { m })) by (nonlinear_arith)
                requires
                    x == e * a,
                    0 <= a <= m,
                    e >= 0,
                    m * q <= x < m * q + m,
            ;
        } else {
            assert(e + a - q >= -m) by (nonlinear_arith)
                requires
                    x == e * s,
                    s == -a,
                    0 <= s <= m,
                    e >= 0,
                    m * q <= x < m * q + m,
            ;
        }
    } else {
        assert(x <= 0) by (nonlinear_arith)
            requires
                e < 0,
                s >= 0,
                x == e * s,
        ;
        if x == 0 {
            assert(s == 0) by (nonlinear_arith)
                requires
                    x == e * s,
                    e < 0,
                    s >= 0,
                    x == 0,
            ;
            assert(q == 0);
        } else {
            assert(e <= q <= 0) by (nonlinear_arith)
                requires
                    x == e * s,
                    0 <= s <= m,
                    e < 0,
                    m * q - m < x <= m * q,
            ;
        }
        if x == 0 {
        } else if a <= 0 {
            assert(e + a - q >= (if e < -m { e } else { -m })) by (nonlinear_arith)
                requires
                    x == e * s,
                    s == -a,
                    0 <= s <= m,
                    e < 0,
                    m * q - m < x <= m * q,
            ;
        } else {
            assert(e + a - q <= m) by (nonlinear_arith)
                requires
                    x == e * a,
                    0 <= a <= m,
                    e < 0,
                    m * q - m < x <= m * q,
            ;
        }
    }
}

/// A gravity update keeps an entry within `[-max_value, max_value]`: from an entry in that
/// range, with `0 <= max_bonus <= max_value`, the update computes without overflow whenever
/// the clamped amount plus `max_value` fits in an `i16`, and its result stays in the range.
pub proof fn lemma_gravity_bounded(entry: i16, amount: i32, max_bonus: i32, max_value: i32)
    requires
        0 <= max_bonus <= max_value,
        0 < max_value,
        abs(clamped(amount as int, max_bonus as int)) + max_value <= i16::MAX,
        -max_value <= entry <= max_value,
    ensures
        gravity_defined(entry as int, entry as int, amount as int, max_bonus as int, max_value as int),
        -max_value <= gravity_value(entry as int, amount as int, max_bonus as int, max_value as int)
            <= max_value,
{
    let a = clamped(amount as int, max_bonus as int);
    let e = entry as int;
    let m = max_value as int;
    lemma_gravity_range(e, a, m);
    let q = div_trunc(e * abs(a), m);
    assert((a as i16) as int == a);
    assert((q as i16) as int == q);
    assert(-32768 * 32767 <= e * abs(a) <= 32768 * 32767) by (nonlinear_arith)
        requires
            -32768 <= e <= 32767,
            0 <= abs(a) <= 32767,
    ;
}


/// A gravity update moves an entry the way of its amount: from an entry within
/// `[-max_value, max_value]`, a bonus never lowers it and a malus never raises it.
pub proof fn lemma_gravity_direction(entry: i16, amount: i32, max_bonus: i32, max_value: i32)
    requires
        0 <= max_bonus <= max_value,
        0 < max_value,
        abs(clamped(amount as int, max_bonus as int)) + max_value <= i16::MAX,
        -max_value <= entry <= max_value,
    ensures
        amount >= 0 ==> gravity_value(entry as int, amount as int, max_bonus as int, max_value as int) >= entry,
        amount <= 0 ==> gravity_value(entry as int, amount as int, max_bonus as int, max_value as int) <= entry,
{
    let a = clamped(amount as int, max_bonus as int);
    let e = entry as int;
    let m = max_value as int;
    let s = abs(a);
    let x = e * s;
    let q = div_trunc(x, m);
    lemma_gravity_range(e, a, m);
    lemma_trunc_bounds(x, m);
    assert((a as i16) as int == a);
    assert((q as i16) as int == q);
    assert(-m * s <= x <= m * s) by (nonlinear_arith)
        requires
            x == e * s,
            -m <= e <= m,
            s >= 0,
    ;
    assert(-s <= q <= s) by (nonlinear_arith)
        requires
            -m * s <= x <= m * s,
            m > 0,
            s >= 0,
            x >= 0 ==> m * q <= x < m * q + m,
            x < 0 ==> m * q - m < x <= m * q,
    ;
}

/// The piece that moved some plies back, and where it went.
#[derive(Clone, Copy, PartialEq, Eq, Structural, Debug)]
pub struct ContIndex {
    pub color: Color,
    pub piece: Piece,
    pub sq: Square,
}

/// The moves one, two and four plies back that continuation histories are indexed by.
#[derive(Clone, Copy, PartialEq, Eq, Structural, Debug)]
pub struct ContIndices {
    pub cont1: Option<ContIndex>,
    pub cont2: Option<ContIndex>,
    pub cont4: Option<ContIndex>,
}

pub const BUTTERFLY_SIZE: usize = 8192;
pub const CONT_SIZE: usize = 589824;

/// The number of a colored piece, below 12.
pub open spec fn mover_number(c: Color, p: Piece) -> int {
    c.spec_index() * 6 + p.spec_index()
}

/// Where a move stands in a table indexed by side to move, source and destination.
pub open spec fn butterfly_index(b: BoardView, mv: Move) -> int {
    b.stm.spec_index() * 4096 + mv.src@ * 64 + mv.dest@
}

/// Where a move's duck placement stands: by side to move, destination and duck square.
pub open spec fn duck_index(b: BoardView, mv: Move) -> int {
    b.stm.spec_index() * 4096 + mv.dest@ * 64 + mv.duck@
}

pub open spec fn mover_color(b: BoardView, mv: Move) -> Color {
    match b.squares[mv.src@] {
        Some((c, _)) => c,
        None => Color::White,
    }
}

/// Where a move stands in a continuation history after the move `ci`: by the earlier mover
/// and its destination, then this move's mover and destination.
pub open spec fn cont_index(b: BoardView, mv: Move, ci: ContIndex) -> int {
    ((mover_number(ci.color, ci.piece) * 64 + ci.sq@) * 12 + mover_number(
        mover_color(b, mv),
        moved_piece(b, mv),
    )) * 64 + mv.dest@
}

pub open spec fn quiet_amount(bonus: bool, depth: int) -> int {
    if bonus {
        capped(QUIET_BONUS_BASE as int, QUIET_BONUS_SCALE as int, QUIET_BONUS_MAX as int, depth)
    } else {
        -capped(QUIET_MALUS_BASE as int, QUIET_MALUS_SCALE as int, QUIET_MALUS_MAX as int, depth)
    }
}

pub open spec fn noisy_amount(bonus: bool, depth: int) -> int {
    if bonus {
        capped(NOISY_BONUS_BASE as int, NOISY_BONUS_SCALE as int, NOISY_BONUS_MAX as int, depth)
    } else {
        -capped(NOISY_MALUS_BASE as int, NOISY_MALUS_SCALE as int, NOISY_MALUS_MAX as int, depth)
    }
}

pub open spec fn duck_amount(bonus: bool, depth: int) -> int {
    if bonus {
        capped(DUCK_BONUS_BASE as int, DUCK_BONUS_SCALE as int, DUCK_BONUS_MAX as int, depth)
    } else {
        -capped(DUCK_MALUS_BASE as int, DUCK_MALUS_SCALE as int, DUCK_MALUS_MAX as int, depth)
    }
}

pub open spec fn cont_amount(ply: int, bonus: bool, depth: int) -> int {
    if bonus {
        capped(
            Params::cont_bonus_params(ply).0,
            Params::cont_bonus_params(ply).1,
            Params::cont_bonus_params(ply).2,
            depth,
        )
    } else {
        -capped(
            Params::cont_malus_params(ply).0,
            Params::cont_malus_params(ply).1,
            Params::cont_malus_params(ply).2,
            depth,
        )
    }
}

/// The depths for which history updates compute without overflow: every bonus and malus is
/// then below the history bound in size, so that no gravity update leaves the `i16` range.
pub open spec fn depth_ok(depth: int) -> bool {
    -128 <= depth <= 16_777_214
}

/// A gravity update of entry `i` with the history bounds.
pub open spec fn table_update(t: Seq<i16>, i: int, amount: int) -> Seq<i16> {
    t.update(i, gravity_value(t[i] as int, amount, MAX_HISTORY as int, MAX_HISTORY as int) as i16)
}

pub open spec fn cont_update(t: Seq<i16>, b: BoardView, mv: Move, ci: Option<ContIndex>, amount: int) -> Seq<i16> {
    match ci {
        None => t,
        Some(c) => table_update(t, cont_index(b, mv, c), amount),
    }
}

/// The content of all history tables.
pub struct HistoryView {
    pub quiet: Seq<i16>,
    pub noisy: Seq<i16>,
    pub pawn: Seq<i16>,
    pub duck: Seq<i16>,
    pub cont_odd: Seq<i16>,
    pub cont_even: Seq<i16>,
    pub pawn_corr: Seq<i16>,
    pub minor_corr: Seq<i16>,
    pub major_corr: Seq<i16>,
    pub white_corr: Seq<i16>,
    pub black_corr: Seq<i16>,
}

/// The effect of rewarding (`bonus`) or punishing a quiet move.
pub open spec fn quiet_step(h: HistoryView, b: BoardView, ind: ContIndices, depth: int, mv: Move, bonus: bool) -> HistoryView {
    HistoryView {
        quiet: table_update(h.quiet, butterfly_index(b, mv), quiet_amount(bonus, depth)),
        pawn: table_update(h.pawn, pawn_index(b, mv, PAWN_HIST_SIZE as int), pawn_amount(bonus, depth)),
        cont_odd: cont_update(h.cont_odd, b, mv, ind.cont1, cont_amount(1, bonus, depth)),
        cont_even: cont_update(
            cont_update(h.cont_even, b, mv, ind.cont2, cont_amount(2, bonus, depth)),
            b,
            mv,
            ind.cont4,
            cont_amount(4, bonus, depth),
        ),
        ..h
    }
}

/// The effect of rewarding (`bonus`) or punishing a noisy move.
pub open spec fn noisy_step(h: HistoryView, b: BoardView, depth: int, mv: Move, bonus: bool) -> HistoryView {
    HistoryView { noisy: table_update(h.noisy, butterfly_index(b, mv), noisy_amount(bonus, depth)), ..h }
}

/// The effect of rewarding (`bonus`) or punishing a duck placement.
pub open spec fn duck_step(h: HistoryView, b: BoardView, depth: int, mv: Move, bonus: bool) -> HistoryView {
    HistoryView { duck: table_update(h.duck, duck_index(b, mv), duck_amount(bonus, depth)), ..h }
}

/// A move's source and destination as one number.
pub open spec fn move_key(mv: Move) -> int {
    mv.src@ * 64 + mv.dest@
}

/// Punishes `moves[i..]` as quiet moves, each source and destination once, skipping those in `seen`.
pub open spec fn quiet_maluses(h: HistoryView, b: BoardView, ind: ContIndices, depth: int, moves: Seq<Move>, i: int, seen: Set<int>) -> HistoryView
    decreases moves.len() - i,
{
    if i >= moves.len() {
        h
    } else if seen.contains(move_key(moves[i])) {
        quiet_maluses(h, b, ind, depth, moves, i + 1, seen)
    } else {
        quiet_maluses(quiet_step(h, b, ind, depth, moves[i], false), b, ind, depth, moves, i + 1, seen.insert(move_key(moves[i])))
    }
}

/// Punishes `moves[i..]` as noisy moves, each source and destination once, skipping those in `seen`.
pub open spec fn noisy_maluses(h: HistoryView, b: BoardView, depth: int, moves: Seq<Move>, i: int, seen: Set<int>) -> HistoryView
    decreases moves.len() - i,
{
    if i >= moves.len() {
        h
    } else if seen.contains(move_key(moves[i])) {
        noisy_maluses(h, b, depth, moves, i + 1, seen)
    } else {
        noisy_maluses(noisy_step(h, b, depth, moves[i], false), b, depth, moves, i + 1, seen.insert(move_key(moves[i])))
    }
}

/// Punishes the duck placements of `moves[i..]`, each duck square once, skipping those in `seen`.
pub open spec fn duck_maluses(h: HistoryView, b: BoardView, depth: int, moves: Seq<Move>, i: int, seen: Set<int>) -> HistoryView
    decreases moves.len() - i,
{
    if i >= moves.len() {
        h
    } else if seen.contains(moves[i].duck@) {
        duck_maluses(h, b, depth, moves, i + 1, seen)
    } else {
        duck_maluses(duck_step(h, b, depth, moves[i], false), b, depth, moves, i + 1, seen.insert(moves[i].duck@))
    }
}

/// The effect of `History::update` after a search of `depth` found `best`, having tried the
/// failed quiet and noisy moves before it: the best move is rewarded in the quiet or noisy
/// tables; the failed quiet moves are punished only when the best move is quiet; failed noisy
/// moves always; the best move's duck placement is rewarded and the other duck placements
/// punished. A move is rewarded or punished once per source and destination (per duck square
/// for ducks), the first time it occurs.
pub open spec fn history_update(h: HistoryView, b: BoardView, ind: ContIndices, depth: int, best: Move, failed_quiets: Seq<Move>, failed_noisies: Seq<Move>) -> HistoryView {
    let noisy_best = best.flag.spec_is_noisy();
    let h1 = if noisy_best {
        noisy_step(h, b, depth, best, true)
    } else {
        quiet_maluses(quiet_step(h, b, ind, depth, best, true), b, ind, depth, failed_quiets, 0, set![move_key(best)])
    };
    let h2 = noisy_maluses(h1, b, depth, failed_noisies, 0, if noisy_best { set![move_key(best)] } else { Set::empty() });
    let h3 = duck_step(h2, b, depth, best, true);
    duck_maluses(h3, b, depth, failed_quiets + failed_noisies, 0, set![best.duck@])
}

/// The history tables of a search thread.
pub struct History {
    quiet: HistoryTable,
    noisy: HistoryTable,
    pawn: PawnHistory<PAWN_HIST_SIZE>,
    duck: HistoryTable,
    cont_odd: HistoryTable,
    cont_even: HistoryTable,
    pawn_corr: CorrHistory<PAWN_CORR_SIZE>,
    minor_corr: CorrHistory<MINOR_CORR_SIZE>,
    major_corr: CorrHistory<MAJOR_CORR_SIZE>,
    white_corr: CorrHistory<NONPAWN_CORR_SIZE>,
    black_corr: CorrHistory<NONPAWN_CORR_SIZE>,
}

impl View for History {
    type V = HistoryView;

    closed spec fn view(&self) -> HistoryView {
        HistoryView {
            quiet: self.quiet@,
            noisy: self.noisy@,
            pawn: self.pawn@,
            duck: self.duck@,
            cont_odd: self.cont_odd@,
            cont_even: self.cont_even@,
            pawn_corr: self.pawn_corr@,
            minor_corr: self.minor_corr@,
            major_corr: self.major_corr@,
            white_corr: self.white_corr@,
            black_corr: self.black_corr@,
        }
    }
}

/// A table of `n` zero entries.
pub open spec fn zeros(n: nat) -> Seq<i16> {
    Seq::new(n, |i: int| 0i16)
}

/// The tables have their sizes, move histories stay within `±MAX_HISTORY` and corrections
/// within `±MAX_CORR`.
pub open spec fn history_wf(h: HistoryView) -> bool {
    &&& h.quiet.len() == BUTTERFLY_SIZE && bounded(h.quiet, MAX_HISTORY as int)
    &&& h.noisy.len() == BUTTERFLY_SIZE && bounded(h.noisy, MAX_HISTORY as int)
    &&& h.pawn.len() == 768 * PAWN_HIST_SIZE && bounded(h.pawn, MAX_HISTORY as int)
    &&& h.duck.len() == BUTTERFLY_SIZE && bounded(h.duck, MAX_HISTORY as int)
    &&& h.cont_odd.len() == CONT_SIZE && bounded(h.cont_odd, MAX_HISTORY as int)
    &&& h.cont_even.len() == CONT_SIZE && bounded(h.cont_even, MAX_HISTORY as int)
    &&& h.pawn_corr.len() == 2 * PAWN_CORR_SIZE && bounded(h.pawn_corr, MAX_CORR as int)
    &&& h.minor_corr.len() == 2 * MINOR_CORR_SIZE && bounded(h.minor_corr, MAX_CORR as int)
    &&& h.major_corr.len() == 2 * MAJOR_CORR_SIZE && bounded(h.major_corr, MAX_CORR as int)
    &&& h.white_corr.len() == 2 * NONPAWN_CORR_SIZE && bounded(h.white_corr, MAX_CORR as int)
    &&& h.black_corr.len() == 2 * NONPAWN_CORR_SIZE && bounded(h.black_corr, MAX_CORR as int)
}


/// A history entry for a continuation index, 0 when there is none.
pub open spec fn cont_entry(t: Seq<i16>, b: BoardView, mv: Move, ci: Option<ContIndex>) -> int {
    match ci {
        None => 0,
        Some(c) => t[cont_index(b, mv, c)] as int,
    }
}

/// Whether any continuation index is present.
pub open spec fn uses_cont(ind: ContIndices) -> bool {
    ind.cont1 is Some || ind.cont2 is Some || ind.cont4 is Some
}

/// The correction table update for one hash.
pub open spec fn corr_table_update(t: Seq<i16>, stm: Color, hash: u64, size: int, amount: int) -> Seq<i16> {
    t.update(
        corr_index(stm, hash, size),
        gravity_value(t[corr_index(stm, hash, size)] as int, amount, (MAX_CORR / 4) as int, MAX_CORR as int) as i16,
    )
}

/// The effect of `History::update_corr`: every correction table moves its entry for the
/// position by the same amount.
pub open spec fn history_update_corr(h: HistoryView, b: BoardView, depth: int, diff: int) -> HistoryView {
    let a = corr_amount(depth, diff);
    HistoryView {
        pawn_corr: corr_table_update(h.pawn_corr, b.stm, board_hash(b, HashKind::Pawn), PAWN_CORR_SIZE as int, a),
        minor_corr: corr_table_update(h.minor_corr, b.stm, board_hash(b, HashKind::Minor), MINOR_CORR_SIZE as int, a),
        major_corr: corr_table_update(h.major_corr, b.stm, board_hash(b, HashKind::Major), MAJOR_CORR_SIZE as int, a),
        white_corr: corr_table_update(h.white_corr, b.stm, board_hash(b, HashKind::White), NONPAWN_CORR_SIZE as int, a),
        black_corr: corr_table_update(h.black_corr, b.stm, board_hash(b, HashKind::Black), NONPAWN_CORR_SIZE as int, a),
        ..h
    }
}

/// The correction of the static evaluation the tables give for a position.
pub open spec fn corr_value(h: HistoryView, b: BoardView) -> int {
    div_trunc(
        PAWN_CORR * h.pawn_corr[corr_index(b.stm, board_hash(b, HashKind::Pawn), PAWN_CORR_SIZE as int)]
            + MINOR_CORR * h.minor_corr[corr_index(b.stm, board_hash(b, HashKind::Minor), MINOR_CORR_SIZE as int)]
            + MAJOR_CORR * h.major_corr[corr_index(b.stm, board_hash(b, HashKind::Major), MAJOR_CORR_SIZE as int)]
            + NONPAWN_CORR * h.white_corr[corr_index(b.stm, board_hash(b, HashKind::White), NONPAWN_CORR_SIZE as int)]
            + NONPAWN_CORR * h.black_corr[corr_index(b.stm, board_hash(b, HashKind::Black), NONPAWN_CORR_SIZE as int)],
        MAX_CORR as int,
    )
}

proof fn lemma_table_update(t: Seq<i16>, i: int, amount: int)
    requires
        bounded(t, MAX_HISTORY as int),
        0 <= i < t.len(),
        -16256 <= amount <= 16256,
    ensures
        gravity_defined(t[i] as int, t[i] as int, amount, MAX_HISTORY as int, MAX_HISTORY as int),
        bounded(table_update(t, i, amount), MAX_HISTORY as int),
        table_update(t, i, amount).len() == t.len(),
{
    lemma_gravity_bounded(t[i], amount as i32, MAX_HISTORY, MAX_HISTORY);
}

proof fn lemma_corr_update(t: Seq<i16>, i: int, amount: int)
    requires
        bounded(t, MAX_CORR as int),
        0 <= i < t.len(),
        i32::MIN <= amount <= i32::MAX,
    ensures
        gravity_defined(t[i] as int, t[i] as int, amount, (MAX_CORR / 4) as int, MAX_CORR as int),
        bounded(
            t.update(i, gravity_value(t[i] as int, amount, (MAX_CORR / 4) as int, MAX_CORR as int) as i16),
            MAX_CORR as int,
        ),
{
    lemma_gravity_bounded(t[i], amount as i32, 256, MAX_CORR);
}

proof fn lemma_amounts(depth: int)
    requires
        depth_ok(depth),
    ensures
        forall|b: bool| -16256 <= #[trigger] quiet_amount(b, depth) <= 16256,
        forall|b: bool| -16256 <= #[trigger] noisy_amount(b, depth) <= 16256,
        forall|b: bool| -16256 <= #[trigger] duck_amount(b, depth) <= 16256,
        forall|b: bool| -16256 <= #[trigger] pawn_amount(b, depth) <= 16256,
        forall|p: int, b: bool| (p == 1 || p == 2 || p == 4) ==> -16256 <= #[trigger] cont_amount(p, b, depth) <= 16256,
{
}

fn butterfly(board: &Board, mv: Move) -> (r: usize)
    ensures
        r == butterfly_index(board@, mv),
        r < BUTTERFLY_SIZE,
{
    board.stm().index() * 4096 + mv.src().index() * 64 + mv.dest().index()
}

fn duck_slot(board: &Board, mv: Move) -> (r: usize)
    ensures
        r == duck_index(board@, mv),
        r < BUTTERFLY_SIZE,
{
    board.stm().index() * 4096 + mv.dest().index() * 64 + mv.duck().index()
}

fn cont_slot(board: &Board, mv: Move, ci: ContIndex) -> (r: usize)
    requires
        has_mover(board@, mv),
    ensures
        r == cont_index(board@, mv, ci),
        r < CONT_SIZE,
{
    let (color, piece) = match board.occupant(mv.src()) {
        Some(o) => o,
        None => (Color::White, Piece::Pawn),
    };
    let prev = ci.color.index() * 6 + ci.piece.index();
    let cur = color.index() * 6 + piece.index();
    let sq = ci.sq.index();
    let dest = mv.dest().index();
    assert(((prev * 64 + sq) * 12 + cur) * 64 + dest < CONT_SIZE) by (nonlinear_arith)
        requires
            prev < 12,
            sq < 64,
            cur < 12,
            dest < 64,
    ;
    ((prev * 64 + sq) * 12 + cur) * 64 + dest
}

/// The source and destination marks of the moves seen so far agree with `seen`.
pub open spec fn marks_agree(marks: Seq<Bitboard>, seen: Set<int>) -> bool {
    &&& marks.len() == 64
    &&& forall|s: int, d: int|
        #![trigger marks[s].contains(d)]
        0 <= s < 64 && 0 <= d < 64 ==> (marks[s].contains(d) <==> seen.contains(s * 64 + d))
    &&& forall|k: int| seen.contains(k) ==> 0 <= k < 4096
}

fn empty_squares() -> (r: Vec<Bitboard>)
    ensures
        marks_agree(r@, Set::empty()),
{
    let mut r: Vec<Bitboard> = Vec::new();
    let mut i: usize = 0;
    while i < 64
        invariant
            i <= 64,
            r@.len() == i,
            forall|j: int, d: int| 0 <= j < i ==> !(#[trigger] r@[j].contains(d)),
        decreases 64 - i,
    {
        r.push(Bitboard::empty());
        i += 1;
    }
    r
}

fn is_marked(marks: &Vec<Bitboard>, mv: Move) -> (r: bool)
    requires
        marks@.len() == 64,
    ensures
        r == marks@[mv.src@].contains(mv.dest@),
{
    marks[mv.src().index()].has(mv.dest())
}

fn mark(marks: &mut Vec<Bitboard>, mv: Move)
    requires
        marks_agree(old(marks)@, Set::empty()) || old(marks)@.len() == 64,
    ensures
        final(marks)@.len() == 64,
        forall|seen: Set<int>| marks_agree(old(marks)@, seen) ==> #[trigger] marks_agree(
            final(marks)@,
            seen.insert(move_key(mv)),
        ),
{
    let s = mv.src().index();
    let d = mv.dest().index();
    let marked = marks[s].with(mv.dest());
    marks.set(s, marked);
    assert forall|seen: Set<int>| marks_agree(old(marks)@, seen) implies #[trigger] marks_agree(
        marks@,
        seen.insert(move_key(mv)),
    ) by {
        assert forall|s2: int, d2: int|
            #![trigger marks@[s2].contains(d2)]
            0 <= s2 < 64 && 0 <= d2 < 64 implies (marks@[s2].contains(d2) <==> seen.insert(
            move_key(mv),
        ).contains(s2 * 64 + d2)) by {
            if s2 == s {
                assert(old(marks)@[s2].contains(d2) <==> seen.contains(s2 * 64 + d2));
            } else {
                assert(old(marks)@[s2].contains(d2) <==> seen.contains(s2 * 64 + d2));
            }
        }
    }
}

impl History {
    pub open spec fn wf(&self) -> bool {
        history_wf(self@)
    }

    /// Empty histories: every entry of every table zero.
    pub fn new() -> (r: History)
        ensures
            r.wf(),
            r@ == (HistoryView {
                quiet: zeros(BUTTERFLY_SIZE as nat),
                noisy: zeros(BUTTERFLY_SIZE as nat),
                pawn: zeros(768 * PAWN_HIST_SIZE as nat),
                duck: zeros(BUTTERFLY_SIZE as nat),
                cont_odd: zeros(CONT_SIZE as nat),
                cont_even: zeros(CONT_SIZE as nat),
                pawn_corr: zeros(2 * PAWN_CORR_SIZE as nat),
                minor_corr: zeros(2 * MINOR_CORR_SIZE as nat),
                major_corr: zeros(2 * MAJOR_CORR_SIZE as nat),
                white_corr: zeros(2 * NONPAWN_CORR_SIZE as nat),
                black_corr: zeros(2 * NONPAWN_CORR_SIZE as nat),
            }),
    {
        let r = History {
            quiet: HistoryTable::new(BUTTERFLY_SIZE),
            noisy: HistoryTable::new(BUTTERFLY_SIZE),
            pawn: PawnHistory::new(),
            duck: HistoryTable::new(BUTTERFLY_SIZE),
            cont_odd: HistoryTable::new(CONT_SIZE),
            cont_even: HistoryTable::new(CONT_SIZE),
            pawn_corr: CorrHistory::new(),
            minor_corr: CorrHistory::new(),
            major_corr: CorrHistory::new(),
            white_corr: CorrHistory::new(),
            black_corr: CorrHistory::new(),
        };
        r
    }

    /// The quiet history of a move.
    pub fn quiet(&self, board: &Board, mv: Move) -> (r: i32)
        requires
            self.wf(),
        ensures
            r == self@.quiet[butterfly_index(board@, mv)],
            -MAX_HISTORY <= r <= MAX_HISTORY,
    {
        self.quiet.get(butterfly(board, mv))
    }

    /// The noisy history of a move.
    pub fn noisy(&self, board: &Board, mv: Move) -> (r: i32)
        requires
            self.wf(),
        ensures
            r == self@.noisy[butterfly_index(board@, mv)],
            -MAX_HISTORY <= r <= MAX_HISTORY,
    {
        self.noisy.get(butterfly(board, mv))
    }

    /// The pawn history of a move.
    pub fn pawn(&self, board: &Board, mv: Move) -> (r: i32)
        requires
            self.wf(),
            has_mover(board@, mv),
        ensures
            r == self@.pawn[pawn_index(board@, mv, PAWN_HIST_SIZE as int)],
            -MAX_HISTORY <= r <= MAX_HISTORY,
    {
        self.pawn.entry(board, mv)
    }

    /// The duck history of a move's duck placement.
    pub fn duck(&self, board: &Board, mv: Move) -> (r: i32)
        requires
            self.wf(),
        ensures
            r == self@.duck[duck_index(board@, mv)],
            -MAX_HISTORY <= r <= MAX_HISTORY,
    {
        self.duck.get(duck_slot(board, mv))
    }

    fn cont_table_entry(table: &HistoryTable, board: &Board, mv: Move, ci: Option<ContIndex>) -> (r: i32)
        requires
            table@.len() == CONT_SIZE,
            bounded(table@, MAX_HISTORY as int),
            ci is Some ==> has_mover(board@, mv),
        ensures
            r == cont_entry(table@, board@, mv, ci),
            -MAX_HISTORY <= r <= MAX_HISTORY,
    {
        match ci {
            None => 0,
            Some(c) => table.get(cont_slot(board, mv, c)),
        }
    }

    /// The continuation history one move back.
    pub fn cont1(&self, board: &Board, indices: ContIndices, mv: Move) -> (r: i32)
        requires
            self.wf(),
            indices.cont1 is Some ==> has_mover(board@, mv),
        ensures
            r == cont_entry(self@.cont_odd, board@, mv, indices.cont1),
            -MAX_HISTORY <= r <= MAX_HISTORY,
    {
        Self::cont_table_entry(&self.cont_odd, board, mv, indices.cont1)
    }

    /// The continuation history two moves back.
    pub fn cont2(&self, board: &Board, indices: ContIndices, mv: Move) -> (r: i32)
        requires
            self.wf(),
            indices.cont2 is Some ==> has_mover(board@, mv),
        ensures
            r == cont_entry(self@.cont_even, board@, mv, indices.cont2),
            -MAX_HISTORY <= r <= MAX_HISTORY,
    {
        Self::cont_table_entry(&self.cont_even, board, mv, indices.cont2)
    }

    /// The continuation history four moves back.
    pub fn cont4(&self, board: &Board, indices: ContIndices, mv: Move) -> (r: i32)
        requires
            self.wf(),
            indices.cont4 is Some ==> has_mover(board@, mv),
        ensures
            r == cont_entry(self@.cont_even, board@, mv, indices.cont4),
            -MAX_HISTORY <= r <= MAX_HISTORY,
    {
        Self::cont_table_entry(&self.cont_even, board, mv, indices.cont4)
    }

    /// The sum of the continuation histories one, two and four moves back, missing ones
    /// counting 0.
    pub fn cont(&self, board: &Board, indices: ContIndices, mv: Move) -> (r: i32)
        requires
            self.wf(),
            uses_cont(indices) ==> has_mover(board@, mv),
        ensures
            r == cont_entry(self@.cont_odd, board@, mv, indices.cont1) + cont_entry(
                self@.cont_even,
                board@,
                mv,
                indices.cont2,
            ) + cont_entry(self@.cont_even, board@, mv, indices.cont4),
    {
        let mut value = Self::cont_table_entry(&self.cont_odd, board, mv, indices.cont1);
        value += Self::cont_table_entry(&self.cont_even, board, mv, indices.cont2);
        value += Self::cont_table_entry(&self.cont_even, board, mv, indices.cont4);
        value
    }

    /// The correction of the static evaluation for a position; with every correction entry
    /// within `±MAX_CORR` it is never more than 320 either way.
    pub fn corr(&self, board: &Board) -> (r: i32)
        requires
            self.wf(),
        ensures
            r == corr_value(self@, board@),
            -320 <= r <= 320,
    {
        let stm = board.stm();
        let p = self.pawn_corr.entry(stm, board.pawn_hash());
        let n = self.minor_corr.entry(stm, board.minor_hash());
        let j = self.major_corr.entry(stm, board.major_hash());
        let w = self.white_corr.entry(stm, board.white_hash());
        let b = self.black_corr.entry(stm, board.black_hash());
        assert(-MAX_CORR <= p <= MAX_CORR && -MAX_CORR <= n <= MAX_CORR && -MAX_CORR <= j <= MAX_CORR
            && -MAX_CORR <= w <= MAX_CORR && -MAX_CORR <= b <= MAX_CORR);
        let mut corr: i32 = 0;
        corr += PAWN_CORR * p;
        corr += MINOR_CORR * n;
        corr += MAJOR_CORR * j;
        corr += NONPAWN_CORR * w;
        corr += NONPAWN_CORR * b;
        corr / MAX_CORR
    }

    fn cont_table_update<const PLY: usize, const BONUS: bool>(
        table: &mut HistoryTable,
        board: &Board,
        depth: i32,
        mv: Move,
        ci: Option<ContIndex>,
    )
        requires
            PLY == 1 || PLY == 2 || PLY == 4,
            old(table)@.len() == CONT_SIZE,
            bounded(old(table)@, MAX_HISTORY as int),
            depth_ok(depth as int),
            has_mover(board@, mv),
        ensures
            final(table)@ == cont_update(old(table)@, board@, mv, ci, cont_amount(PLY as int, BONUS, depth as int)),
            final(table)@.len() == CONT_SIZE,
            bounded(final(table)@, MAX_HISTORY as int),
    {
        match ci {
            None => {},
            Some(c) => {
                let i = cont_slot(board, mv, c);
                let amount = if BONUS {
                    Params::cont_bonus::<PLY>(depth)
                } else {
                    Params::cont_malus::<PLY>(depth)
                };
                proof {
                    lemma_amounts(depth as int);
                    assert(amount == cont_amount(PLY as int, BONUS, depth as int));
                    lemma_table_update(table@, i as int, amount as int);
                }
                table.update(i, MAX_HISTORY, MAX_HISTORY, amount);
            },
        }
    }

    fn update_quiet<const BONUS: bool>(&mut self, board: &Board, indices: ContIndices, depth: i32, mv: Move)
        requires
            old(self).wf(),
            depth_ok(depth as int),
            has_mover(board@, mv),
        ensures
            final(self).wf(),
            final(self)@ == quiet_step(old(self)@, board@, indices, depth as int, mv, BONUS),
    {
        proof {
            lemma_amounts(depth as int);
        }
        let qi = butterfly(board, mv);
        let amount = if BONUS {
            Params::quiet_bonus(depth)
        } else {
            Params::quiet_malus(depth)
        };
        proof {
            assert(amount == quiet_amount(BONUS, depth as int));
            lemma_table_update(self.quiet@, qi as int, amount as int);
        }
        self.quiet.update(qi, MAX_HISTORY, MAX_HISTORY, amount);
        proof {
            use_type_invariant(&mv.dest);
            mv.dest.lemma_range();
            let pi = pawn_index(board@, mv, PAWN_HIST_SIZE as int);
            assert(0 <= pi < 768 * PAWN_HIST_SIZE) by (nonlinear_arith)
                requires
                    pi == ((board@.stm.spec_index() * 4096 + (board_hash(board@, HashKind::Pawn) as int) % 4096) * 6
                        + moved_piece(board@, mv).spec_index()) * 64 + mv.dest@,
                    0 <= mv.dest@ < 64,
                    0 <= board@.stm.spec_index() < 2,
                    0 <= moved_piece(board@, mv).spec_index() < 6,
                    0 <= (board_hash(board@, HashKind::Pawn) as int) % 4096 < 4096,
            ;
            lemma_table_update(self.pawn@, pi, pawn_amount(BONUS, depth as int));
        }
        self.pawn.update::<BONUS>(board, depth, mv);
        Self::cont_table_update::<1, BONUS>(&mut self.cont_odd, board, depth, mv, indices.cont1);
        Self::cont_table_update::<2, BONUS>(&mut self.cont_even, board, depth, mv, indices.cont2);
        Self::cont_table_update::<4, BONUS>(&mut self.cont_even, board, depth, mv, indices.cont4);
    }

    fn update_noisy<const BONUS: bool>(&mut self, board: &Board, depth: i32, mv: Move)
        requires
            old(self).wf(),
            depth_ok(depth as int),
        ensures
            final(self).wf(),
            final(self)@ == noisy_step(old(self)@, board@, depth as int, mv, BONUS),
    {
        proof {
            lemma_amounts(depth as int);
        }
        let i = butterfly(board, mv);
        let amount = if BONUS {
            Params::noisy_bonus(depth)
        } else {
            Params::noisy_malus(depth)
        };
        proof {
            assert(amount == noisy_amount(BONUS, depth as int));
            lemma_table_update(self.noisy@, i as int, amount as int);
        }
        self.noisy.update(i, MAX_HISTORY, MAX_HISTORY, amount);
    }

    fn update_duck<const BONUS: bool>(&mut self, board: &Board, depth: i32, mv: Move)
        requires
            old(self).wf(),
            depth_ok(depth as int),
        ensures
            final(self).wf(),
            final(self)@ == duck_step(old(self)@, board@, depth as int, mv, BONUS),
    {
        proof {
            lemma_amounts(depth as int);
        }
        let i = duck_slot(board, mv);
        let amount = if BONUS {
            Params::duck_bonus(depth)
        } else {
            Params::duck_malus(depth)
        };
        proof {
            assert(amount == duck_amount(BONUS, depth as int));
            lemma_table_update(self.duck@, i as int, amount as int);
        }
        self.duck.update(i, MAX_HISTORY, MAX_HISTORY, amount);
    }

    /// Rewards the move that raised alpha in a search of `depth` and punishes the moves tried
    /// before it.
    pub fn update(
        &mut self,
        board: &Board,
        indices: ContIndices,
        depth: i32,
        best_move: Move,
        failed_quiets: &[Move],
        failed_noisies: &[Move],
    )
        requires
            old(self).wf(),
            depth_ok(depth as int),
            !best_move.flag.spec_is_noisy() ==> has_mover(board@, best_move),
            !best_move.flag.spec_is_noisy() ==> forall|i: int|
                0 <= i < failed_quiets@.len() ==> has_mover(board@, #[trigger] failed_quiets@[i]),
        ensures
            final(self).wf(),
            final(self)@ == history_update(
                old(self)@,
                board@,
                indices,
                depth as int,
                best_move,
                failed_quiets@,
                failed_noisies@,
            ),
    {
        let ghost b = board@;
        let ghost d = depth as int;
        let ghost h0 = self@;
        let noisy_best = best_move.flag().is_noisy();
        let mut noisies = empty_squares();
        let ghost mut nseen: Set<int> = Set::empty();
        let ghost h1: HistoryView;
        if noisy_best {
            mark(&mut noisies, best_move);
            proof {
                nseen = nseen.insert(move_key(best_move));
            }
            self.update_noisy::<true>(board, depth, best_move);
            proof {
                h1 = self@;
            }
        } else {
            let mut quiets = empty_squares();
            mark(&mut quiets, best_move);
            let ghost mut qseen: Set<int> = Set::empty().insert(move_key(best_move));
            self.update_quiet::<true>(board, indices, depth, best_move);
            let ghost start = self@;
            let mut i: usize = 0;
            while i < failed_quiets.len()
                invariant
                    i <= failed_quiets@.len(),
                    self.wf(),
                    depth_ok(depth as int),
                    b == board@,
                    d == depth as int,
                    forall|j: int|
                        0 <= j < failed_quiets@.len() ==> has_mover(board@, #[trigger] failed_quiets@[j]),
                    marks_agree(quiets@, qseen),
                    quiet_maluses(start, b, indices, d, failed_quiets@, 0, set![move_key(best_move)])
                        == quiet_maluses(self@, b, indices, d, failed_quiets@, i as int, qseen),
                decreases failed_quiets@.len() - i,
            {
                let mv = failed_quiets[i];
                proof {
                    use_type_invariant(&mv.src);
                    use_type_invariant(&mv.dest);
                    mv.src.lemma_range();
                    mv.dest.lemma_range();
                    assert(mv == failed_quiets@[i as int]);
                    assert(quiets@[mv.src@].contains(mv.dest@) <==> qseen.contains(move_key(mv)));
                }
                if !is_marked(&quiets, mv) {
                    mark(&mut quiets, mv);
                    proof {
                        qseen = qseen.insert(move_key(mv));
                    }
                    self.update_quiet::<false>(board, indices, depth, mv);
                }
                i += 1;
            }
            proof {
                h1 = self@;
                assert(set![move_key(best_move)] == Set::<int>::empty().insert(move_key(best_move)));
            }
        }
        let ghost nstart = self@;
        let ghost nseen0 = nseen;
        let mut i: usize = 0;
        while i < failed_noisies.len()
            invariant
                i <= failed_noisies@.len(),
                self.wf(),
                depth_ok(depth as int),
                b == board@,
                d == depth as int,
                marks_agree(noisies@, nseen),
                noisy_maluses(nstart, b, d, failed_noisies@, 0, nseen0) == noisy_maluses(
                    self@,
                    b,
                    d,
                    failed_noisies@,
                    i as int,
                    nseen,
                ),
            decreases failed_noisies@.len() - i,
        {
            let mv = failed_noisies[i];
            proof {
                use_type_invariant(&mv.src);
                use_type_invariant(&mv.dest);
                mv.src.lemma_range();
                mv.dest.lemma_range();
                assert(mv == failed_noisies@[i as int]);
                assert(noisies@[mv.src@].contains(mv.dest@) <==> nseen.contains(move_key(mv)));
            }
            if !is_marked(&noisies, mv) {
                mark(&mut noisies, mv);
                proof {
                    nseen = nseen.insert(move_key(mv));
                }
                self.update_noisy::<false>(board, depth, mv);
            }
            i += 1;
        }
        let mut ducks = Bitboard::empty().with(best_move.duck());
        let ghost mut dseen: Set<int> = Set::empty().insert(best_move.duck@);
        proof {
            use_type_invariant(&best_move.duck);
            best_move.duck.lemma_range();
        }
        self.update_duck::<true>(board, depth, best_move);
        let ghost dstart = self@;
        let ghost all = failed_quiets@ + failed_noisies@;
        let mut i: usize = 0;
        while i < failed_quiets.len()
            invariant
                i <= failed_quiets@.len(),
                all == failed_quiets@ + failed_noisies@,
                self.wf(),
                depth_ok(depth as int),
                b == board@,
                d == depth as int,
                forall|k: int| 0 <= k < 64 ==> (#[trigger] ducks.contains(k) <==> dseen.contains(k)),
                forall|k: int| dseen.contains(k) ==> 0 <= k < 64,
                duck_maluses(dstart, b, d, all, 0, set![best_move.duck@]) == duck_maluses(
                    self@,
                    b,
                    d,
                    all,
                    i as int,
                    dseen,
                ),
            decreases failed_quiets@.len() - i,
        {
            let mv = failed_quiets[i];
            proof {
                use_type_invariant(&mv.duck);
                mv.duck.lemma_range();
                assert(mv == all[i as int]);
            }
            if !ducks.has(mv.duck()) {
                ducks = ducks.with(mv.duck());
                proof {
                    dseen = dseen.insert(mv.duck@);
                }
                self.update_duck::<false>(board, depth, mv);
            }
            i += 1;
        }
        let mut j: usize = 0;
        while j < failed_noisies.len()
            invariant
                j <= failed_noisies@.len(),
                all == failed_quiets@ + failed_noisies@,
                self.wf(),
                depth_ok(depth as int),
                b == board@,
                d == depth as int,
                forall|k: int| 0 <= k < 64 ==> (#[trigger] ducks.contains(k) <==> dseen.contains(k)),
                forall|k: int| dseen.contains(k) ==> 0 <= k < 64,
                duck_maluses(dstart, b, d, all, 0, set![best_move.duck@]) == duck_maluses(
                    self@,
                    b,
                    d,
                    all,
                    failed_quiets@.len() + j,
                    dseen,
                ),
            decreases failed_noisies@.len() - j,
        {
            let mv = failed_noisies[j];
            proof {
                use_type_invariant(&mv.duck);
                mv.duck.lemma_range();
                assert(mv == all[failed_quiets@.len() + j]);
            }
            if !ducks.has(mv.duck()) {
                ducks = ducks.with(mv.duck());
                proof {
                    dseen = dseen.insert(mv.duck@);
                }
                self.update_duck::<false>(board, depth, mv);
            }
            j += 1;
        }
        proof {
            assert(set![best_move.duck@] == Set::<int>::empty().insert(best_move.duck@));
            assert(nseen0 == if best_move.flag.spec_is_noisy() {
                set![move_key(best_move)]
            } else {
                Set::<int>::empty()
            });
        }
    }

    /// Moves every correction table's entry for the position towards a search `score` away
    /// from the `static_eval`.
    pub fn update_corr(&mut self, board: &Board, depth: i32, score: Score, static_eval: Score)
        requires
            old(self).wf(),
            i64::MIN <= (score.0 - static_eval.0) * depth * CORR_BONUS_SCALE <= i64::MAX,
        ensures
            final(self).wf(),
            final(self)@ == history_update_corr(old(self)@, board@, depth as int, score.0 - static_eval.0),
    {
        let stm = board.stm();
        let diff = score.0 as i64 - static_eval.0 as i64;
        let ghost a = corr_amount(depth as int, diff as int);
        let ph = board.pawn_hash();
        let nh = board.minor_hash();
        let jh = board.major_hash();
        let wh = board.white_hash();
        let bh = board.black_hash();
        proof {
            lemma_corr_update(self.pawn_corr@, corr_index(stm, ph, PAWN_CORR_SIZE as int), a);
            lemma_corr_update(self.minor_corr@, corr_index(stm, nh, MINOR_CORR_SIZE as int), a);
            lemma_corr_update(self.major_corr@, corr_index(stm, jh, MAJOR_CORR_SIZE as int), a);
            lemma_corr_update(self.white_corr@, corr_index(stm, wh, NONPAWN_CORR_SIZE as int), a);
            lemma_corr_update(self.black_corr@, corr_index(stm, bh, NONPAWN_CORR_SIZE as int), a);
        }
        self.pawn_corr.update(stm, ph, depth, diff);
        self.minor_corr.update(stm, nh, depth, diff);
        self.major_corr.update(stm, jh, depth, diff);
        self.white_corr.update(stm, wh, depth, diff);
        self.black_corr.update(stm, bh, depth, diff);
    }
}


proof fn lemma_noisy_maluses_frame(h: HistoryView, b: BoardView, depth: int, moves: Seq<Move>, i: int, seen: Set<int>)
    ensures
        noisy_maluses(h, b, depth, moves, i, seen) == (HistoryView {
            noisy: noisy_maluses(h, b, depth, moves, i, seen).noisy,
            ..h
        }),
    decreases moves.len() - i,
{
    if i < moves.len() {
        if seen.contains(move_key(moves[i])) {
            lemma_noisy_maluses_frame(h, b, depth, moves, i + 1, seen);
        } else {
            lemma_noisy_maluses_frame(
                noisy_step(h, b, depth, moves[i], false),
                b,
                depth,
                moves,
                i + 1,
                seen.insert(move_key(moves[i])),
            );
        }
    }
}

proof fn lemma_duck_maluses_frame(h: HistoryView, b: BoardView, depth: int, moves: Seq<Move>, i: int, seen: Set<int>)
    ensures
        duck_maluses(h, b, depth, moves, i, seen) == (HistoryView {
            duck: duck_maluses(h, b, depth, moves, i, seen).duck,
            ..h
        }),
    decreases moves.len() - i,
{
    if i < moves.len() {
        if seen.contains(moves[i].duck@) {
            lemma_duck_maluses_frame(h, b, depth, moves, i + 1, seen);
        } else {
            lemma_duck_maluses_frame(
                duck_step(h, b, depth, moves[i], false),
                b,
                depth,
                moves,
                i + 1,
                seen.insert(moves[i].duck@),
            );
        }
    }
}

/// When the best move is noisy, an update touches only the noisy and duck tables: the quiet,
/// pawn, continuation and correction tables stay as they were.
pub proof fn lemma_noisy_best_keeps(
    h: HistoryView,
    b: BoardView,
    ind: ContIndices,
    depth: int,
    best: Move,
    failed_quiets: Seq<Move>,
    failed_noisies: Seq<Move>,
)
    requires
        best.flag.spec_is_noisy(),
    ensures
        history_update(h, b, ind, depth, best, failed_quiets, failed_noisies) == (HistoryView {
            noisy: history_update(h, b, ind, depth, best, failed_quiets, failed_noisies).noisy,
            duck: history_update(h, b, ind, depth, best, failed_quiets, failed_noisies).duck,
            ..h
        }),
{
    let h1 = noisy_step(h, b, depth, best, true);
    let seen = set![move_key(best)];
    lemma_noisy_maluses_frame(h1, b, depth, failed_noisies, 0, seen);
    let h2 = noisy_maluses(h1, b, depth, failed_noisies, 0, seen);
    let h3 = duck_step(h2, b, depth, best, true);
    lemma_duck_maluses_frame(h3, b, depth, failed_quiets + failed_noisies, 0, set![best.duck@]);
}

proof fn lemma_corr_entry_toward(t: Seq<i16>, stm: Color, hash: u64, size: int, amount: int)
    requires
        bounded(t, MAX_CORR as int),
        0 < size,
        t.len() == 2 * size,
        i32::MIN <= amount <= i32::MAX,
    ensures
        amount >= 0 ==> corr_table_update(t, stm, hash, size, amount)[corr_index(stm, hash, size)]
            >= t[corr_index(stm, hash, size)],
        amount <= 0 ==> corr_table_update(t, stm, hash, size, amount)[corr_index(stm, hash, size)]
            <= t[corr_index(stm, hash, size)],
{
    let k = corr_index(stm, hash, size);
    assert(0 <= k < t.len()) by {
        assert(0 <= (hash as int) % size < size);
    }
    lemma_gravity_bounded(t[k], amount as i32, 256, MAX_CORR);
    lemma_gravity_direction(t[k], amount as i32, 256, MAX_CORR);
}

/// A correction update moves the position's entry of every correction table toward the search
/// result: up, or not at all, when the score is at least the static evaluation, down, or not at
/// all, when it is at most.
pub proof fn lemma_corr_toward_score(h: HistoryView, b: BoardView, depth: int, diff: int)
    requires
        history_wf(h),
        depth >= 0,
        i32::MIN <= div_trunc(diff * depth * CORR_BONUS_SCALE, 1024) <= i32::MAX,
    ensures
        ({
            let r = history_update_corr(h, b, depth, diff);
            let p = corr_index(b.stm, board_hash(b, HashKind::Pawn), PAWN_CORR_SIZE as int);
            let n = corr_index(b.stm, board_hash(b, HashKind::Minor), MINOR_CORR_SIZE as int);
            let j = corr_index(b.stm, board_hash(b, HashKind::Major), MAJOR_CORR_SIZE as int);
            let w = corr_index(b.stm, board_hash(b, HashKind::White), NONPAWN_CORR_SIZE as int);
            let k = corr_index(b.stm, board_hash(b, HashKind::Black), NONPAWN_CORR_SIZE as int);
            &&& diff >= 0 ==> r.pawn_corr[p] >= h.pawn_corr[p] && r.minor_corr[n] >= h.minor_corr[n]
                && r.major_corr[j] >= h.major_corr[j] && r.white_corr[w] >= h.white_corr[w]
                && r.black_corr[k] >= h.black_corr[k]
            &&& diff <= 0 ==> r.pawn_corr[p] <= h.pawn_corr[p] && r.minor_corr[n] <= h.minor_corr[n]
                && r.major_corr[j] <= h.major_corr[j] && r.white_corr[w] <= h.white_corr[w]
                && r.black_corr[k] <= h.black_corr[k]
        }),
{
    let x = diff * depth * CORR_BONUS_SCALE;
    let a = corr_amount(depth, diff);
    assert(diff >= 0 ==> x >= 0) by (nonlinear_arith)
        requires
            depth >= 0,
            x == diff * depth * 128,
    ;
    assert(diff <= 0 ==> x <= 0) by (nonlinear_arith)
        requires
            depth >= 0,
            x == diff * depth * 128,
    ;
    assert(a == div_trunc(x, 1024));
    lemma_corr_entry_toward(h.pawn_corr, b.stm, board_hash(b, HashKind::Pawn), PAWN_CORR_SIZE as int, a);
    lemma_corr_entry_toward(h.minor_corr, b.stm, board_hash(b, HashKind::Minor), MINOR_CORR_SIZE as int, a);
    lemma_corr_entry_toward(h.major_corr, b.stm, board_hash(b, HashKind::Major), MAJOR_CORR_SIZE as int, a);
    lemma_corr_entry_toward(h.white_corr, b.stm, board_hash(b, HashKind::White), NONPAWN_CORR_SIZE as int, a);
    lemma_corr_entry_toward(h.black_corr, b.stm, board_hash(b, HashKind::Black), NONPAWN_CORR_SIZE as int, a);
}


proof fn lemma_quiet_maluses_append(h: HistoryView, b: BoardView, ind: ContIndices, depth: int, moves: Seq<Move>, x: Move, i: int, seen: Set<int>)
    requires
        0 <= i <= moves.len(),
        seen.contains(move_key(x)) || exists|j: int| i <= j < moves.len() && move_key(#[trigger] moves[j]) == move_key(x),
    ensures
        quiet_maluses(h, b, ind, depth, moves.push(x), i, seen) == quiet_maluses(h, b, ind, depth, moves, i, seen),
    decreases moves.len() - i,
{
    let p = moves.push(x);
    if i < moves.len() {
        let m = moves[i];
        assert(p[i] == m);
        if !seen.contains(move_key(x)) {
            let j = choose|j: int| i <= j < moves.len() && move_key(#[trigger] moves[j]) == move_key(x);
            if j > i {
                assert(i + 1 <= j < moves.len() && move_key(moves[j]) == move_key(x));
            }
        }
        if seen.contains(move_key(m)) {
            lemma_quiet_maluses_append(h, b, ind, depth, moves, x, i + 1, seen);
        } else {
            lemma_quiet_maluses_append(
                quiet_step(h, b, ind, depth, m, false),
                b,
                ind,
                depth,
                moves,
                x,
                i + 1,
                seen.insert(move_key(m)),
            );
        }
    } else {
        assert(p[i] == x);
        assert(seen.contains(move_key(x)));
        assert(quiet_maluses(h, b, ind, depth, p, i + 1, seen) == h);
    }
}

proof fn lemma_noisy_maluses_append(h: HistoryView, b: BoardView, depth: int, moves: Seq<Move>, x: Move, i: int, seen: Set<int>)
    requires
        0 <= i <= moves.len(),
        seen.contains(move_key(x)) || exists|j: int| i <= j < moves.len() && move_key(#[trigger] moves[j]) == move_key(x),
    ensures
        noisy_maluses(h, b, depth, moves.push(x), i, seen) == noisy_maluses(h, b, depth, moves, i, seen),
    decreases moves.len() - i,
{
    let p = moves.push(x);
    if i < moves.len() {
        let m = moves[i];
        assert(p[i] == m);
        if !seen.contains(move_key(x)) {
            let j = choose|j: int| i <= j < moves.len() && move_key(#[trigger] moves[j]) == move_key(x);
            if j > i {
                assert(i + 1 <= j < moves.len() && move_key(moves[j]) == move_key(x));
            }
        }
        if seen.contains(move_key(m)) {
            lemma_noisy_maluses_append(h, b, depth, moves, x, i + 1, seen);
        } else {
            lemma_noisy_maluses_append(noisy_step(h, b, depth, m, false), b, depth, moves, x, i + 1, seen.insert(move_key(m)));
        }
    } else {
        assert(p[i] == x);
        assert(seen.contains(move_key(x)));
        assert(noisy_maluses(h, b, depth, p, i + 1, seen) == h);
    }
}

proof fn lemma_duck_maluses_skip(h: HistoryView, b: BoardView, depth: int, s: Seq<Move>, k: int, seen: Set<int>)
    requires
        0 <= k <= s.len(),
    ensures
        duck_maluses(h, b, depth, s, k, seen) == duck_maluses(h, b, depth, s.skip(k), 0, seen),
    decreases s.len() - k,
{
    if k < s.len() {
        let t = s.skip(k);
        assert(t.skip(1) =~= s.skip(k + 1));
        assert(t[0] == s[k]);
        let m = s[k];
        if seen.contains(m.duck@) {
            lemma_duck_maluses_skip(h, b, depth, s, k + 1, seen);
            lemma_duck_maluses_skip(h, b, depth, t, 1, seen);
        } else {
            let h2 = duck_step(h, b, depth, m, false);
            let seen2 = seen.insert(m.duck@);
            lemma_duck_maluses_skip(h2, b, depth, s, k + 1, seen2);
            lemma_duck_maluses_skip(h2, b, depth, t, 1, seen2);
        }
    }
}

proof fn lemma_duck_maluses_insert(h: HistoryView, b: BoardView, depth: int, a: Seq<Move>, x: Move, c: Seq<Move>, i: int, seen: Set<int>)
    requires
        0 <= i <= a.len(),
        seen.contains(x.duck@) || exists|j: int| i <= j < a.len() && (#[trigger] a[j]).duck@ == x.duck@,
    ensures
        duck_maluses(h, b, depth, a + seq![x] + c, i, seen) == duck_maluses(h, b, depth, a + c, i, seen),
    decreases a.len() - i,
{
    let l = a + seq![x] + c;
    let r = a + c;
    if i < a.len() {
        let m = a[i];
        assert(l[i] == m && r[i] == m);
        if !seen.contains(x.duck@) {
            let j = choose|j: int| i <= j < a.len() && (#[trigger] a[j]).duck@ == x.duck@;
            if j > i {
                assert(i + 1 <= j < a.len() && a[j].duck@ == x.duck@);
            }
        }
        if seen.contains(m.duck@) {
            lemma_duck_maluses_insert(h, b, depth, a, x, c, i + 1, seen);
        } else {
            lemma_duck_maluses_insert(duck_step(h, b, depth, m, false), b, depth, a, x, c, i + 1, seen.insert(m.duck@));
        }
    } else {
        assert(l[i] == x);
        lemma_duck_maluses_skip(h, b, depth, l, i + 1, seen);
        lemma_duck_maluses_skip(h, b, depth, r, i, seen);
        assert(l.skip(i + 1) =~= c);
        assert(r.skip(i) =~= c);
    }
}

/// Repeating a failed quiet move, or the best move, among the failed quiet moves changes
/// nothing: a move gets at most one malus per update.
pub proof fn lemma_repeated_failed_quiet(
    h: HistoryView,
    b: BoardView,
    ind: ContIndices,
    depth: int,
    best: Move,
    failed_quiets: Seq<Move>,
    failed_noisies: Seq<Move>,
    x: Move,
)
    requires
        failed_quiets.contains(x) || x == best,
    ensures
        history_update(h, b, ind, depth, best, failed_quiets.push(x), failed_noisies) == history_update(
            h,
            b,
            ind,
            depth,
            best,
            failed_quiets,
            failed_noisies,
        ),
{
    if x != best {
        let j = choose|j: int| 0 <= j < failed_quiets.len() && failed_quiets[j] == x;
        assert(move_key(failed_quiets[j]) == move_key(x));
        assert(failed_quiets[j].duck@ == x.duck@);
    }
    if !best.flag.spec_is_noisy() {
        lemma_quiet_maluses_append(
            quiet_step(h, b, ind, depth, best, true),
            b,
            ind,
            depth,
            failed_quiets,
            x,
            0,
            set![move_key(best)],
        );
    }
    let h1 = if best.flag.spec_is_noisy() {
        noisy_step(h, b, depth, best, true)
    } else {
        quiet_maluses(quiet_step(h, b, ind, depth, best, true), b, ind, depth, failed_quiets, 0, set![move_key(best)])
    };
    let h2 = noisy_maluses(h1, b, depth, failed_noisies, 0, if best.flag.spec_is_noisy() {
        set![move_key(best)]
    } else {
        Set::empty()
    });
    let h3 = duck_step(h2, b, depth, best, true);
    lemma_duck_maluses_insert(h3, b, depth, failed_quiets, x, failed_noisies, 0, set![best.duck@]);
    assert(failed_quiets.push(x) + failed_noisies =~= failed_quiets + seq![x] + failed_noisies);
}

/// Repeating a failed noisy move among the failed noisy moves changes nothing: a move gets at
/// most one malus per update.
pub proof fn lemma_repeated_failed_noisy(
    h: HistoryView,
    b: BoardView,
    ind: ContIndices,
    depth: int,
    best: Move,
    failed_quiets: Seq<Move>,
    failed_noisies: Seq<Move>,
    x: Move,
)
    requires
        failed_noisies.contains(x),
    ensures
        history_update(h, b, ind, depth, best, failed_quiets, failed_noisies.push(x)) == history_update(
            h,
            b,
            ind,
            depth,
            best,
            failed_quiets,
            failed_noisies,
        ),
{
    let j = choose|j: int| 0 <= j < failed_noisies.len() && failed_noisies[j] == x;
    assert(move_key(failed_noisies[j]) == move_key(x));
    let h1 = if best.flag.spec_is_noisy() {
        noisy_step(h, b, depth, best, true)
    } else {
        quiet_maluses(quiet_step(h, b, ind, depth, best, true), b, ind, depth, failed_quiets, 0, set![move_key(best)])
    };
    let seen = if best.flag.spec_is_noisy() {
        set![move_key(best)]
    } else {
        Set::empty()
    };
    lemma_noisy_maluses_append(h1, b, depth, failed_noisies, x, 0, seen);
    let h2 = noisy_maluses(h1, b, depth, failed_noisies, 0, seen);
    let h3 = duck_step(h2, b, depth, best, true);
    let all = failed_quiets + failed_noisies;
    assert(all[failed_quiets.len() + j] == x);
    lemma_duck_maluses_insert(h3, b, depth, all, x, seq![], 0, set![best.duck@]);
    assert(failed_quiets + failed_noisies.push(x) =~= all + seq![x] + Seq::<Move>::empty());
    assert(all + Seq::<Move>::empty() =~= all);
}


proof fn lemma_corr_table_toward(t: Seq<i16>, stm: Color, hash: u64, size: int, amount: int, k: int)
    requires
        bounded(t, MAX_CORR as int),
        0 < size,
        t.len() == 2 * size,
        i32::MIN <= amount <= i32::MAX,
        0 <= k < t.len(),
    ensures
        corr_table_update(t, stm, hash, size, amount).len() == t.len(),
        amount >= 0 ==> corr_table_update(t, stm, hash, size, amount)[k] >= t[k],
        amount <= 0 ==> corr_table_update(t, stm, hash, size, amount)[k] <= t[k],
        amount == 0 ==> corr_table_update(t, stm, hash, size, amount) == t,
{
    let i = corr_index(stm, hash, size);
    assert(0 <= i < t.len()) by {
        assert(0 <= (hash as int) % size < size);
    }
    lemma_corr_entry_toward(t, stm, hash, size, amount);
    if amount == 0 {
        assert(clamped(0, 256) == 0);
        assert(abs(0) == 0);
        assert((t[i] as int) * 0 == 0);
        assert(div_trunc(0, 1024) == 0);
        assert(decay_term(t[i] as int, 0, 256, 1024) == 0);
        assert(gravity_delta(t[i] as int, 0, 256, 1024) == 0);
        assert(gravity_value(t[i] as int, 0, (MAX_CORR / 4) as int, MAX_CORR as int) == t[i]);
        assert(corr_table_update(t, stm, hash, size, amount) =~= t);
    }
}

proof fn lemma_corr_index_in(stm: Color, hash: u64, size: int)
    requires
        0 < size,
    ensures
        0 <= corr_index(stm, hash, size) < 2 * size,
{
    assert(0 <= (hash as int) % size < size);
}

/// A correction update leaves the move tables alone and moves the correction of every board,
/// not only the searched one, the way of the search result: up, or not at all, when the score
/// is at least the static evaluation, down, or not at all, when it is at most, and not at all
/// when they are equal.
pub proof fn lemma_corr_update_every_board(h: HistoryView, b: BoardView, depth: int, diff: int, b2: BoardView)
    requires
        history_wf(h),
        depth >= 0,
        i32::MIN <= div_trunc(diff * depth * CORR_BONUS_SCALE, 1024) <= i32::MAX,
    ensures
        history_update_corr(h, b, depth, diff) == (HistoryView {
            pawn_corr: history_update_corr(h, b, depth, diff).pawn_corr,
            minor_corr: history_update_corr(h, b, depth, diff).minor_corr,
            major_corr: history_update_corr(h, b, depth, diff).major_corr,
            white_corr: history_update_corr(h, b, depth, diff).white_corr,
            black_corr: history_update_corr(h, b, depth, diff).black_corr,
            ..h
        }),
        diff >= 0 ==> corr_value(history_update_corr(h, b, depth, diff), b2) >= corr_value(h, b2),
        diff <= 0 ==> corr_value(history_update_corr(h, b, depth, diff), b2) <= corr_value(h, b2),
        diff == 0 ==> history_update_corr(h, b, depth, diff) == h,
{
    let r = history_update_corr(h, b, depth, diff);
    let x = diff * depth * CORR_BONUS_SCALE;
    let a = corr_amount(depth, diff);
    assert(diff >= 0 ==> x >= 0) by (nonlinear_arith)
        requires
            depth >= 0,
            x == diff * depth * 128,
    ;
    assert(diff <= 0 ==> x <= 0) by (nonlinear_arith)
        requires
            depth >= 0,
            x == diff * depth * 128,
    ;
    assert(diff == 0 ==> x == 0);
    assert(a == div_trunc(x, 1024));
    let p = corr_index(b2.stm, board_hash(b2, HashKind::Pawn), PAWN_CORR_SIZE as int);
    let n = corr_index(b2.stm, board_hash(b2, HashKind::Minor), MINOR_CORR_SIZE as int);
    let j = corr_index(b2.stm, board_hash(b2, HashKind::Major), MAJOR_CORR_SIZE as int);
    let w = corr_index(b2.stm, board_hash(b2, HashKind::White), NONPAWN_CORR_SIZE as int);
    let k = corr_index(b2.stm, board_hash(b2, HashKind::Black), NONPAWN_CORR_SIZE as int);
    lemma_corr_index_in(b2.stm, board_hash(b2, HashKind::Pawn), PAWN_CORR_SIZE as int);
    lemma_corr_index_in(b2.stm, board_hash(b2, HashKind::Minor), MINOR_CORR_SIZE as int);
    lemma_corr_index_in(b2.stm, board_hash(b2, HashKind::Major), MAJOR_CORR_SIZE as int);
    lemma_corr_index_in(b2.stm, board_hash(b2, HashKind::White), NONPAWN_CORR_SIZE as int);
    lemma_corr_index_in(b2.stm, board_hash(b2, HashKind::Black), NONPAWN_CORR_SIZE as int);
    lemma_corr_table_toward(h.pawn_corr, b.stm, board_hash(b, HashKind::Pawn), PAWN_CORR_SIZE as int, a, p);
    lemma_corr_table_toward(h.minor_corr, b.stm, board_hash(b, HashKind::Minor), MINOR_CORR_SIZE as int, a, n);
    lemma_corr_table_toward(h.major_corr, b.stm, board_hash(b, HashKind::Major), MAJOR_CORR_SIZE as int, a, j);
    lemma_corr_table_toward(h.white_corr, b.stm, board_hash(b, HashKind::White), NONPAWN_CORR_SIZE as int, a, w);
    lemma_corr_table_toward(h.black_corr, b.stm, board_hash(b, HashKind::Black), NONPAWN_CORR_SIZE as int, a, k);
    let s0 = PAWN_CORR * h.pawn_corr[p] + MINOR_CORR * h.minor_corr[n] + MAJOR_CORR * h.major_corr[j]
        + NONPAWN_CORR * h.white_corr[w] + NONPAWN_CORR * h.black_corr[k];
    let s1 = PAWN_CORR * r.pawn_corr[p] + MINOR_CORR * r.minor_corr[n] + MAJOR_CORR * r.major_corr[j]
        + NONPAWN_CORR * r.white_corr[w] + NONPAWN_CORR * r.black_corr[k];
    if diff >= 0 {
        assert(s0 <= s1);
        crate::search::params::lemma_div_trunc_mono(s0, s1, MAX_CORR as int);
    }
    if diff <= 0 {
        assert(s1 <= s0);
        crate::search::params::lemma_div_trunc_mono(s1, s0, MAX_CORR as int);
    }
}

proof fn lemma_corr_table_other_side(t: Seq<i16>, stm: Color, hash: u64, stm2: Color, hash2: u64, size: int, amount: int)
    requires
        0 < size,
        t.len() == 2 * size,
        stm != stm2,
    ensures
        corr_table_update(t, stm, hash, size, amount)[corr_index(stm2, hash2, size)] == t[corr_index(stm2, hash2, size)],
{
    match stm {
        Color::White => crate::search::history::corr::lemma_corr_sides_apart(hash, hash2, size),
        Color::Black => crate::search::history::corr::lemma_corr_sides_apart(hash2, hash, size),
    }
}

/// A correction update touches only the side to move of the searched board: the correction
/// of every board with the other side to move stays as it was.
pub proof fn lemma_corr_update_other_side(h: HistoryView, b: BoardView, depth: int, diff: int, b2: BoardView)
    requires
        history_wf(h),
        b2.stm != b.stm,
    ensures
        corr_value(history_update_corr(h, b, depth, diff), b2) == corr_value(h, b2),
{
    let a = corr_amount(depth, diff);
    lemma_corr_table_other_side(h.pawn_corr, b.stm, board_hash(b, HashKind::Pawn), b2.stm, board_hash(b2, HashKind::Pawn), PAWN_CORR_SIZE as int, a);
    lemma_corr_table_other_side(h.minor_corr, b.stm, board_hash(b, HashKind::Minor), b2.stm, board_hash(b2, HashKind::Minor), MINOR_CORR_SIZE as int, a);
    lemma_corr_table_other_side(h.major_corr, b.stm, board_hash(b, HashKind::Major), b2.stm, board_hash(b2, HashKind::Major), MAJOR_CORR_SIZE as int, a);
    lemma_corr_table_other_side(h.white_corr, b.stm, board_hash(b, HashKind::White), b2.stm, board_hash(b2, HashKind::White), NONPAWN_CORR_SIZE as int, a);
    lemma_corr_table_other_side(h.black_corr, b.stm, board_hash(b, HashKind::Black), b2.stm, board_hash(b2, HashKind::Black), NONPAWN_CORR_SIZE as int, a);
}

/// Whether a move's source and destination are squares of the board.
pub open spec fn squares_valid(mv: Move) -> bool {
    mv.src.inv() && mv.dest.inv()
}

proof fn lemma_butterfly_in(b: BoardView, mv: Move)
    requires
        squares_valid(mv),
    ensures
        0 <= butterfly_index(b, mv) < BUTTERFLY_SIZE,
{
    mv.src.lemma_range();
    mv.dest.lemma_range();
}

proof fn lemma_quiet_maluses_noisy(h: HistoryView, b: BoardView, ind: ContIndices, depth: int, moves: Seq<Move>, i: int, seen: Set<int>)
    ensures
        quiet_maluses(h, b, ind, depth, moves, i, seen).noisy == h.noisy,
    decreases moves.len() - i,
{
    if i < moves.len() {
        if seen.contains(move_key(moves[i])) {
            lemma_quiet_maluses_noisy(h, b, ind, depth, moves, i + 1, seen);
        } else {
            lemma_quiet_maluses_noisy(
                quiet_step(h, b, ind, depth, moves[i], false),
                b,
                ind,
                depth,
                moves,
                i + 1,
                seen.insert(move_key(moves[i])),
            );
        }
    }
}

/// Punishing failed noisy moves leaves the noisy entry of a move whose source and destination
/// were already seen as it was.
proof fn lemma_noisy_maluses_keep(h: HistoryView, b: BoardView, depth: int, moves: Seq<Move>, j: int, seen: Set<int>, x: Move)
    requires
        h.noisy.len() == BUTTERFLY_SIZE,
        0 <= j,
        forall|l: int| 0 <= l < moves.len() ==> squares_valid(#[trigger] moves[l]),
        squares_valid(x),
        seen.contains(move_key(x)),
    ensures
        noisy_maluses(h, b, depth, moves, j, seen).noisy.len() == BUTTERFLY_SIZE,
        noisy_maluses(h, b, depth, moves, j, seen).noisy[butterfly_index(b, x)] == h.noisy[butterfly_index(b, x)],
    decreases moves.len() - j,
{
    if j < moves.len() {
        if seen.contains(move_key(moves[j])) {
            lemma_noisy_maluses_keep(h, b, depth, moves, j + 1, seen, x);
        } else {
            let h1 = noisy_step(h, b, depth, moves[j], false);
            lemma_butterfly_in(b, moves[j]);
            lemma_butterfly_in(b, x);
            assert(move_key(moves[j]) != move_key(x));
            assert(h1.noisy[butterfly_index(b, x)] == h.noisy[butterfly_index(b, x)]);
            lemma_noisy_maluses_keep(h1, b, depth, moves, j + 1, seen.insert(move_key(moves[j])), x);
        }
    }
}

/// Punishing failed noisy moves moves the noisy entry of `moves[i]` once by the noisy malus
/// when its source and destination were not seen before.
proof fn lemma_noisy_maluses_at(h: HistoryView, b: BoardView, depth: int, moves: Seq<Move>, j: int, seen: Set<int>, i: int)
    requires
        h.noisy.len() == BUTTERFLY_SIZE,
        0 <= j <= i < moves.len(),
        forall|l: int| 0 <= l < moves.len() ==> squares_valid(#[trigger] moves[l]),
        !seen.contains(move_key(moves[i])),
        forall|l: int| j <= l < i ==> move_key(#[trigger] moves[l]) != move_key(moves[i]),
    ensures
        noisy_maluses(h, b, depth, moves, j, seen).noisy[butterfly_index(b, moves[i])] == gravity_value(
            h.noisy[butterfly_index(b, moves[i])] as int,
            noisy_amount(false, depth),
            MAX_HISTORY as int,
            MAX_HISTORY as int,
        ) as i16,
    decreases i - j,
{
    let k = butterfly_index(b, moves[i]);
    lemma_butterfly_in(b, moves[i]);
    if j == i {
        let h1 = noisy_step(h, b, depth, moves[i], false);
        lemma_noisy_maluses_keep(h1, b, depth, moves, i + 1, seen.insert(move_key(moves[i])), moves[i]);
    } else if seen.contains(move_key(moves[j])) {
        lemma_noisy_maluses_at(h, b, depth, moves, j + 1, seen, i);
    } else {
        let h1 = noisy_step(h, b, depth, moves[j], false);
        lemma_butterfly_in(b, moves[j]);
        assert(move_key(moves[j]) != move_key(moves[i]));
        assert(h1.noisy[k] == h.noisy[k]);
        lemma_noisy_maluses_at(h1, b, depth, moves, j + 1, seen.insert(move_key(moves[j])), i);
    }
}

/// Every failed noisy move is punished in the noisy table, whatever kind of move the best one
/// is: the first failed noisy move with a given source and destination, unless a noisy best
/// move has the same ones, moves its noisy entry by the noisy malus for the depth. From an
/// empty entry it becomes `-min(128 + 128 * depth, 2048)`.
pub proof fn lemma_failed_noisy_punished(
    h: HistoryView,
    b: BoardView,
    ind: ContIndices,
    depth: int,
    best: Move,
    failed_quiets: Seq<Move>,
    failed_noisies: Seq<Move>,
    i: int,
)
    requires
        history_wf(h),
        depth_ok(depth),
        squares_valid(best),
        forall|l: int| 0 <= l < failed_noisies.len() ==> squares_valid(#[trigger] failed_noisies[l]),
        0 <= i < failed_noisies.len(),
        forall|l: int| 0 <= l < i ==> move_key(#[trigger] failed_noisies[l]) != move_key(failed_noisies[i]),
        best.flag.spec_is_noisy() ==> move_key(best) != move_key(failed_noisies[i]),
    ensures
        history_update(h, b, ind, depth, best, failed_quiets, failed_noisies).noisy[butterfly_index(b, failed_noisies[i])]
            == gravity_value(
            h.noisy[butterfly_index(b, failed_noisies[i])] as int,
            noisy_amount(false, depth),
            MAX_HISTORY as int,
            MAX_HISTORY as int,
        ) as i16,
        h.noisy[butterfly_index(b, failed_noisies[i])] == 0 ==> history_update(
            h,
            b,
            ind,
            depth,
            best,
            failed_quiets,
            failed_noisies,
        ).noisy[butterfly_index(b, failed_noisies[i])] == -(if 128 + 128 * depth < 2048 {
            128 + 128 * depth
        } else {
            2048
        }),
{
    let x = failed_noisies[i];
    let k = butterfly_index(b, x);
    lemma_butterfly_in(b, x);
    lemma_butterfly_in(b, best);
    let noisy_best = best.flag.spec_is_noisy();
    let h1 = if noisy_best {
        noisy_step(h, b, depth, best, true)
    } else {
        quiet_maluses(quiet_step(h, b, ind, depth, best, true), b, ind, depth, failed_quiets, 0, set![move_key(best)])
    };
    if noisy_best {
        assert(h1.noisy[k] == h.noisy[k]);
    } else {
        lemma_quiet_maluses_noisy(quiet_step(h, b, ind, depth, best, true), b, ind, depth, failed_quiets, 0, set![move_key(best)]);
    }
    let seen = if noisy_best { set![move_key(best)] } else { Set::empty() };
    lemma_noisy_maluses_at(h1, b, depth, failed_noisies, 0, seen, i);
    let h2 = noisy_maluses(h1, b, depth, failed_noisies, 0, seen);
    let h3 = duck_step(h2, b, depth, best, true);
    lemma_duck_maluses_frame(h3, b, depth, failed_quiets + failed_noisies, 0, set![best.duck@]);
    if h.noisy[k] == 0 {
        let a = noisy_amount(false, depth);
        assert(-2048 <= a <= 16256);
        assert(clamped(a, MAX_HISTORY as int) == a);
        assert(div_trunc(0, MAX_HISTORY as int) == 0);
        assert(decay_term(0, a, MAX_HISTORY as int, MAX_HISTORY as int) == 0);
        assert(gravity_value(0, a, MAX_HISTORY as int, MAX_HISTORY as int) == a);
    }
}

} // verus!
