use crate::board::{Board, BoardView, CastlingRights, Occupant};
use crate::common::{Color, File, Piece, Square};
use vstd::prelude::*;

verus! {

/// How many of the files `f..8` are not taken.
pub open spec fn free_from(taken: Seq<bool>, f: int) -> int
    decreases 8 - f,
{
    if f >= 8 {
        0
    } else {
        free_from(taken, f + 1) + if taken[f] {
            0int
        } else {
            1int
        }
    }
}

/// The `k`-th (counting from 0) file from `f` on that is not taken; 8 if there is none.
pub open spec fn nth_free_from(taken: Seq<bool>, k: int, f: int) -> int
    decreases 8 - f,
{
    if f >= 8 {
        8
    } else if !taken[f] {
        if k == 0 {
            f
        } else {
            nth_free_from(taken, k - 1, f + 1)
        }
    } else {
        nth_free_from(taken, k, f + 1)
    }
}

pub open spec fn nth_free(taken: Seq<bool>, k: int) -> int {
    nth_free_from(taken, k, 0)
}

/// The files of the back rank pieces of a Chess960 start position.
pub struct BackRank {
    pub light_bishop: int,
    pub dark_bishop: int,
    pub queen: int,
    pub left_knight: int,
    pub right_knight: int,
    pub left_rook: int,
    pub king: int,
    pub right_rook: int,
}

/// The free squares the two knights take, by the knight digit of a Scharnagl number.
pub open spec fn knight_pair(k: int) -> (int, int) {
    if k == 0 {
        (0, 1)
    } else if k == 1 {
        (0, 2)
    } else if k == 2 {
        (0, 3)
    } else if k == 3 {
        (0, 4)
    } else if k == 4 {
        (1, 2)
    } else if k == 5 {
        (1, 3)
    } else if k == 6 {
        (1, 4)
    } else if k == 7 {
        (2, 3)
    } else if k == 8 {
        (2, 4)
    } else {
        (3, 4)
    }
}

pub open spec fn bishops_taken(n: int) -> Seq<bool> {
    Seq::new(8, |f: int| f == 2 * (n % 4) + 1 || f == 2 * ((n / 4) % 4))
}

pub open spec fn queen_taken(n: int) -> Seq<bool> {
    bishops_taken(n).update(nth_free(bishops_taken(n), (n / 16) % 6), true)
}

pub open spec fn minor_taken(n: int) -> Seq<bool> {
    let t = queen_taken(n);
    let (i, j) = knight_pair(n / 96);
    t.update(nth_free(t, i), true).update(nth_free(t, j), true)
}

/// The back rank of Chess960 start position number `n` (Scharnagl numbering): the light
/// bishop on one of b, d, f, h by `n % 4`, the dark bishop on one of a, c, e, g by the next
/// base-4 digit, the queen on one of the six free files by the base-6 digit after that, the
/// knights by the remaining digit, then rook, king and rook on the three files left over.
pub open spec fn back_rank(n: int) -> BackRank {
    let t2 = queen_taken(n);
    let (i, j) = knight_pair(n / 96);
    let t3 = minor_taken(n);
    BackRank {
        light_bishop: 2 * (n % 4) + 1,
        dark_bishop: 2 * ((n / 4) % 4),
        queen: nth_free(bishops_taken(n), (n / 16) % 6),
        left_knight: nth_free(t2, i),
        right_knight: nth_free(t2, j),
        left_rook: nth_free(t3, 0),
        king: nth_free(t3, 1),
        right_rook: nth_free(t3, 2),
    }
}

/// The piece a back rank puts on file `f`.
pub open spec fn back_rank_piece(b: BackRank, f: int) -> Piece {
    if f == b.light_bishop || f == b.dark_bishop {
        Piece::Bishop
    } else if f == b.queen {
        Piece::Queen
    } else if f == b.left_knight || f == b.right_knight {
        Piece::Knight
    } else if f == b.king {
        Piece::King
    } else {
        Piece::Rook
    }
}

/// What stands on square `i` in the double Chess960 start position `(w, b)`.
pub open spec fn start_occupant(w: int, b: int, i: int) -> Occupant {
    let r = i / 8;
    let f = i % 8;
    if r == 0 {
        Some((Color::White, back_rank_piece(back_rank(w), f)))
    } else if r == 1 {
        Some((Color::White, Piece::Pawn))
    } else if r == 6 {
        Some((Color::Black, Piece::Pawn))
    } else if r == 7 {
        Some((Color::Black, back_rank_piece(back_rank(b), f)))
    } else {
        None
    }
}

pub open spec fn start_rights(n: int) -> CastlingRights {
    CastlingRights {
        short: File::spec_try_index(back_rank(n).right_rook),
        long: File::spec_try_index(back_rank(n).left_rook),
    }
}

/// The double Chess960 start position with white's back rank number `w` and black's `b`:
/// white to move, both sides castling with both rooks, fullmove counter 1.
pub open spec fn dfrc_view(w: int, b: int) -> BoardView {
    BoardView {
        squares: Seq::new(64, |i: int| start_occupant(w, b, i)),
        white_castling: start_rights(w),
        black_castling: start_rights(b),
        en_passant: None,
        duck: None,
        stm: Color::White,
        hmc: 0,
        fmc: 1,
    }
}

proof fn lemma_free_bounds(taken: Seq<bool>, f: int)
    requires
        0 <= f <= 8,
    ensures
        0 <= free_from(taken, f) <= 8 - f,
    decreases 8 - f,
{
    if f < 8 {
        lemma_free_bounds(taken, f + 1);
    }
}

proof fn lemma_nth_free(taken: Seq<bool>, k: int, f: int)
    requires
        taken.len() == 8,
        0 <= f <= 8,
        0 <= k < free_from(taken, f),
    ensures
        f <= nth_free_from(taken, k, f) < 8,
        !taken[nth_free_from(taken, k, f)],
    decreases 8 - f,
{
    if f < 8 {
        if !taken[f] {
            if k > 0 {
                lemma_nth_free(taken, k - 1, f + 1);
            }
        } else {
            lemma_nth_free(taken, k, f + 1);
        }
    }
}

proof fn lemma_nth_increasing(taken: Seq<bool>, i: int, j: int, f: int)
    requires
        taken.len() == 8,
        0 <= f <= 8,
        0 <= i < j < free_from(taken, f),
    ensures
        nth_free_from(taken, i, f) < nth_free_from(taken, j, f),
    decreases 8 - f,
{
    if f < 8 {
        if !taken[f] {
            if i == 0 {
                lemma_nth_free(taken, j - 1, f + 1);
            } else {
                lemma_nth_increasing(taken, i - 1, j - 1, f + 1);
            }
        } else {
            lemma_nth_increasing(taken, i, j, f + 1);
        }
    }
}

proof fn lemma_free_take(taken: Seq<bool>, x: int, f: int)
    requires
        taken.len() == 8,
        0 <= x < 8,
        0 <= f <= 8,
        !taken[x],
    ensures
        free_from(taken.update(x, true), f) == free_from(taken, f) - if x >= f {
            1int
        } else {
            0int
        },
    decreases 8 - f,
{
    if f < 8 {
        lemma_free_take(taken, x, f + 1);
    }
}

proof fn lemma_free_none(taken: Seq<bool>, f: int)
    requires
        taken.len() == 8,
        0 <= f <= 8,
        forall|g: int| 0 <= g < 8 ==> !taken[g],
    ensures
        free_from(taken, f) == 8 - f,
    decreases 8 - f,
{
    if f < 8 {
        lemma_free_none(taken, f + 1);
    }
}

proof fn lemma_nth_of(taken: Seq<bool>, x: int, f: int)
    requires
        taken.len() == 8,
        0 <= f <= x < 8,
        !taken[x],
    ensures
        nth_free_from(taken, free_from(taken, f) - free_from(taken, x), f) == x,
    decreases x - f,
{
    if f < x {
        lemma_nth_of(taken, x, f + 1);
        if !taken[f] {
            lemma_free_bounds(taken, f + 1);
            lemma_free_mono(taken, f + 1, x);
        }
    }
}

proof fn lemma_free_mono(taken: Seq<bool>, f: int, g: int)
    requires
        0 <= f <= g <= 8,
    ensures
        free_from(taken, f) >= free_from(taken, g),
    decreases g - f,
{
    if f < g {
        lemma_free_mono(taken, f + 1, g);
    }
}

proof fn lemma_bishops(n: int)
    requires
        0 <= n < 960,
    ensures
        bishops_taken(n).len() == 8,
        free_from(bishops_taken(n), 0) == 6,
{
    let lb = 2 * (n % 4) + 1;
    let db = 2 * ((n / 4) % 4);
    let none = Seq::new(8, |f: int| false);
    let t1 = bishops_taken(n);
    assert(t1 =~= none.update(lb, true).update(db, true));
    lemma_free_none(none, 0);
    lemma_free_take(none, lb, 0);
    lemma_free_take(none.update(lb, true), db, 0);
}

proof fn lemma_queen(n: int)
    requires
        0 <= n < 960,
    ensures
        ({
            let q = nth_free(bishops_taken(n), (n / 16) % 6);
            &&& 0 <= q < 8
            &&& !bishops_taken(n)[q]
        }),
        queen_taken(n).len() == 8,
        free_from(queen_taken(n), 0) == 5,
{
    lemma_bishops(n);
    let t1 = bishops_taken(n);
    let qi = (n / 16) % 6;
    lemma_nth_free(t1, qi, 0);
    lemma_free_take(t1, nth_free(t1, qi), 0);
}

proof fn lemma_knights(n: int)
    requires
        0 <= n < 960,
    ensures
        ({
            let t2 = queen_taken(n);
            let (i, j) = knight_pair(n / 96);
            &&& 0 <= nth_free(t2, i) < nth_free(t2, j) < 8
            &&& !t2[nth_free(t2, i)]
            &&& !t2[nth_free(t2, j)]
        }),
        minor_taken(n).len() == 8,
        free_from(minor_taken(n), 0) == 3,
{
    lemma_queen(n);
    let t2 = queen_taken(n);
    let (i, j) = knight_pair(n / 96);
    assert(0 <= i < j < 5);
    lemma_nth_free(t2, i, 0);
    lemma_nth_free(t2, j, 0);
    lemma_nth_increasing(t2, i, j, 0);
    let lk = nth_free(t2, i);
    let rk = nth_free(t2, j);
    lemma_free_take(t2, lk, 0);
    lemma_free_take(t2.update(lk, true), rk, 0);
}

proof fn lemma_rooks(n: int)
    requires
        0 <= n < 960,
    ensures
        ({
            let t3 = minor_taken(n);
            &&& 0 <= nth_free(t3, 0) < nth_free(t3, 1) < nth_free(t3, 2) < 8
            &&& !t3[nth_free(t3, 0)] && !t3[nth_free(t3, 1)] && !t3[nth_free(t3, 2)]
            &&& forall|f: int|
                0 <= f < 8 && !#[trigger] t3[f] ==> (f == nth_free(t3, 0) || f == nth_free(t3, 1)
                    || f == nth_free(t3, 2))
        }),
{
    lemma_knights(n);
    let t3 = minor_taken(n);
    lemma_nth_free(t3, 0, 0);
    lemma_nth_free(t3, 1, 0);
    lemma_nth_free(t3, 2, 0);
    lemma_nth_increasing(t3, 0, 1, 0);
    lemma_nth_increasing(t3, 1, 2, 0);
    assert forall|f: int| 0 <= f < 8 && !#[trigger] t3[f] implies (f == nth_free(t3, 0) || f
        == nth_free(t3, 1) || f == nth_free(t3, 2)) by {
        lemma_nth_of(t3, f, 0);
        lemma_free_bounds(t3, f + 1);
        lemma_free_mono(t3, 0, f);
        let k = free_from(t3, 0) - free_from(t3, f);
        assert(0 <= k < 3);
    }
}

/// The knight digit of a Scharnagl number walks through the ten ways to put two knights on
/// the five files left free, in lexicographic order: each pair is two different free files
/// counted from the left, the first before the second, and a higher digit gives a later pair.
pub proof fn lemma_knight_pairs_ordered(k1: int, k2: int)
    requires
        0 <= k1 < k2 < 10,
    ensures
        0 <= knight_pair(k1).0 < knight_pair(k1).1 < 5,
        0 <= knight_pair(k2).0 < knight_pair(k2).1 < 5,
        knight_pair(k1).0 < knight_pair(k2).0 || (knight_pair(k1).0 == knight_pair(k2).0 && knight_pair(k1).1
            < knight_pair(k2).1),
{
}

/// Two Chess960 positions whose numbers differ only in the knight digit (`n` and `n + 96 * d`)
/// have their bishops and queen on the same files, and the higher digit puts the knights on a
/// pair of files that comes strictly later in lexicographic order.
pub proof fn lemma_knight_digit_order(n: int, d: int)
    requires
        0 <= n,
        0 < d,
        n + 96 * d < 960,
    ensures
        back_rank(n).light_bishop == back_rank(n + 96 * d).light_bishop,
        back_rank(n).dark_bishop == back_rank(n + 96 * d).dark_bishop,
        back_rank(n).queen == back_rank(n + 96 * d).queen,
        back_rank(n).left_knight < back_rank(n + 96 * d).left_knight || (back_rank(n).left_knight == back_rank(
            n + 96 * d,
        ).left_knight && back_rank(n).right_knight < back_rank(n + 96 * d).right_knight),
{
    let m = n + 96 * d;
    assert(m % 4 == n % 4);
    assert((m / 4) % 4 == (n / 4) % 4);
    assert((m / 16) % 6 == (n / 16) % 6);
    assert(m / 96 == n / 96 + d);
    assert(bishops_taken(m) =~= bishops_taken(n));
    assert(queen_taken(m) =~= queen_taken(n));
    lemma_queen(n);
    let t2 = queen_taken(n);
    lemma_knight_pairs_ordered(n / 96, m / 96);
    let (i1, j1) = knight_pair(n / 96);
    let (i2, j2) = knight_pair(m / 96);
    if i1 < i2 {
        lemma_nth_increasing(t2, i1, i2, 0);
    } else {
        lemma_nth_increasing(t2, j1, j2, 0);
    }
}

/// The back rank of any Chess960 start position puts eight different pieces on eight files,
/// with the king between its rooks and the bishops on squares of different colors.
pub proof fn lemma_back_rank(n: int)
    requires
        0 <= n < 960,
    ensures
        ({
            let b = back_rank(n);
            &&& 0 <= b.light_bishop < 8 && 0 <= b.dark_bishop < 8 && 0 <= b.queen < 8
            &&& 0 <= b.left_knight < 8 && 0 <= b.right_knight < 8
            &&& 0 <= b.left_rook < b.king < b.right_rook < 8
            &&& b.light_bishop % 2 == 1 && b.dark_bishop % 2 == 0
            &&& b.queen != b.light_bishop && b.queen != b.dark_bishop
            &&& b.left_knight < b.right_knight
            &&& b.left_knight != b.light_bishop && b.left_knight != b.dark_bishop
                && b.left_knight != b.queen
            &&& b.right_knight != b.light_bishop && b.right_knight != b.dark_bishop
                && b.right_knight != b.queen
            &&& b.left_rook != b.light_bishop && b.left_rook != b.dark_bishop && b.left_rook
                != b.queen && b.left_rook != b.left_knight && b.left_rook != b.right_knight
            &&& b.king != b.light_bishop && b.king != b.dark_bishop && b.king != b.queen
                && b.king != b.left_knight && b.king != b.right_knight
            &&& b.right_rook != b.light_bishop && b.right_rook != b.dark_bishop && b.right_rook
                != b.queen && b.right_rook != b.left_knight && b.right_rook != b.right_knight
            &&& forall|f: int|
                0 <= f < 8 && #[trigger] back_rank_piece(b, f) == Piece::Rook ==> (f == b.left_rook
                    || f == b.right_rook)
        }),
{
    lemma_queen(n);
    lemma_knights(n);
    lemma_rooks(n);
    let b = back_rank(n);
    let t3 = minor_taken(n);
    assert forall|f: int|
        0 <= f < 8 && #[trigger] back_rank_piece(b, f) == Piece::Rook implies (f == b.left_rook
        || f == b.right_rook) by {
        assert(!t3[f]);
    }
}

fn nth_free_exec(taken: &Vec<bool>, k: usize) -> (r: usize)
    requires
        taken@.len() == 8,
        k < free_from(taken@, 0),
    ensures
        r == nth_free(taken@, k as int),
        r < 8,
{
    let mut f: usize = 0;
    let mut left: usize = k;
    while f < 8
        invariant
            taken@.len() == 8,
            f <= 8,
            nth_free(taken@, k as int) == nth_free_from(taken@, left as int, f as int),
            left < free_from(taken@, f as int),
        decreases 8 - f,
    {
        if !taken[f] {
            if left == 0 {
                return f;
            }
            left -= 1;
        }
        f += 1;
    }
    f
}

fn take_file(taken: &mut Vec<bool>, f: usize)
    requires
        f < old(taken)@.len(),
    ensures
        final(taken)@ == old(taken)@.update(f as int, true),
{
    taken.set(f, true);
}

/// The back rank of Chess960 position `n`, computed.
fn back_rank_files(n: u16) -> (r: [usize; 8])
    requires
        n < 960,
    ensures
        ({
            let b = back_rank(n as int);
            &&& r[0] == b.light_bishop && r[1] == b.dark_bishop && r[2] == b.queen
            &&& r[3] == b.left_knight && r[4] == b.right_knight
            &&& r[5] == b.left_rook && r[6] == b.king && r[7] == b.right_rook
        }),
{
    proof {
        lemma_bishops(n as int);
        lemma_queen(n as int);
        lemma_knights(n as int);
        lemma_rooks(n as int);
    }
    let light_bishop = 2 * ((n % 4) as usize) + 1;
    let dark_bishop = 2 * (((n / 4) % 4) as usize);
    let mut taken: Vec<bool> = Vec::new();
    let mut f: usize = 0;
    while f < 8
        invariant
            f <= 8,
            taken@.len() == f,
            forall|g: int| 0 <= g < f ==> taken@[g] == (g == light_bishop || g == dark_bishop),
        decreases 8 - f,
    {
        taken.push(f == light_bishop || f == dark_bishop);
        f += 1;
    }
    assert(taken@ =~= bishops_taken(n as int));
    let queen = nth_free_exec(&taken, ((n / 16) % 6) as usize);
    take_file(&mut taken, queen);
    assert(taken@ =~= queen_taken(n as int));
    let k = n / 96;
    let (i, j): (usize, usize) = if k == 0 {
        (0, 1)
    } else if k == 1 {
        (0, 2)
    } else if k == 2 {
        (0, 3)
    } else if k == 3 {
        (0, 4)
    } else if k == 4 {
        (1, 2)
    } else if k == 5 {
        (1, 3)
    } else if k == 6 {
        (1, 4)
    } else if k == 7 {
        (2, 3)
    } else if k == 8 {
        (2, 4)
    } else {
        (3, 4)
    };
    assert(knight_pair(n as int / 96) == (i as int, j as int));
    let left_knight = nth_free_exec(&taken, i);
    let right_knight = nth_free_exec(&taken, j);
    take_file(&mut taken, left_knight);
    take_file(&mut taken, right_knight);
    assert(taken@ =~= minor_taken(n as int));
    let left_rook = nth_free_exec(&taken, 0);
    let king = nth_free_exec(&taken, 1);
    let right_rook = nth_free_exec(&taken, 2);
    [light_bishop, dark_bishop, queen, left_knight, right_knight, left_rook, king, right_rook]
}

/// Puts the back rank of Chess960 position `n` and a row of pawns in front of it for `color`;
/// gives the files of the left and right rooks.
fn write_scharnagl(mailbox: &mut Vec<Occupant>, color: Color, n: u16) -> (r: (usize, usize))
    requires
        old(mailbox)@.len() == 64,
        n < 960,
    ensures
        final(mailbox)@.len() == 64,
        r.0 == back_rank(n as int).left_rook,
        r.1 == back_rank(n as int).right_rook,
        forall|i: int|
            0 <= i < 64 ==> #[trigger] final(mailbox)@[i] == if i / 8 == back_rank_index(color) {
                Some((color, back_rank_piece(back_rank(n as int), i % 8)))
            } else if i / 8 == pawn_rank_index(color) {
                Some((color, Piece::Pawn))
            } else {
                old(mailbox)@[i]
            },
{
    let files = back_rank_files(n);
    let ghost b = back_rank(n as int);
    let back: usize = match color {
        Color::White => 0,
        Color::Black => 7,
    };
    let pawns: usize = match color {
        Color::White => 1,
        Color::Black => 6,
    };
    let mut f: usize = 0;
    while f < 8
        invariant
            f <= 8,
            mailbox@.len() == 64,
            back == back_rank_index(color),
            pawns == pawn_rank_index(color),
            files[0] == b.light_bishop && files[1] == b.dark_bishop && files[2] == b.queen,
            files[3] == b.left_knight && files[4] == b.right_knight,
            files[5] == b.left_rook && files[6] == b.king && files[7] == b.right_rook,
            b == back_rank(n as int),
            forall|i: int|
                0 <= i < 64 ==> #[trigger] mailbox@[i] == if i / 8 == back && i % 8 < f {
                    Some((color, back_rank_piece(b, i % 8)))
                } else if i / 8 == pawns && i % 8 < f {
                    Some((color, Piece::Pawn))
                } else {
                    old(mailbox)@[i]
                },
        decreases 8 - f,
    {
        let piece = if f == files[0] || f == files[1] {
            Piece::Bishop
        } else if f == files[2] {
            Piece::Queen
        } else if f == files[3] || f == files[4] {
            Piece::Knight
        } else if f == files[6] {
            Piece::King
        } else {
            Piece::Rook
        };
        mailbox.set(back * 8 + f, Some((color, piece)));
        mailbox.set(pawns * 8 + f, Some((color, Piece::Pawn)));
        f += 1;
    }
    (files[5], files[7])
}

/// The index of a side's back rank.
pub open spec fn back_rank_index(color: Color) -> int {
    match color {
        Color::White => 0,
        Color::Black => 7,
    }
}

/// The index of the rank a side's pawns start on.
pub open spec fn pawn_rank_index(color: Color) -> int {
    match color {
        Color::White => 1,
        Color::Black => 6,
    }
}

impl Board {
    /// The standard start position.
    pub fn startpos() -> (r: Board)
        ensures
            r@ == dfrc_view(518, 518),
    {
        Board::frc_startpos(518)
    }

    /// Chess960 start position number `scharnagl` for both sides.
    pub fn frc_startpos(scharnagl: u16) -> (r: Board)
        requires
            scharnagl < 960,
        ensures
            r@ == dfrc_view(scharnagl as int, scharnagl as int),
    {
        Board::dfrc_startpos(scharnagl, scharnagl)
    }

    /// Double Chess960 start position: white's back rank is number `white_scharnagl`, black's
    /// number `black_scharnagl`.
    pub fn dfrc_startpos(white_scharnagl: u16, black_scharnagl: u16) -> (r: Board)
        requires
            white_scharnagl < 960,
            black_scharnagl < 960,
        ensures
            r@ == dfrc_view(white_scharnagl as int, black_scharnagl as int),
    {
        let mut mailbox = crate::board::fen::empty_mailbox();
        let (wl, wr) = write_scharnagl(&mut mailbox, Color::White, white_scharnagl);
        let (bl, br) = write_scharnagl(&mut mailbox, Color::Black, black_scharnagl);
        let board = Board {
            mailbox,
            white_castling: CastlingRights::new(File::try_index(wl), File::try_index(wr)),
            black_castling: CastlingRights::new(File::try_index(bl), File::try_index(br)),
            en_passant: None,
            duck: None,
            stm: Color::White,
            hmc: 0,
            fmc: 1,
        };
        assert(board@.squares =~= dfrc_view(white_scharnagl as int, black_scharnagl as int).squares);
        board
    }
}

} // verus!
