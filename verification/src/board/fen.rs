use crate::board::{Board, BoardView, CastlingDirection, CastlingRights, Occupant, same_occupant};
use crate::common::{Color, File, Piece, Rank, Square, is_lower, to_lower, to_upper};
use vstd::prelude::*;

verus! {

/// Unicode white space, as `char::is_whitespace` defines it.
pub open spec fn is_whitespace(c: char) -> bool {
    ||| '\t' <= c <= '\r'
    ||| c == ' '
    ||| c == '\u{85}'
    ||| c == '\u{A0}'
    ||| c == '\u{1680}'
    ||| '\u{2000}' <= c <= '\u{200A}'
    ||| c == '\u{2028}'
    ||| c == '\u{2029}'
    ||| c == '\u{202F}'
    ||| c == '\u{205F}'
    ||| c == '\u{3000}'
}

pub fn char_is_whitespace(c: char) -> (r: bool)
    ensures
        r == is_whitespace(c),
{
    ('\t' <= c && c <= '\r') || c == ' ' || c == '\u{85}' || c == '\u{A0}' || c == '\u{1680}' || (
    '\u{2000}' <= c && c <= '\u{200A}') || c == '\u{2028}' || c == '\u{2029}' || c == '\u{202F}'
        || c == '\u{205F}' || c == '\u{3000}'
}

pub open spec fn views(v: Seq<Vec<char>>) -> Seq<Seq<char>> {
    v.map_values(|x: Vec<char>| x@)
}

/// The words of `s[i..]`, the first of them continuing the word `cur`: maximal runs of
/// characters that are not white space.
pub open spec fn words_from(s: Seq<char>, i: int, cur: Seq<char>) -> Seq<Seq<char>>
    decreases s.len() - i,
{
    if i >= s.len() {
        if cur.len() > 0 {
            seq![cur]
        } else {
            seq![]
        }
    } else if is_whitespace(s[i]) {
        let rest = words_from(s, i + 1, seq![]);
        if cur.len() > 0 {
            seq![cur] + rest
        } else {
            rest
        }
    } else {
        words_from(s, i + 1, cur.push(s[i]))
    }
}

/// The words of `s`, as `str::split_whitespace` gives them.
pub open spec fn words(s: Seq<char>) -> Seq<Seq<char>> {
    words_from(s, 0, seq![])
}

/// The parts of `s[i..]` between occurrences of `sep`, the first continuing `cur`.
pub open spec fn parts_from(s: Seq<char>, sep: char, i: int, cur: Seq<char>) -> Seq<Seq<char>>
    decreases s.len() - i,
{
    if i >= s.len() {
        seq![cur]
    } else if s[i] == sep {
        seq![cur] + parts_from(s, sep, i + 1, seq![])
    } else {
        parts_from(s, sep, i + 1, cur.push(s[i]))
    }
}

/// The parts of `s` between occurrences of `sep`, as `str::split` gives them.
pub open spec fn parts(s: Seq<char>, sep: char) -> Seq<Seq<char>> {
    parts_from(s, sep, 0, seq![])
}

fn split_whitespace(s: &Vec<char>) -> (r: Vec<Vec<char>>)
    ensures
        views(r@) == words(s@),
{
    let mut out: Vec<Vec<char>> = Vec::new();
    let mut cur: Vec<char> = Vec::new();
    let mut i: usize = 0;
    while i < s.len()
        invariant
            i <= s@.len(),
            views(out@) + words_from(s@, i as int, cur@) == words(s@),
        decreases s.len() - i,
    {
        let c = s[i];
        let ghost old_out = out@;
        let ghost old_cur = cur@;
        assert(words_from(s@, i as int, old_cur) == if is_whitespace(c) {
            if old_cur.len() > 0 {
                seq![old_cur] + words_from(s@, i + 1, seq![])
            } else {
                words_from(s@, i + 1, seq![])
            }
        } else {
            words_from(s@, i + 1, old_cur.push(c))
        });
        if char_is_whitespace(c) {
            if cur.len() > 0 {
                out.push(cur);
                cur = Vec::new();
                assert(views(out@) =~= views(old_out).push(old_cur));
                assert(views(out@) + words_from(s@, i + 1, cur@) =~= views(old_out) + (seq![
                    old_cur,
                ] + words_from(s@, i + 1, seq![])));
            } else {
                cur = Vec::new();
                assert(cur@ =~= seq![]);
            }
        } else {
            cur.push(c);
        }
        i += 1;
    }
    let ghost old_out = out@;
    if cur.len() > 0 {
        let ghost old_cur = cur@;
        out.push(cur);
        assert(views(out@) =~= views(old_out) + seq![old_cur]);
    } else {
        assert(views(out@) =~= views(old_out) + seq![]);
    }
    out
}

fn split_on(s: &Vec<char>, sep: char) -> (r: Vec<Vec<char>>)
    ensures
        views(r@) == parts(s@, sep),
{
    let mut out: Vec<Vec<char>> = Vec::new();
    let mut cur: Vec<char> = Vec::new();
    let mut i: usize = 0;
    while i < s.len()
        invariant
            i <= s@.len(),
            views(out@) + parts_from(s@, sep, i as int, cur@) == parts(s@, sep),
        decreases s.len() - i,
    {
        let c = s[i];
        let ghost old_out = out@;
        let ghost old_cur = cur@;
        if c == sep {
            out.push(cur);
            cur = Vec::new();
            assert(views(out@) =~= views(old_out).push(old_cur));
            assert(views(out@) + parts_from(s@, sep, i + 1, cur@) =~= views(old_out) + (seq![
                old_cur,
            ] + parts_from(s@, sep, i + 1, seq![])));
        } else {
            cur.push(c);
        }
        i += 1;
    }
    let ghost old_out = out@;
    let ghost old_cur = cur@;
    out.push(cur);
    assert(views(out@) =~= views(old_out) + seq![old_cur]);
    out
}

pub open spec fn is_digit(c: char) -> bool {
    '0' <= c <= '9'
}

pub open spec fn digit_value(c: char) -> int {
    (c as u32) - ('0' as u32)
}

/// Pieces and duck placed on the board while a FEN is read.
pub struct Placement {
    pub squares: Seq<Occupant>,
    pub duck: Option<int>,
}

pub open spec fn empty_placement() -> Placement {
    Placement { squares: Seq::new(64, |i: int| None), duck: None }
}

/// Reads `row[i..]`, one row of a FEN's piece placement, onto rank `rank` from file `file` on:
/// a digit skips that many files, `*` places the duck, a piece letter places a piece, white
/// for an uppercase letter. The row must end exactly after the eighth file.
pub open spec fn place_row_from(p: Placement, rank: int, row: Seq<char>, i: int, file: int) -> Option<
    Placement,
>
    decreases row.len() - i,
{
    if i >= row.len() {
        if file == 8 {
            Some(p)
        } else {
            None
        }
    } else {
        let c = row[i];
        if is_digit(c) {
            place_row_from(p, rank, row, i + 1, file + digit_value(c))
        } else if file >= 8 {
            None
        } else if c == '*' {
            if p.duck is Some {
                None
            } else {
                place_row_from(
                    Placement { duck: Some(rank * 8 + file), ..p },
                    rank,
                    row,
                    i + 1,
                    file + 1,
                )
            }
        } else {
            match Piece::spec_from_char(c) {
                None => None,
                Some(piece) => if p.squares[rank * 8 + file] is Some {
                    None
                } else {
                    place_row_from(
                        Placement {
                            squares: p.squares.update(
                                rank * 8 + file,
                                Some((Color::spec_from_lowercase(is_lower(c)), piece)),
                            ),
                            ..p
                        },
                        rank,
                        row,
                        i + 1,
                        file + 1,
                    )
                },
            }
        }
    }
}

/// Reads the rows of a piece placement from the `k`-th last on; the last row is the first rank.
pub open spec fn place_rows_from(p: Placement, rows: Seq<Seq<char>>, k: int) -> Option<Placement>
    decreases rows.len() - k,
{
    if k >= rows.len() {
        Some(p)
    } else if k >= 8 {
        None
    } else {
        match place_row_from(p, k, rows[rows.len() - 1 - k], 0, 0) {
            None => None,
            Some(q) => place_rows_from(q, rows, k + 1),
        }
    }
}

/// The pieces and duck a FEN's piece placement field describes.
pub open spec fn place_pieces(s: Seq<char>) -> Option<Placement> {
    place_rows_from(empty_placement(), parts(s, '/'), 0)
}

proof fn lemma_row_overflow(p: Placement, rank: int, row: Seq<char>, i: int, file: int)
    requires
        file > 8,
    ensures
        place_row_from(p, rank, row, i, file) is None,
    decreases row.len() - i,
{
    if i < row.len() && is_digit(row[i]) {
        lemma_row_overflow(p, rank, row, i + 1, file + digit_value(row[i]));
    }
}

pub open spec fn placement_of(mailbox: Seq<Occupant>, duck: Option<Square>) -> Placement {
    Placement { squares: mailbox, duck: crate::board::opt_square_view(duck) }
}

fn place_row(mailbox: &mut Vec<Occupant>, duck: &mut Option<Square>, rank: usize, row: &Vec<char>) -> (ok:
    bool)
    requires
        old(mailbox)@.len() == 64,
        rank < 8,
    ensures
        final(mailbox)@.len() == 64,
        ok == place_row_from(placement_of(old(mailbox)@, *old(duck)), rank as int, row@, 0, 0) is Some,
        ok ==> place_row_from(placement_of(old(mailbox)@, *old(duck)), rank as int, row@, 0, 0)
            == Some(placement_of(final(mailbox)@, *final(duck))),
{
    let ghost start = placement_of(mailbox@, *duck);
    let mut file: usize = 0;
    let mut i: usize = 0;
    while i < row.len()
        invariant
            start == placement_of(old(mailbox)@, *old(duck)),
            mailbox@.len() == 64,
            rank < 8,
            file <= 8,
            i <= row@.len(),
            place_row_from(start, rank as int, row@, 0, 0) == place_row_from(
                placement_of(mailbox@, *duck),
                rank as int,
                row@,
                i as int,
                file as int,
            ),
        decreases row.len() - i,
    {
        let c = row[i];
        let ghost cur = placement_of(mailbox@, *duck);
        if '0' <= c && c <= '9' {
            let d = ((c as u32) - ('0' as u32)) as usize;
            if file + d > 8 {
                proof {
                    lemma_row_overflow(cur, rank as int, row@, i + 1, file + d);
                }
                return false;
            }
            file = file + d;
        } else {
            if file >= 8 {
                return false;
            }
            if c == '*' {
                if duck.is_some() {
                    return false;
                }
                *duck = Some(Square::from_index(rank * 8 + file));
                assert(placement_of(mailbox@, *duck) == Placement {
                    duck: Some(rank * 8 + file),
                    ..cur
                });
            } else {
                match Piece::from_char(c) {
                    None => {
                        return false;
                    },
                    Some(piece) => {
                        let idx = rank * 8 + file;
                        if mailbox[idx].is_some() {
                            return false;
                        }
                        let color = Color::from_lowercase(crate::common::is_ascii_lowercase(c));
                        mailbox[idx] = Some((color, piece));
                        assert(placement_of(mailbox@, *duck) == Placement {
                            squares: cur.squares.update(idx as int, Some((color, piece))),
                            ..cur
                        });
                    },
                }
            }
            file = file + 1;
        }
        i += 1;
    }
    file == 8
}

pub(crate) fn empty_mailbox() -> (r: Vec<Occupant>)
    ensures
        r@ == empty_placement().squares,
{
    let mut m: Vec<Occupant> = Vec::new();
    let mut i: usize = 0;
    while i < 64
        invariant
            i <= 64,
            m@.len() == i,
            forall|j: int| 0 <= j < i ==> m@[j] is None,
        decreases 64 - i,
    {
        m.push(None);
        i += 1;
    }
    assert(m@ =~= empty_placement().squares);
    m
}

fn place_rows(rows: &Vec<Vec<char>>) -> (r: Option<(Vec<Occupant>, Option<Square>)>)
    ensures
        match r {
            None => place_rows_from(empty_placement(), views(rows@), 0) is None,
            Some((m, d)) => place_rows_from(empty_placement(), views(rows@), 0) == Some(
                placement_of(m@, d),
            ) && m@.len() == 64,
        },
{
    let mut mailbox = empty_mailbox();
    let mut duck: Option<Square> = None;
    let mut k: usize = 0;
    assert(placement_of(mailbox@, duck) == empty_placement());
    while k < rows.len()
        invariant
            mailbox@.len() == 64,
            k <= rows@.len(),
            place_rows_from(empty_placement(), views(rows@), 0) == place_rows_from(
                placement_of(mailbox@, duck),
                views(rows@),
                k as int,
            ),
        decreases rows.len() - k,
    {
        if k >= 8 {
            return None;
        }
        let row = &rows[rows.len() - 1 - k];
        assert(views(rows@)[rows@.len() - 1 - k] == row@);
        if !place_row(&mut mailbox, &mut duck, k, row) {
            return None;
        }
        k += 1;
    }
    Some((mailbox, duck))
}

/// How many of the squares `sq[0..n]` hold `o`.
pub open spec fn count_occupant(sq: Seq<Occupant>, o: Occupant, n: int) -> int
    decreases n,
{
    if n <= 0 {
        0
    } else {
        count_occupant(sq, o, n - 1) + if sq[n - 1] == o {
            1int
        } else {
            0int
        }
    }
}

/// The lowest square from `i` on that holds `o`.
pub open spec fn first_occupant_from(sq: Seq<Occupant>, o: Occupant, i: int) -> Option<int>
    decreases 64 - i,
{
    if i >= 64 {
        None
    } else if sq[i] == o {
        Some(i)
    } else {
        first_occupant_from(sq, o, i + 1)
    }
}

fn count_on(mailbox: &Vec<Occupant>, o: Occupant) -> (r: usize)
    requires
        mailbox@.len() == 64,
    ensures
        r == count_occupant(mailbox@, o, 64),
{
    let mut n: usize = 0;
    let mut i: usize = 0;
    while i < 64
        invariant
            mailbox@.len() == 64,
            i <= 64,
            n == count_occupant(mailbox@, o, i as int),
            n <= i,
        decreases 64 - i,
    {
        if same_occupant(mailbox[i], o) {
            n += 1;
        }
        i += 1;
    }
    n
}

fn first_on(mailbox: &Vec<Occupant>, o: Occupant) -> (r: Option<usize>)
    requires
        mailbox@.len() == 64,
    ensures
        match r {
            Some(i) => first_occupant_from(mailbox@, o, 0) == Some(i as int) && i < 64,
            None => first_occupant_from(mailbox@, o, 0) is None,
        },
{
    let mut i: usize = 0;
    while i < 64
        invariant
            mailbox@.len() == 64,
            i <= 64,
            first_occupant_from(mailbox@, o, 0) == first_occupant_from(mailbox@, o, i as int),
        decreases 64 - i,
    {
        if same_occupant(mailbox[i], o) {
            return Some(i);
        }
        i += 1;
    }
    None
}

/// The highest file from `f` down to `lo` whose square on `rank` holds `o`.
pub open spec fn scan_down(sq: Seq<Occupant>, o: Occupant, rank: int, lo: int, f: int) -> Option<int>
    decreases f + 1,
{
    if f < lo || f < 0 {
        None
    } else if sq[rank * 8 + f] == o {
        Some(f)
    } else {
        scan_down(sq, o, rank, lo, f - 1)
    }
}

/// The lowest file from `f` up to `hi` whose square on `rank` holds `o`.
pub open spec fn scan_up(sq: Seq<Occupant>, o: Occupant, rank: int, hi: int, f: int) -> Option<int>
    decreases 8 - f,
{
    if f > hi || f >= 8 {
        None
    } else if sq[rank * 8 + f] == o {
        Some(f)
    } else {
        scan_up(sq, o, rank, hi, f + 1)
    }
}

/// The rook file one castling letter names, for a king on file `kf` of rank `back`: a file
/// letter names its file; `K` the outermost rook towards the h-file, `Q` the outermost rook
/// towards the a-file.
pub open spec fn castling_rook_file(sq: Seq<Occupant>, color: Color, kf: int, back: int, c: char) -> Option<
    int,
> {
    let l = to_lower(c);
    if 'a' <= l <= 'h' {
        Some((l as u32) - ('a' as u32))
    } else if l == 'k' {
        scan_down(sq, Some((color, Piece::Rook)), back, kf + 1, 7)
    } else if l == 'q' {
        scan_up(sq, Some((color, Piece::Rook)), back, kf - 1, 0)
    } else {
        None
    }
}

pub open spec fn set_rights(
    rights: (CastlingRights, CastlingRights),
    color: Color,
    dir: CastlingDirection,
    file: Option<File>,
) -> (CastlingRights, CastlingRights) {
    match color {
        Color::White => (rights.0.spec_set(dir, file), rights.1),
        Color::Black => (rights.0, rights.1.spec_set(dir, file)),
    }
}

/// Reads the castling letters `tok[i..]` into `rights`. Each names a rook of the side its case
/// gives, whose king must stand on its back rank; a rook beyond the king's file gives the
/// short right, any other the long one.
pub open spec fn castling_from(
    sq: Seq<Occupant>,
    rights: (CastlingRights, CastlingRights),
    tok: Seq<char>,
    i: int,
) -> Option<(CastlingRights, CastlingRights)>
    decreases tok.len() - i,
{
    if i >= tok.len() {
        Some(rights)
    } else {
        let c = tok[i];
        let color = Color::spec_from_lowercase(is_lower(c));
        let back = Rank::First.spec_relative_index(color);
        match first_occupant_from(sq, Some((color, Piece::King)), 0) {
            None => None,
            Some(ks) => if ks / 8 != back {
                None
            } else {
                match castling_rook_file(sq, color, ks % 8, back, c) {
                    None => None,
                    Some(f) => castling_from(
                        sq,
                        set_rights(
                            rights,
                            color,
                            if f > ks % 8 {
                                CastlingDirection::Short
                            } else {
                                CastlingDirection::Long
                            },
                            File::spec_try_index(f),
                        ),
                        tok,
                        i + 1,
                    ),
                }
            },
        }
    }
}

/// The castling rights a FEN's castling field gives: `-` for none, else at most four letters.
pub open spec fn parse_castling(sq: Seq<Occupant>, tok: Seq<char>) -> Option<
    (CastlingRights, CastlingRights),
> {
    if tok.len() > 4 {
        None
    } else if tok == seq!['-'] {
        Some((CastlingRights::spec_none(), CastlingRights::spec_none()))
    } else {
        castling_from(sq, (CastlingRights::spec_none(), CastlingRights::spec_none()), tok, 0)
    }
}

fn scan_down_exec(mailbox: &Vec<Occupant>, o: Occupant, rank: usize, lo: usize) -> (r: Option<
    usize,
>)
    requires
        mailbox@.len() == 64,
        rank < 8,
    ensures
        match r {
            Some(f) => scan_down(mailbox@, o, rank as int, lo as int, 7) == Some(f as int) && f < 8,
            None => scan_down(mailbox@, o, rank as int, lo as int, 7) is None,
        },
{
    let mut f: usize = 8;
    while f > lo && f > 0
        invariant
            mailbox@.len() == 64,
            rank < 8,
            f <= 8,
            scan_down(mailbox@, o, rank as int, lo as int, 7) == scan_down(
                mailbox@,
                o,
                rank as int,
                lo as int,
                f - 1,
            ),
        decreases f,
    {
        if same_occupant(mailbox[rank * 8 + f - 1], o) {
            return Some(f - 1);
        }
        f -= 1;
    }
    None
}

fn scan_up_exec(mailbox: &Vec<Occupant>, o: Occupant, rank: usize, end: usize) -> (r: Option<
    usize,
>)
    requires
        mailbox@.len() == 64,
        rank < 8,
    ensures
        match r {
            Some(f) => scan_up(mailbox@, o, rank as int, end - 1, 0) == Some(f as int) && f < 8,
            None => scan_up(mailbox@, o, rank as int, end - 1, 0) is None,
        },
{
    let mut f: usize = 0;
    while f < end && f < 8
        invariant
            mailbox@.len() == 64,
            rank < 8,
            f <= 8,
            scan_up(mailbox@, o, rank as int, end - 1, 0) == scan_up(
                mailbox@,
                o,
                rank as int,
                end - 1,
                f as int,
            ),
        decreases 8 - f,
    {
        if same_occupant(mailbox[rank * 8 + f], o) {
            return Some(f);
        }
        f += 1;
    }
    None
}

fn rights_set(
    rights: (CastlingRights, CastlingRights),
    color: Color,
    dir: CastlingDirection,
    file: Option<File>,
) -> (r: (CastlingRights, CastlingRights))
    ensures
        r == set_rights(rights, color, dir, file),
{
    let (mut white, mut black) = rights;
    match color {
        Color::White => white.set(dir, file),
        Color::Black => black.set(dir, file),
    }
    (white, black)
}

fn parse_castling_exec(mailbox: &Vec<Occupant>, tok: &Vec<char>) -> (r: Option<
    (CastlingRights, CastlingRights),
>)
    requires
        mailbox@.len() == 64,
    ensures
        r == parse_castling(mailbox@, tok@),
{
    let none = CastlingRights::new(None, None);
    if tok.len() > 4 {
        return None;
    }
    if tok.len() == 1 && tok[0] == '-' {
        assert(tok@ =~= seq!['-']);
        return Some((none, none));
    }
    assert(tok@ != seq!['-']) by {
        if tok@ == seq!['-'] {
            assert(tok@.len() == 1 && tok@[0] == '-');
        }
    }
    let mut rights = (none, none);
    let mut i: usize = 0;
    while i < tok.len()
        invariant
            mailbox@.len() == 64,
            i <= tok@.len(),
            parse_castling(mailbox@, tok@) == castling_from(mailbox@, rights, tok@, i as int),
        decreases tok.len() - i,
    {
        let c = tok[i];
        let color = Color::from_lowercase(crate::common::is_ascii_lowercase(c));
        let back = Rank::First.relative_to(color).index();
        let ks = match first_on(mailbox, Some((color, Piece::King))) {
            None => {
                return None;
            },
            Some(ks) => ks,
        };
        if ks / 8 != back {
            return None;
        }
        let kf = ks % 8;
        let l = crate::common::ascii_lowercase(c);
        let rook = Some((color, Piece::Rook));
        let f = if 'a' <= l && l <= 'h' {
            ((l as u32) - ('a' as u32)) as usize
        } else if l == 'k' {
            match scan_down_exec(mailbox, rook, back, kf + 1) {
                None => {
                    return None;
                },
                Some(f) => f,
            }
        } else if l == 'q' {
            match scan_up_exec(mailbox, rook, back, kf) {
                None => {
                    return None;
                },
                Some(f) => f,
            }
        } else {
            return None;
        };
        assert(castling_rook_file(mailbox@, color, kf as int, back as int, c) == Some(f as int));
        let dir = if f > kf {
            CastlingDirection::Short
        } else {
            CastlingDirection::Long
        };
        rights = rights_set(rights, color, dir, File::try_index(f));
        i += 1;
    }
    Some(rights)
}

/// The number of the square a two-letter name like `e3` names.
pub open spec fn parse_square(tok: Seq<char>) -> Option<int> {
    if tok.len() == 2 {
        match (File::spec_from_char(tok[0]), Rank::spec_from_char(tok[1])) {
            (Some(f), Some(r)) => Some(r.spec_index() * 8 + f.spec_index()),
            _ => None,
        }
    } else {
        None
    }
}

/// A FEN's en passant field: `-`, or a square on the sixth rank seen from the side to move.
pub open spec fn parse_en_passant(tok: Seq<char>, stm: Color) -> Option<Option<int>> {
    if tok == seq!['-'] {
        Some(None)
    } else {
        match parse_square(tok) {
            None => None,
            Some(s) => if s / 8 == Rank::Sixth.spec_relative_index(stm) {
                Some(Some(s))
            } else {
                None
            },
        }
    }
}

fn parse_en_passant_exec(tok: &Vec<char>, stm: Color) -> (r: Option<Option<Square>>)
    ensures
        match r {
            None => parse_en_passant(tok@, stm) is None,
            Some(ep) => parse_en_passant(tok@, stm) == Some(crate::board::opt_square_view(ep)),
        },
{
    if tok.len() == 1 && tok[0] == '-' {
        assert(tok@ =~= seq!['-']);
        return Some(None);
    }
    assert(tok@ != seq!['-']) by {
        if tok@ == seq!['-'] {
            assert(tok@.len() == 1 && tok@[0] == '-');
        }
    }
    if tok.len() != 2 {
        return None;
    }
    let file = match File::from_char(tok[0]) {
        None => {
            return None;
        },
        Some(f) => f,
    };
    let rank = match Rank::from_char(tok[1]) {
        None => {
            return None;
        },
        Some(r) => r,
    };
    let sq = Square::new(file, rank);
    if rank.index() != Rank::Sixth.relative_to(stm).index() {
        return None;
    }
    Some(Some(sq))
}

/// The value of a string of decimal digits.
pub open spec fn digits_value(s: Seq<char>) -> int
    decreases s.len(),
{
    if s.len() == 0 {
        0
    } else {
        digits_value(s.drop_last()) * 10 + digit_value(s.last())
    }
}

pub open spec fn all_digits(s: Seq<char>) -> bool {
    forall|i: int| 0 <= i < s.len() ==> is_digit(#[trigger] s[i])
}

/// An unsigned integer of at most `max` as `str::parse` reads it: an optional `+`, then one
/// or more decimal digits.
pub open spec fn parse_unsigned(s: Seq<char>, max: int) -> Option<int> {
    let d = if s.len() > 0 && s[0] == '+' {
        s.drop_first()
    } else {
        s
    };
    if d.len() > 0 && all_digits(d) && digits_value(d) <= max {
        Some(digits_value(d))
    } else {
        None
    }
}

proof fn lemma_digits_grow(s: Seq<char>, k: int)
    requires
        all_digits(s),
        0 <= k <= s.len(),
    ensures
        digits_value(s) >= digits_value(s.take(k)) >= 0,
    decreases s.len(),
{
    if s.len() > 0 {
        if k == s.len() {
            assert(s.take(k) =~= s);
            lemma_digits_grow(s.drop_last(), k - 1);
        } else {
            assert(s.drop_last().take(k) =~= s.take(k));
            lemma_digits_grow(s.drop_last(), k);
        }
    } else {
        assert(s.take(k) =~= s);
    }
}

fn parse_unsigned_exec(s: &Vec<char>, max: u32) -> (r: Option<u32>)
    requires
        max <= 65535,
    ensures
        match r {
            None => parse_unsigned(s@, max as int) is None,
            Some(v) => parse_unsigned(s@, max as int) == Some(v as int),
        },
{
    let start: usize = if s.len() > 0 && s[0] == '+' {
        1
    } else {
        0
    };
    let ghost d = if s@.len() > 0 && s@[0] == '+' {
        s@.drop_first()
    } else {
        s@
    };
    assert(d =~= s@.subrange(start as int, s@.len() as int));
    if start >= s.len() {
        return None;
    }
    let mut v: u32 = 0;
    let mut i: usize = start;
    while i < s.len()
        invariant
            start <= i <= s@.len(),
            d =~= s@.subrange(start as int, s@.len() as int),
            d == (if s@.len() > 0 && s@[0] == '+' {
                s@.drop_first()
            } else {
                s@
            }),
            v as int == digits_value(d.take(i - start)),
            all_digits(d.take(i - start)),
            v <= max,
            max <= 65535,
        decreases s.len() - i,
    {
        let c = s[i];
        assert(d[i - start] == c);
        if !('0' <= c && c <= '9') {
            return None;
        }
        let nv = v * 10 + ((c as u32) - ('0' as u32));
        assert(d.take(i - start + 1).drop_last() =~= d.take(i - start));
        assert(nv == digits_value(d.take(i - start + 1)));
        assert(all_digits(d.take(i - start + 1)));
        if nv > max {
            proof {
                if all_digits(d) {
                    lemma_digits_grow(d, i - start + 1);
                }
            }
            return None;
        }
        v = nv;
        i += 1;
    }
    assert(d.take(i - start) =~= d);
    Some(v)
}

/// The board a FEN string describes, as `Board::from_fen` reads it: six fields separated by
/// white space, giving the piece placement (with `*` for the duck), the side to move, the
/// castling rights, the en passant square, the halfmove clock (kept at most 100) and the
/// fullmove counter (kept at least 1). At least one side must have exactly one king.
pub open spec fn parse_fen(s: Seq<char>) -> Option<BoardView> {
    let w = words(s);
    if w.len() != 6 {
        None
    } else {
        match place_pieces(w[0]) {
            None => None,
            Some(pl) => if count_occupant(pl.squares, Some((Color::White, Piece::King)), 64) != 1
                && count_occupant(pl.squares, Some((Color::Black, Piece::King)), 64) != 1 {
                None
            } else {
                match (if w[1].len() == 1 {
                    Color::spec_from_char(w[1][0])
                } else {
                    None
                }) {
                    None => None,
                    Some(stm) => match parse_castling(pl.squares, w[2]) {
                        None => None,
                        Some(rights) => match parse_en_passant(w[3], stm) {
                            None => None,
                            Some(ep) => match parse_unsigned(w[4], 255) {
                                None => None,
                                Some(h) => match parse_unsigned(w[5], 65535) {
                                    None => None,
                                    Some(f) => Some(
                                        BoardView {
                                            squares: pl.squares,
                                            white_castling: rights.0,
                                            black_castling: rights.1,
                                            en_passant: ep,
                                            duck: pl.duck,
                                            stm,
                                            hmc: (if h < 100 {
                                                h
                                            } else {
                                                100
                                            }) as u8,
                                            fmc: (if f > 1 {
                                                f
                                            } else {
                                                1
                                            }) as u16,
                                        },
                                    ),
                                },
                            },
                        },
                    },
                }
            },
        }
    }
}

impl Board {
    /// Reads a board from FEN; `None` when the string is not a FEN this library accepts.
    pub fn from_fen(fen: &str) -> (r: Option<Board>)
        ensures
            match r {
                None => parse_fen(fen@) is None,
                Some(b) => parse_fen(fen@) == Some(b@),
            },
    {
        let chars = crate::board::chars_of(fen);
        let w = split_whitespace(&chars);
        if w.len() != 6 {
            return None;
        }
        assert(views(w@)[0] == w@[0]@ && views(w@)[1] == w@[1]@ && views(w@)[2] == w@[2]@
            && views(w@)[3] == w@[3]@ && views(w@)[4] == w@[4]@ && views(w@)[5] == w@[5]@);
        let rows = split_on(&w[0], '/');
        let (mailbox, duck) = match place_rows(&rows) {
            None => {
                return None;
            },
            Some(p) => p,
        };
        let white_kings = count_on(&mailbox, Some((Color::White, Piece::King)));
        let black_kings = count_on(&mailbox, Some((Color::Black, Piece::King)));
        if white_kings != 1 && black_kings != 1 {
            return None;
        }
        let stm = if w[1].len() == 1 {
            match Color::from_char(w[1][0]) {
                None => {
                    return None;
                },
                Some(c) => c,
            }
        } else {
            return None;
        };
        let rights = match parse_castling_exec(&mailbox, &w[2]) {
            None => {
                return None;
            },
            Some(r) => r,
        };
        let en_passant = match parse_en_passant_exec(&w[3], stm) {
            None => {
                return None;
            },
            Some(ep) => ep,
        };
        let h = match parse_unsigned_exec(&w[4], 255) {
            None => {
                return None;
            },
            Some(h) => h,
        };
        let f = match parse_unsigned_exec(&w[5], 65535) {
            None => {
                return None;
            },
            Some(f) => f,
        };
        let hmc: u8 = if h < 100 {
            h as u8
        } else {
            100
        };
        let fmc: u16 = if f > 1 {
            f as u16
        } else {
            1
        };
        Some(
            Board {
                mailbox,
                white_castling: rights.0,
                black_castling: rights.1,
                en_passant,
                duck,
                stm,
                hmc,
                fmc,
            },
        )
    }
}

/// The letter of a piece in FEN: uppercase for white.
pub open spec fn occupant_char(c: Color, p: Piece) -> char {
    match c {
        Color::White => to_upper(p.spec_to_char()),
        Color::Black => p.spec_to_char(),
    }
}

pub open spec fn digit_char(n: int) -> char {
    (('0' as u32) + n) as char
}

/// The run of `empty` empty squares written so far, if any.
pub open spec fn flush(empty: int) -> Seq<char> {
    if empty > 0 {
        seq![digit_char(empty)]
    } else {
        seq![]
    }
}

/// FEN text of rank `rank` from file `f` on, after `empty` empty squares.
pub open spec fn row_text_from(v: BoardView, rank: int, f: int, empty: int) -> Seq<char>
    decreases 8 - f,
{
    if f >= 8 {
        flush(empty)
    } else {
        match v.squares[rank * 8 + f] {
            Some((c, p)) => flush(empty) + seq![occupant_char(c, p)] + row_text_from(
                v,
                rank,
                f + 1,
                0,
            ),
            None => if v.duck == Some(rank * 8 + f) {
                flush(empty) + seq!['*'] + row_text_from(v, rank, f + 1, 0)
            } else {
                row_text_from(v, rank, f + 1, empty + 1)
            },
        }
    }
}

/// FEN text of the ranks below `k`, from the highest down, separated by `/`.
pub open spec fn ranks_text(v: BoardView, k: int) -> Seq<char>
    decreases k,
{
    if k <= 1 {
        row_text_from(v, 0, 0, 0)
    } else {
        row_text_from(v, k - 1, 0, 0) + seq!['/'] + ranks_text(v, k - 1)
    }
}

/// The letter of one castling right: the rook's file in Shredder notation, else `K` or `Q`;
/// uppercase for white.
pub open spec fn right_text(right: Option<File>, color: Color, dir: CastlingDirection, frc: bool) -> Seq<
    char,
> {
    match right {
        None => seq![],
        Some(file) => {
            let lower = if frc {
                file.spec_to_char()
            } else {
                match dir {
                    CastlingDirection::Short => 'k',
                    CastlingDirection::Long => 'q',
                }
            };
            seq![
                match color {
                    Color::White => to_upper(lower),
                    Color::Black => lower,
                },
            ]
        },
    }
}

pub open spec fn castling_text(v: BoardView, frc: bool) -> Seq<char> {
    let t = right_text(v.white_castling.short, Color::White, CastlingDirection::Short, frc)
        + right_text(v.white_castling.long, Color::White, CastlingDirection::Long, frc)
        + right_text(v.black_castling.short, Color::Black, CastlingDirection::Short, frc)
        + right_text(v.black_castling.long, Color::Black, CastlingDirection::Long, frc);
    if t.len() == 0 {
        seq!['-']
    } else {
        t
    }
}

/// The en passant square's name: its file, on the sixth rank seen from the side to move.
pub open spec fn en_passant_text(v: BoardView) -> Seq<char> {
    match v.en_passant {
        None => seq!['-'],
        Some(s) => seq![
            (('a' as u32) + s % 8) as char,
            (('1' as u32) + Rank::Sixth.spec_relative_index(v.stm)) as char,
        ],
    }
}

/// The decimal digits of `n`.
pub open spec fn decimal(n: nat) -> Seq<char>
    decreases n,
{
    if n < 10 {
        seq![digit_char(n as int)]
    } else {
        decimal(n / 10).push(digit_char((n % 10) as int))
    }
}

/// The FEN text of a board, as `Board::to_fen` writes it.
pub open spec fn fen_text(v: BoardView, frc: bool) -> Seq<char> {
    ranks_text(v, 8) + seq![' ', v.stm.spec_to_char(), ' '] + castling_text(v, frc) + seq![' ']
        + en_passant_text(v) + seq![' '] + decimal(v.hmc as nat) + seq![' '] + decimal(
        v.fmc as nat,
    )
}

fn digit(n: u16) -> (r: char)
    requires
        n < 10,
    ensures
        r == digit_char(n as int),
{
    ((n as u8) + 48u8) as char
}

fn push_decimal(out: &mut Vec<char>, n: u16)
    ensures
        final(out)@ == old(out)@ + decimal(n as nat),
    decreases n,
{
    if n < 10 {
        out.push(digit(n));
    } else {
        push_decimal(out, n / 10);
        out.push(digit(n % 10));
        assert(decimal(n as nat) == decimal((n / 10) as nat).push(digit_char((n % 10) as int)));
    }
}

fn push_all(out: &mut Vec<char>, s: &Vec<char>)
    ensures
        final(out)@ == old(out)@ + s@,
{
    let mut i: usize = 0;
    while i < s.len()
        invariant
            i <= s@.len(),
            out@ == old(out)@ + s@.take(i as int),
        decreases s.len() - i,
    {
        out.push(s[i]);
        i += 1;
        assert(s@.take(i as int) =~= s@.take(i - 1).push(s@[i - 1]));
    }
    assert(s@.take(i as int) =~= s@);
}

fn push_flush(out: &mut Vec<char>, empty: u16)
    requires
        empty < 10,
    ensures
        final(out)@ == old(out)@ + flush(empty as int),
{
    if empty > 0 {
        out.push(digit(empty));
    } else {
        assert(old(out)@ + flush(empty as int) =~= old(out)@);
    }
}

fn right_letter(right: Option<File>, color: Color, dir: CastlingDirection, frc: bool, out: &mut Vec<
    char,
>)
    ensures
        final(out)@ == old(out)@ + right_text(right, color, dir, frc),
{
    match right {
        None => {
            assert(old(out)@ + right_text(right, color, dir, frc) =~= old(out)@);
        },
        Some(file) => {
            let lower = if frc {
                file.to_char()
            } else {
                match dir {
                    CastlingDirection::Short => 'k',
                    CastlingDirection::Long => 'q',
                }
            };
            let c = match color {
                Color::White => crate::common::ascii_uppercase(lower),
                Color::Black => lower,
            };
            out.push(c);
        },
    }
}

impl Board {
    fn write_row(&self, out: &mut Vec<char>, rank: usize)
        requires
            rank < 8,
        ensures
            final(out)@ == old(out)@ + row_text_from(self@, rank as int, 0, 0),
    {
        proof {
            use_type_invariant(self);
        }
        let mut f: usize = 0;
        let mut empty: u16 = 0;
        while f < 8
            invariant
                rank < 8,
                f <= 8,
                empty <= f,
                self@.squares.len() == 64,
                old(out)@ + row_text_from(self@, rank as int, 0, 0) == out@ + row_text_from(
                    self@,
                    rank as int,
                    f as int,
                    empty as int,
                ),
            decreases 8 - f,
        {
            let idx = rank * 8 + f;
            let ghost before = out@;
            let old_empty = empty;
            match self.mailbox[idx] {
                Some((c, p)) => {
                    push_flush(out, empty);
                    empty = 0;
                    let l = p.to_char();
                    let ch = match c {
                        Color::White => crate::common::ascii_uppercase(l),
                        Color::Black => l,
                    };
                    out.push(ch);
                    assert(out@ =~= before + flush(old_empty as int) + seq![occupant_char(c, p)]);
                    assert(before + row_text_from(self@, rank as int, f as int, old_empty as int)
                        =~= out@ + row_text_from(self@, rank as int, f + 1, 0));
                },
                None => {
                    let is_duck = match self.duck {
                        Some(d) => d.index() == idx,
                        None => false,
                    };
                    if is_duck {
                        push_flush(out, empty);
                        empty = 0;
                        out.push('*');
                        assert(out@ =~= before + flush(old_empty as int) + seq!['*']);
                        assert(before + row_text_from(
                            self@,
                            rank as int,
                            f as int,
                            old_empty as int,
                        ) =~= out@ + row_text_from(self@, rank as int, f + 1, 0));
                    } else {
                        empty += 1;
                    }
                },
            }
            f += 1;
        }
        push_flush(out, empty);
    }

    fn write_placement(&self, out: &mut Vec<char>)
        ensures
            final(out)@ == old(out)@ + ranks_text(self@, 8),
    {
        let mut k: usize = 8;
        while k > 1
            invariant
                1 <= k <= 8,
                out@ + ranks_text(self@, k as int) == old(out)@ + ranks_text(self@, 8),
            decreases k,
        {
            let ghost before = out@;
            self.write_row(out, k - 1);
            out.push('/');
            assert(ranks_text(self@, k as int) == row_text_from(self@, k - 1, 0, 0) + seq!['/']
                + ranks_text(self@, k - 1));
            assert(out@ + ranks_text(self@, k - 1) =~= before + ranks_text(self@, k as int));
            k -= 1;
        }
        let ghost before = out@;
        self.write_row(out, 0);
        assert(out@ =~= before + ranks_text(self@, 1));
    }

    fn write_castling(&self, out: &mut Vec<char>, frc: bool)
        ensures
            final(out)@ == old(out)@ + castling_text(self@, frc),
    {
        let mut rights: Vec<char> = Vec::new();
        right_letter(self.white_castling.short, Color::White, CastlingDirection::Short, frc, &mut rights);
        right_letter(self.white_castling.long, Color::White, CastlingDirection::Long, frc, &mut rights);
        right_letter(self.black_castling.short, Color::Black, CastlingDirection::Short, frc, &mut rights);
        right_letter(self.black_castling.long, Color::Black, CastlingDirection::Long, frc, &mut rights);
        if rights.len() == 0 {
            rights.push('-');
        }
        assert(rights@ =~= castling_text(self@, frc));
        push_all(out, &rights);
    }

    fn write_en_passant(&self, out: &mut Vec<char>)
        ensures
            final(out)@ == old(out)@ + en_passant_text(self@),
    {
        match self.en_passant {
            None => {
                out.push('-');
            },
            Some(ep) => {
                let sq = Square::new(ep.file(), Rank::Sixth.relative_to(self.stm));
                out.push(sq.file().to_char());
                out.push(sq.rank().to_char());
            },
        }
        assert(out@ =~= old(out)@ + en_passant_text(self@));
    }

    fn fen_chars(&self, frc: bool) -> (r: Vec<char>)
        ensures
            r@ == fen_text(self@, frc),
    {
        let mut out: Vec<char> = Vec::new();
        self.write_placement(&mut out);
        out.push(' ');
        out.push(self.stm.to_char());
        out.push(' ');
        self.write_castling(&mut out, frc);
        out.push(' ');
        self.write_en_passant(&mut out);
        out.push(' ');
        push_decimal(&mut out, self.hmc as u16);
        out.push(' ');
        push_decimal(&mut out, self.fmc);
        assert(out@ =~= fen_text(self@, frc));
        out
    }

    /// Writes the board as FEN; castling rights as rook files when `frc` is set.
    pub fn to_fen(&self, frc: bool) -> (r: String)
        ensures
            r@ == fen_text(self@, frc),
    {
        let chars = self.fen_chars(frc);
        crate::board::string_from_chars(&chars)
    }
}

} // verus!
