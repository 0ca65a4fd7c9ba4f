use crate::board::fen::{
    all_digits, castling_from, castling_rook_file, castling_text, count_occupant, decimal, digit_char,
    digit_value, digits_value, empty_placement, en_passant_text, fen_text, first_occupant_from, flush,
    is_digit, is_whitespace, occupant_char, parse_castling, parse_en_passant, parse_fen, parse_square,
    parse_unsigned, parts, parts_from, place_pieces, place_row_from, place_rows_from, ranks_text,
    right_text, row_text_from, scan_down, scan_up, set_rights, words, words_from, Placement,
};
use crate::board::{
    castling_of, color_at, color_squares, piece_at, piece_squares, BoardView, CastlingDirection, CastlingRights,
    Occupant,
};
use crate::board::startpos::{
    back_rank, back_rank_piece, bishops_taken, dfrc_view, knight_pair, lemma_back_rank, minor_taken, nth_free,
    nth_free_from, queen_taken, start_occupant,
};
use crate::common::{Color, File, Piece, Rank, is_lower, to_lower, to_upper};
use vstd::prelude::*;

verus! {

proof fn lemma_occupant_char(c: Color, p: Piece)
    ensures
        Piece::spec_from_char(occupant_char(c, p)) == Some(p),
        Color::spec_from_lowercase(is_lower(occupant_char(c, p))) == c,
        !is_digit(occupant_char(c, p)),
        occupant_char(c, p) != '*',
        occupant_char(c, p) != '/',
        !is_whitespace(occupant_char(c, p)),
{
    assert(to_upper('p') == 'P' && to_upper('n') == 'N' && to_upper('b') == 'B');
    assert(to_upper('r') == 'R' && to_upper('q') == 'Q' && to_upper('k') == 'K');
    assert(to_lower('P') == 'p' && to_lower('N') == 'n' && to_lower('B') == 'b');
    assert(to_lower('R') == 'r' && to_lower('Q') == 'q' && to_lower('K') == 'k');
}

proof fn lemma_digit_char(n: int)
    requires
        0 <= n <= 9,
    ensures
        is_digit(digit_char(n)),
        digit_value(digit_char(n)) == n,
        !is_whitespace(digit_char(n)),
        digit_char(n) != '/',
        digit_char(n) != '*',
        digit_char(n) != '+',
{
    assert(digit_char(n) as u32 == 48 + n);
}

pub open spec fn no_whitespace(s: Seq<char>) -> bool {
    forall|j: int| 0 <= j < s.len() ==> !is_whitespace(#[trigger] s[j])
}

pub open spec fn no_sep(s: Seq<char>, sep: char) -> bool {
    forall|j: int| 0 <= j < s.len() ==> #[trigger] s[j] != sep
}

proof fn lemma_words_skip(s: Seq<char>, i: int, cur: Seq<char>)
    requires
        0 <= i <= s.len(),
    ensures
        words_from(s, i, cur) == words_from(s.skip(i), 0, cur),
    decreases s.len() - i,
{
    if i < s.len() {
        let t = s.skip(i);
        assert(t.skip(1) =~= s.skip(i + 1));
        assert(t[0] == s[i]);
        lemma_words_skip(s, i + 1, seq![]);
        lemma_words_skip(s, i + 1, cur.push(s[i]));
        lemma_words_skip(t, 1, seq![]);
        lemma_words_skip(t, 1, cur.push(s[i]));
    }
}

proof fn lemma_words_run(s: Seq<char>, i: int, k: int, cur: Seq<char>)
    requires
        0 <= i <= k <= s.len(),
        forall|j: int| i <= j < k ==> !is_whitespace(#[trigger] s[j]),
    ensures
        words_from(s, i, cur) == words_from(s, k, cur + s.subrange(i, k)),
    decreases k - i,
{
    if i < k {
        lemma_words_run(s, i + 1, k, cur.push(s[i]));
        assert(cur.push(s[i]) + s.subrange(i + 1, k) =~= cur + s.subrange(i, k));
    } else {
        assert(cur + s.subrange(i, k) =~= cur);
    }
}

/// Words split off at a space.
proof fn lemma_words_cons(a: Seq<char>, rest: Seq<char>)
    requires
        a.len() > 0,
        no_whitespace(a),
    ensures
        words(a + seq![' '] + rest) == seq![a] + words(rest),
{
    let t = a + seq![' '] + rest;
    lemma_words_run(t, 0, a.len() as int, seq![]);
    assert(Seq::<char>::empty() + t.subrange(0, a.len() as int) =~= a);
    assert(t[a.len() as int] == ' ');
    lemma_words_skip(t, (a.len() + 1) as int, seq![]);
    assert(t.skip((a.len() + 1) as int) =~= rest);
}

proof fn lemma_words_single(a: Seq<char>)
    requires
        a.len() > 0,
        no_whitespace(a),
    ensures
        words(a) == seq![a],
{
    lemma_words_run(a, 0, a.len() as int, seq![]);
    assert(Seq::<char>::empty() + a.subrange(0, a.len() as int) =~= a);
}

proof fn lemma_parts_skip(s: Seq<char>, sep: char, i: int, cur: Seq<char>)
    requires
        0 <= i <= s.len(),
    ensures
        parts_from(s, sep, i, cur) == parts_from(s.skip(i), sep, 0, cur),
    decreases s.len() - i,
{
    if i < s.len() {
        let t = s.skip(i);
        assert(t.skip(1) =~= s.skip(i + 1));
        assert(t[0] == s[i]);
        lemma_parts_skip(s, sep, i + 1, seq![]);
        lemma_parts_skip(s, sep, i + 1, cur.push(s[i]));
        lemma_parts_skip(t, sep, 1, seq![]);
        lemma_parts_skip(t, sep, 1, cur.push(s[i]));
    }
}

proof fn lemma_parts_run(s: Seq<char>, sep: char, i: int, k: int, cur: Seq<char>)
    requires
        0 <= i <= k <= s.len(),
        forall|j: int| i <= j < k ==> #[trigger] s[j] != sep,
    ensures
        parts_from(s, sep, i, cur) == parts_from(s, sep, k, cur + s.subrange(i, k)),
    decreases k - i,
{
    if i < k {
        lemma_parts_run(s, sep, i + 1, k, cur.push(s[i]));
        assert(cur.push(s[i]) + s.subrange(i + 1, k) =~= cur + s.subrange(i, k));
    } else {
        assert(cur + s.subrange(i, k) =~= cur);
    }
}

proof fn lemma_parts_cons(a: Seq<char>, sep: char, rest: Seq<char>)
    requires
        no_sep(a, sep),
    ensures
        parts(a + seq![sep] + rest, sep) == seq![a] + parts(rest, sep),
{
    let t = a + seq![sep] + rest;
    lemma_parts_run(t, sep, 0, a.len() as int, seq![]);
    assert(Seq::<char>::empty() + t.subrange(0, a.len() as int) =~= a);
    assert(t[a.len() as int] == sep);
    lemma_parts_skip(t, sep, (a.len() + 1) as int, seq![]);
    assert(t.skip((a.len() + 1) as int) =~= rest);
}

proof fn lemma_parts_single(a: Seq<char>, sep: char)
    requires
        no_sep(a, sep),
    ensures
        parts(a, sep) == seq![a],
{
    lemma_parts_run(a, sep, 0, a.len() as int, seq![]);
    assert(Seq::<char>::empty() + a.subrange(0, a.len() as int) =~= a);
}

proof fn lemma_row_skip(p: Placement, rank: int, s: Seq<char>, k: int, file: int)
    requires
        0 <= k <= s.len(),
    ensures
        place_row_from(p, rank, s, k, file) == place_row_from(p, rank, s.skip(k), 0, file),
    decreases s.len() - k,
{
    if k < s.len() {
        let t = s.skip(k);
        assert(t.skip(1) =~= s.skip(k + 1));
        let c = s[k];
        assert(t[0] == c);
        if is_digit(c) {
            lemma_row_skip(p, rank, s, k + 1, file + digit_value(c));
            lemma_row_skip(p, rank, t, 1, file + digit_value(c));
        } else if file >= 8 {
        } else if c == '*' {
            let q = Placement { duck: Some(rank * 8 + file), ..p };
            lemma_row_skip(q, rank, s, k + 1, file + 1);
            lemma_row_skip(q, rank, t, 1, file + 1);
        } else {
            match Piece::spec_from_char(c) {
                None => {},
                Some(piece) => {
                    let q = Placement {
                        squares: p.squares.update(
                            rank * 8 + file,
                            Some((Color::spec_from_lowercase(is_lower(c)), piece)),
                        ),
                        ..p
                    };
                    lemma_row_skip(q, rank, s, k + 1, file + 1);
                    lemma_row_skip(q, rank, t, 1, file + 1);
                },
            }
        }
    }
}

proof fn lemma_castling_skip(sq: Seq<Occupant>, r: (CastlingRights, CastlingRights), s: Seq<char>, k: int)
    requires
        0 <= k <= s.len(),
    ensures
        castling_from(sq, r, s, k) == castling_from(sq, r, s.skip(k), 0),
    decreases s.len() - k,
{
    if k < s.len() {
        let t = s.skip(k);
        assert(t.skip(1) =~= s.skip(k + 1));
        let c = s[k];
        assert(t[0] == c);
        let color = Color::spec_from_lowercase(is_lower(c));
        let back = Rank::First.spec_relative_index(color);
        match first_occupant_from(sq, Some((color, Piece::King)), 0) {
            None => {},
            Some(ks) => if ks / 8 == back {
                match castling_rook_file(sq, color, ks % 8, back, c) {
                    None => {},
                    Some(f) => {
                        let q = set_rights(
                            r,
                            color,
                            if f > ks % 8 {
                                CastlingDirection::Short
                            } else {
                                CastlingDirection::Long
                            },
                            File::spec_try_index(f),
                        );
                        lemma_castling_skip(sq, q, s, k + 1);
                        lemma_castling_skip(sq, q, t, 1);
                    },
                }
            },
        }
    }
}

/// The placement with the pieces and duck of `v` on the squares below `idx`, and nothing
/// from `idx` on.
pub open spec fn filled_to(v: BoardView, idx: int) -> Placement {
    Placement {
        squares: Seq::new(64, |i: int| if i < idx { v.squares[i] } else { None }),
        duck: match v.duck {
            Some(d) => if d < idx {
                Some(d)
            } else {
                None
            },
            None => None,
        },
    }
}

/// The duck, if any, stands on an empty square of the board.
pub open spec fn duck_ok(v: BoardView) -> bool {
    v.duck matches Some(d) ==> 0 <= d < 64 && v.squares[d] is None
}

proof fn lemma_row_chars(v: BoardView, rank: int, f: int, empty: int)
    requires
        0 <= empty <= f <= 8,
    ensures
        no_whitespace(row_text_from(v, rank, f, empty)),
        no_sep(row_text_from(v, rank, f, empty), '/'),
        f < 8 || empty > 0 ==> row_text_from(v, rank, f, empty).len() > 0,
    decreases 8 - f,
{
    let t = row_text_from(v, rank, f, empty);
    if empty > 0 {
        lemma_digit_char(empty);
    }
    if f < 8 {
        match v.squares[rank * 8 + f] {
            Some((c, p)) => {
                lemma_row_chars(v, rank, f + 1, 0);
                lemma_occupant_char(c, p);
                let rest = row_text_from(v, rank, f + 1, 0);
                assert(t == flush(empty) + seq![occupant_char(c, p)] + rest);
                assert forall|j: int| 0 <= j < t.len() implies !is_whitespace(#[trigger] t[j]) && t[j] != '/' by {
                    if j >= flush(empty).len() + 1 {
                        assert(t[j] == rest[j - flush(empty).len() - 1]);
                    }
                }
            },
            None => if v.duck == Some(rank * 8 + f) {
                lemma_row_chars(v, rank, f + 1, 0);
                let rest = row_text_from(v, rank, f + 1, 0);
                assert(t == flush(empty) + seq!['*'] + rest);
                assert forall|j: int| 0 <= j < t.len() implies !is_whitespace(#[trigger] t[j]) && t[j] != '/' by {
                    if j >= flush(empty).len() + 1 {
                        assert(t[j] == rest[j - flush(empty).len() - 1]);
                    }
                }
            } else {
                lemma_row_chars(v, rank, f + 1, empty + 1);
            },
        }
    }
}

proof fn lemma_row_text(v: BoardView, rank: int, f: int, empty: int)
    requires
        v.squares.len() == 64,
        duck_ok(v),
        0 <= rank < 8,
        0 <= empty <= f <= 8,
        forall|j: int| f - empty <= j < f ==> (#[trigger] v.squares[rank * 8 + j]) is None && v.duck != Some(rank * 8 + j),
    ensures
        place_row_from(filled_to(v, rank * 8 + f), rank, row_text_from(v, rank, f, empty), 0, f - empty)
            == Some(filled_to(v, rank * 8 + 8)),
    decreases 8 - f,
{
    let idx = rank * 8 + f;
    let t = row_text_from(v, rank, f, empty);
    let pl = filled_to(v, idx);
    if empty > 0 {
        lemma_digit_char(empty);
    }
    if f == 8 {
        if empty > 0 {
            assert(place_row_from(pl, rank, t, 1, f) == Some(pl));
        }
    } else {
        let m = flush(empty).len() as int;
        match v.squares[idx] {
            Some((c, p)) => {
                let oc = occupant_char(c, p);
                let rest = row_text_from(v, rank, f + 1, 0);
                lemma_occupant_char(c, p);
                assert(t == flush(empty) + seq![oc] + rest);
                assert(t[m] == oc);
                let q = Placement {
                    squares: pl.squares.update(idx, Some((Color::spec_from_lowercase(is_lower(oc)), p))),
                    ..pl
                };
                assert(q.squares =~= filled_to(v, idx + 1).squares);
                assert(q == filled_to(v, idx + 1));
                lemma_row_skip(q, rank, t, m + 1, f + 1);
                assert(t.skip(m + 1) =~= rest);
                lemma_row_text(v, rank, f + 1, 0);
                assert(place_row_from(pl, rank, t, m, f) == place_row_from(q, rank, t, m + 1, f + 1));
            },
            None => if v.duck == Some(idx) {
                let rest = row_text_from(v, rank, f + 1, 0);
                assert(t == flush(empty) + seq!['*'] + rest);
                assert(t[m] == '*');
                let q = Placement { duck: Some(idx), ..pl };
                assert(q.squares =~= filled_to(v, idx + 1).squares);
                assert(q == filled_to(v, idx + 1));
                lemma_row_skip(q, rank, t, m + 1, f + 1);
                assert(t.skip(m + 1) =~= rest);
                lemma_row_text(v, rank, f + 1, 0);
                assert(place_row_from(pl, rank, t, m, f) == place_row_from(q, rank, t, m + 1, f + 1));
            } else {
                assert(pl.squares =~= filled_to(v, idx + 1).squares);
                assert(pl == filled_to(v, idx + 1));
                lemma_row_text(v, rank, f + 1, empty + 1);
            },
        }
    }
}

proof fn lemma_rows(v: BoardView, rows: Seq<Seq<char>>, k: int)
    requires
        v.squares.len() == 64,
        duck_ok(v),
        0 <= k <= 8,
        rows.len() == 8,
        forall|j: int| 0 <= j < 8 ==> #[trigger] rows[7 - j] == row_text_from(v, j, 0, 0),
    ensures
        place_rows_from(filled_to(v, 8 * k), rows, k) == Some(filled_to(v, 64)),
    decreases 8 - k,
{
    if k < 8 {
        assert(rows[rows.len() - 1 - k] == row_text_from(v, k, 0, 0));
        lemma_row_text(v, k, 0, 0);
        lemma_rows(v, rows, k + 1);
    }
}

/// The rows of the placement text of the ranks below `k`, the highest first.
pub open spec fn rank_rows(v: BoardView, k: int) -> Seq<Seq<char>> {
    Seq::new(k as nat, |i: int| row_text_from(v, k - 1 - i, 0, 0))
}

proof fn lemma_ranks_parts(v: BoardView, k: int)
    requires
        1 <= k <= 8,
    ensures
        parts(ranks_text(v, k), '/') == rank_rows(v, k),
        no_whitespace(ranks_text(v, k)),
        ranks_text(v, k).len() > 0,
    decreases k,
{
    lemma_row_chars(v, k - 1, 0, 0);
    if k == 1 {
        lemma_parts_single(row_text_from(v, 0, 0, 0), '/');
        assert(rank_rows(v, 1) =~= seq![row_text_from(v, 0, 0, 0)]);
    } else {
        lemma_ranks_parts(v, k - 1);
        let a = row_text_from(v, k - 1, 0, 0);
        let rest = ranks_text(v, k - 1);
        lemma_parts_cons(a, '/', rest);
        assert(rank_rows(v, k) =~= seq![a] + rank_rows(v, k - 1));
        let t = ranks_text(v, k);
        assert(t == a + seq!['/'] + rest);
        assert forall|j: int| 0 <= j < t.len() implies !is_whitespace(#[trigger] t[j]) by {
            if j > a.len() {
                assert(t[j] == rest[j - a.len() - 1]);
            }
        }
    }
}

proof fn lemma_file_index(f: File)
    ensures
        File::spec_try_index(f.spec_index()) == Some(f),
        0 <= f.spec_index() < 8,
        'a' <= f.spec_to_char() <= 'h',
        f.spec_to_char() as u32 - 'a' as u32 == f.spec_index(),
{
}

proof fn lemma_scan_down(sq: Seq<Occupant>, o: Occupant, rank: int, lo: int, f: int)
    ensures
        scan_down(sq, o, rank, lo, f) matches Some(x) ==> lo <= x <= f,
    decreases f + 1,
{
    if !(f < lo || f < 0) && sq[rank * 8 + f] != o {
        lemma_scan_down(sq, o, rank, lo, f - 1);
    }
}

proof fn lemma_scan_up(sq: Seq<Occupant>, o: Occupant, rank: int, hi: int, f: int)
    ensures
        scan_up(sq, o, rank, hi, f) matches Some(x) ==> f <= x <= hi,
    decreases 8 - f,
{
    if !(f > hi || f >= 8) && sq[rank * 8 + f] != o {
        lemma_scan_up(sq, o, rank, hi, f + 1);
    }
}

/// The rook file a castling right can be read back from: in Shredder notation any file on the
/// right side of the king; otherwise the outermost rook on that side.
pub open spec fn right_readable(v: BoardView, color: Color, dir: CastlingDirection, frc: bool) -> bool {
    let back = Rank::First.spec_relative_index(color);
    castling_of(v, color).spec_get(dir) matches Some(f) ==> match first_occupant_from(
        v.squares,
        Some((color, Piece::King)),
        0,
    ) {
        None => false,
        Some(ks) => ks / 8 == back && if frc {
            match dir {
                CastlingDirection::Short => f.spec_index() > ks % 8,
                CastlingDirection::Long => f.spec_index() <= ks % 8,
            }
        } else {
            match dir {
                CastlingDirection::Short => scan_down(v.squares, Some((color, Piece::Rook)), back, ks % 8 + 1, 7)
                    == Some(f.spec_index()),
                CastlingDirection::Long => scan_up(v.squares, Some((color, Piece::Rook)), back, ks % 8 - 1, 0)
                    == Some(f.spec_index()),
            }
        },
    }
}

pub open spec fn set_right(
    r: (CastlingRights, CastlingRights),
    color: Color,
    dir: CastlingDirection,
    right: Option<File>,
) -> (CastlingRights, CastlingRights) {
    match right {
        None => r,
        Some(_) => set_rights(r, color, dir, right),
    }
}

proof fn lemma_right_step(
    v: BoardView,
    color: Color,
    dir: CastlingDirection,
    frc: bool,
    r: (CastlingRights, CastlingRights),
    rest: Seq<char>,
)
    requires
        right_readable(v, color, dir, frc),
    ensures
        castling_from(v.squares, r, right_text(castling_of(v, color).spec_get(dir), color, dir, frc) + rest, 0)
            == castling_from(v.squares, set_right(r, color, dir, castling_of(v, color).spec_get(dir)), rest, 0),
        right_text(castling_of(v, color).spec_get(dir), color, dir, frc).len() <= 1,
        no_whitespace(right_text(castling_of(v, color).spec_get(dir), color, dir, frc)),
        right_text(castling_of(v, color).spec_get(dir), color, dir, frc) != seq!['-'],
{
    let right = castling_of(v, color).spec_get(dir);
    let t = right_text(right, color, dir, frc);
    match right {
        None => {
            assert(t + rest =~= rest);
        },
        Some(file) => {
            lemma_file_index(file);
            let s = t + rest;
            let c = t[0];
            assert(s[0] == c);
            let back = Rank::First.spec_relative_index(color);
            let ks = first_occupant_from(v.squares, Some((color, Piece::King)), 0)->0;
            assert(to_lower(to_upper(file.spec_to_char())) == file.spec_to_char());
            assert(Color::spec_from_lowercase(is_lower(c)) == color);
            let kf = ks % 8;
            if !frc {
                match dir {
                    CastlingDirection::Short => lemma_scan_down(v.squares, Some((color, Piece::Rook)), back, kf + 1, 7),
                    CastlingDirection::Long => lemma_scan_up(v.squares, Some((color, Piece::Rook)), back, kf - 1, 0),
                }
            }
            assert(castling_rook_file(v.squares, color, kf, back, c) == Some(file.spec_index()));
            lemma_castling_skip(v.squares, set_rights(r, color, dir, right), s, 1);
            assert(s.skip(1) =~= rest);
        },
    }
}

proof fn lemma_castling_text(v: BoardView, frc: bool)
    requires
        right_readable(v, Color::White, CastlingDirection::Short, frc),
        right_readable(v, Color::White, CastlingDirection::Long, frc),
        right_readable(v, Color::Black, CastlingDirection::Short, frc),
        right_readable(v, Color::Black, CastlingDirection::Long, frc),
    ensures
        parse_castling(v.squares, castling_text(v, frc)) == Some((v.white_castling, v.black_castling)),
        no_whitespace(castling_text(v, frc)),
        castling_text(v, frc).len() > 0,
{
    let ws = right_text(v.white_castling.short, Color::White, CastlingDirection::Short, frc);
    let wl = right_text(v.white_castling.long, Color::White, CastlingDirection::Long, frc);
    let bs = right_text(v.black_castling.short, Color::Black, CastlingDirection::Short, frc);
    let bl = right_text(v.black_castling.long, Color::Black, CastlingDirection::Long, frc);
    let none = (CastlingRights::spec_none(), CastlingRights::spec_none());
    let r1 = set_right(none, Color::White, CastlingDirection::Short, v.white_castling.short);
    let r2 = set_right(r1, Color::White, CastlingDirection::Long, v.white_castling.long);
    let r3 = set_right(r2, Color::Black, CastlingDirection::Short, v.black_castling.short);
    let r4 = set_right(r3, Color::Black, CastlingDirection::Long, v.black_castling.long);
    lemma_right_step(v, Color::White, CastlingDirection::Short, frc, none, wl + (bs + bl));
    lemma_right_step(v, Color::White, CastlingDirection::Long, frc, r1, bs + bl);
    lemma_right_step(v, Color::Black, CastlingDirection::Short, frc, r2, bl);
    lemma_right_step(v, Color::Black, CastlingDirection::Long, frc, r3, seq![]);
    assert(bl + Seq::<char>::empty() =~= bl);
    let t = ws + wl + bs + bl;
    assert(t =~= ws + (wl + (bs + bl)));
    assert(r4 == (v.white_castling, v.black_castling));
    if t.len() == 0 {
        assert(castling_text(v, frc) == seq!['-']);
    } else {
        assert(castling_text(v, frc) == t);
        assert(t != seq!['-']) by {
            if ws.len() > 0 {
                assert(t[0] == ws[0]);
            } else if wl.len() > 0 {
                assert(t[0] == wl[0]);
            } else if bs.len() > 0 {
                assert(t[0] == bs[0]);
            } else {
                assert(t[0] == bl[0]);
            }
        }
        assert forall|j: int| 0 <= j < t.len() implies !is_whitespace(#[trigger] t[j]) by {
            if j < ws.len() {
                assert(t[j] == ws[j]);
            } else if j < ws.len() + wl.len() {
                assert(t[j] == wl[j - ws.len()]);
            } else if j < ws.len() + wl.len() + bs.len() {
                assert(t[j] == bs[j - ws.len() - wl.len()]);
            } else {
                assert(t[j] == bl[j - ws.len() - wl.len() - bs.len()]);
            }
        }
    }
}

proof fn lemma_en_passant_text(v: BoardView)
    requires
        v.en_passant matches Some(s) ==> 0 <= s < 64 && s / 8 == Rank::Sixth.spec_relative_index(v.stm),
    ensures
        parse_en_passant(en_passant_text(v), v.stm) == Some(v.en_passant),
        no_whitespace(en_passant_text(v)),
        en_passant_text(v).len() > 0,
{
    match v.en_passant {
        None => {},
        Some(s) => {
            let t = en_passant_text(v);
            let rel = Rank::Sixth.spec_relative_index(v.stm);
            assert(t[0] as u32 == 97 + s % 8);
            assert(t[1] as u32 == 49 + rel);
            assert(File::spec_from_char(t[0]) == File::spec_try_index(s % 8));
            assert(Rank::spec_from_char(t[1]) == Rank::spec_try_index(rel));
            assert(parse_square(t) == Some(rel * 8 + s % 8));
            assert(t != seq!['-']);
        },
    }
}

proof fn lemma_decimal(n: nat)
    ensures
        decimal(n).len() > 0,
        all_digits(decimal(n)),
        digits_value(decimal(n)) == n,
        no_whitespace(decimal(n)),
        decimal(n)[0] != '+',
    decreases n,
{
    if n < 10 {
        lemma_digit_char(n as int);
        let d = decimal(n);
        assert(d.drop_last() =~= Seq::<char>::empty());
        assert(digits_value(d.drop_last()) == 0);
        assert(d.last() == digit_char(n as int));
    } else {
        lemma_decimal(n / 10);
        lemma_digit_char((n % 10) as int);
        let d = decimal(n);
        assert(d.drop_last() =~= decimal(n / 10));
        assert(d[0] == decimal(n / 10)[0]);
        assert(d.last() == digit_char((n % 10) as int));
        assert(digits_value(d) == digits_value(decimal(n / 10)) * 10 + digit_value(d.last()));
        assert((n / 10) * 10 + n % 10 == n);
    }
}

proof fn lemma_parse_decimal(n: nat, max: int)
    requires
        n <= max,
    ensures
        parse_unsigned(decimal(n), max) == Some(n as int),
{
    lemma_decimal(n);
}

/// A board whose FEN text reads back as the same board: the duck on an empty square, one side
/// with exactly one king, every castling right readable from the rooks and king, an en passant
/// square on the sixth rank seen from the side to move, and the counters as reading them
/// leaves them.
pub open spec fn fen_readable(v: BoardView, frc: bool) -> bool {
    &&& v.squares.len() == 64
    &&& duck_ok(v)
    &&& (count_occupant(v.squares, Some((Color::White, Piece::King)), 64) == 1 || count_occupant(
        v.squares,
        Some((Color::Black, Piece::King)),
        64,
    ) == 1)
    &&& right_readable(v, Color::White, CastlingDirection::Short, frc)
    &&& right_readable(v, Color::White, CastlingDirection::Long, frc)
    &&& right_readable(v, Color::Black, CastlingDirection::Short, frc)
    &&& right_readable(v, Color::Black, CastlingDirection::Long, frc)
    &&& (v.en_passant matches Some(s) ==> 0 <= s < 64 && s / 8 == Rank::Sixth.spec_relative_index(v.stm))
    &&& v.hmc <= 100
    &&& v.fmc >= 1
}

/// The FEN text as its six words, each followed by a space but the last.
proof fn lemma_fen_text_shape(v: BoardView, frc: bool)
    ensures
        fen_text(v, frc) == ranks_text(v, 8) + seq![' '] + (seq![v.stm.spec_to_char()] + seq![' '] + (
        castling_text(v, frc) + seq![' '] + (en_passant_text(v) + seq![' '] + (decimal(v.hmc as nat)
            + seq![' '] + decimal(v.fmc as nat))))),
{
    let r = ranks_text(v, 8);
    let c = castling_text(v, frc);
    let e = en_passant_text(v);
    let h = decimal(v.hmc as nat);
    let f = decimal(v.fmc as nat);
    let sp = seq![' '];
    let st = seq![v.stm.spec_to_char()];
    let t5 = h + sp + f;
    let t4 = e + sp + t5;
    let t3 = c + sp + t4;
    let t2 = st + sp + t3;
    assert(seq![' ', v.stm.spec_to_char(), ' '] =~= sp + st + sp);
    let p = r + (sp + st + sp);
    assert(p + c + sp + e + sp + h + sp + f =~= p + (c + sp + e + sp + h + sp + f));
    assert(c + sp + e + sp + h + sp + f =~= t3);
    assert(p + t3 =~= r + sp + t2);
}

#[verifier::spinoff_prover]
proof fn lemma_fen_words(v: BoardView, frc: bool)
    requires
        fen_readable(v, frc),
    ensures
        words(fen_text(v, frc)) == seq![
            ranks_text(v, 8),
            seq![v.stm.spec_to_char()],
            castling_text(v, frc),
            en_passant_text(v),
            decimal(v.hmc as nat),
            decimal(v.fmc as nat),
        ],
{
    let r = ranks_text(v, 8);
    let c = castling_text(v, frc);
    let e = en_passant_text(v);
    let h = decimal(v.hmc as nat);
    let f = decimal(v.fmc as nat);
    let st = seq![v.stm.spec_to_char()];
    let t5 = h + seq![' '] + f;
    let t4 = e + seq![' '] + t5;
    let t3 = c + seq![' '] + t4;
    let t2 = st + seq![' '] + t3;
    let t1 = r + seq![' '] + t2;
    lemma_fen_text_shape(v, frc);
    assert(words(f) == seq![f]) by {
        lemma_decimal(v.fmc as nat);
        lemma_words_single(f);
    }
    assert(words(t5) == seq![h] + seq![f]) by {
        lemma_decimal(v.hmc as nat);
        lemma_words_cons(h, f);
    }
    assert(words(t4) == seq![e] + words(t5)) by {
        lemma_en_passant_text(v);
        lemma_words_cons(e, t5);
    }
    assert(words(t3) == seq![c] + words(t4)) by {
        lemma_castling_text(v, frc);
        lemma_words_cons(c, t4);
    }
    assert(words(t2) == seq![st] + words(t3)) by {
        lemma_words_cons(st, t3);
    }
    assert(words(t1) == seq![r] + words(t2)) by {
        lemma_ranks_parts(v, 8);
        lemma_words_cons(r, t2);
    }
    assert(words(t1) =~= seq![r, st, c, e, h, f]);
}

proof fn lemma_fen_placement(v: BoardView)
    requires
        v.squares.len() == 64,
        duck_ok(v),
    ensures
        place_pieces(ranks_text(v, 8)) == Some(Placement { squares: v.squares, duck: v.duck }),
{
    lemma_ranks_parts(v, 8);
    let rows = rank_rows(v, 8);
    assert forall|j: int| 0 <= j < 8 implies #[trigger] rows[7 - j] == row_text_from(v, j, 0, 0) by {
    }
    lemma_rows(v, rows, 0);
    assert(empty_placement().squares =~= filled_to(v, 0).squares);
    assert(empty_placement() == filled_to(v, 0));
    assert(filled_to(v, 64).squares =~= v.squares);
    assert(filled_to(v, 64) == Placement { squares: v.squares, duck: v.duck });
}

/// Reading back the FEN text `Board::to_fen` writes gives back the board, with or without
/// Shredder castling notation, for every board whose text can be read back.
#[verifier::spinoff_prover]
pub proof fn lemma_fen_round_trip(v: BoardView, frc: bool)
    requires
        fen_readable(v, frc),
    ensures
        parse_fen(fen_text(v, frc)) == Some(v),
{
    lemma_fen_words(v, frc);
    lemma_fen_placement(v);
    lemma_castling_text(v, frc);
    lemma_en_passant_text(v);
    lemma_parse_decimal(v.hmc as nat, 255);
    lemma_parse_decimal(v.fmc as nat, 65535);
    assert(Color::spec_from_char(v.stm.spec_to_char()) == Some(v.stm));
}

proof fn lemma_count_unique(sq: Seq<Occupant>, o: Occupant, k: int, n: int)
    requires
        0 <= k < 64,
        0 <= n <= 64,
        sq[k] == o,
        forall|i: int| 0 <= i < 64 && i != k ==> #[trigger] sq[i] != o,
    ensures
        count_occupant(sq, o, n) == if k < n {
            1int
        } else {
            0int
        },
    decreases n,
{
    if n > 0 {
        lemma_count_unique(sq, o, k, n - 1);
    }
}

proof fn lemma_first_unique(sq: Seq<Occupant>, o: Occupant, k: int, i: int)
    requires
        0 <= i <= k < 64,
        sq[k] == o,
        forall|j: int| i <= j < k ==> #[trigger] sq[j] != o,
    ensures
        first_occupant_from(sq, o, i) == Some(k),
    decreases k - i,
{
    if i < k {
        lemma_first_unique(sq, o, k, i + 1);
    }
}

proof fn lemma_start_king(w: int, b: int, color: Color)
    requires
        0 <= w < 960,
        0 <= b < 960,
    ensures
        ({
            let v = dfrc_view(w, b);
            let ks = match color {
                Color::White => back_rank(w).king,
                Color::Black => 56 + back_rank(b).king,
            };
            &&& count_occupant(v.squares, Some((color, Piece::King)), 64) == 1
            &&& first_occupant_from(v.squares, Some((color, Piece::King)), 0) == Some(ks)
            &&& ks / 8 == Rank::First.spec_relative_index(color)
        }),
{
    lemma_back_rank(w);
    lemma_back_rank(b);
    let v = dfrc_view(w, b);
    let o = Some((color, Piece::King));
    let ks = match color {
        Color::White => back_rank(w).king,
        Color::Black => 56 + back_rank(b).king,
    };
    assert(v.squares[ks] == o);
    assert forall|i: int| 0 <= i < 64 && i != ks implies #[trigger] v.squares[i] != o by {
        assert(v.squares[i] == start_occupant(w, b, i));
        if i / 8 == 0 {
            assert(back_rank_piece(back_rank(w), i % 8) != Piece::King || i % 8 == back_rank(w).king);
        } else if i / 8 == 7 {
            assert(back_rank_piece(back_rank(b), i % 8) != Piece::King || i % 8 == back_rank(b).king);
        }
    }
    lemma_count_unique(v.squares, o, ks, 64);
    lemma_first_unique(v.squares, o, ks, 0);
}

proof fn lemma_standard_back_rank()
    ensures
        back_rank(518).left_rook == 0,
        back_rank(518).king == 4,
        back_rank(518).right_rook == 7,
{
    let t1 = bishops_taken(518);
    assert(t1 =~= seq![false, false, true, false, false, true, false, false]);
    reveal_with_fuel(nth_free_from, 9);
    assert(nth_free(t1, 2) == 3);
    let t2 = queen_taken(518);
    assert(t2 =~= seq![false, false, true, true, false, true, false, false]);
    assert(knight_pair(518int / 96) == (1int, 3int));
    assert(nth_free(t2, 1) == 1);
    assert(nth_free(t2, 3) == 6);
    let t3 = minor_taken(518);
    assert(t3 =~= seq![false, true, true, true, false, true, true, false]);
    assert(nth_free(t3, 0) == 0);
    assert(nth_free(t3, 1) == 4);
    assert(nth_free(t3, 2) == 7);
}

/// Every double Chess960 start position reads back from its FEN text in Shredder notation,
/// and the standard start position also from its text in standard notation.
pub proof fn lemma_start_fen(w: int, b: int)
    requires
        0 <= w < 960,
        0 <= b < 960,
    ensures
        fen_readable(dfrc_view(w, b), true),
        parse_fen(fen_text(dfrc_view(w, b), true)) == Some(dfrc_view(w, b)),
        parse_fen(fen_text(dfrc_view(518, 518), false)) == Some(dfrc_view(518, 518)),
{
    lemma_back_rank(w);
    lemma_back_rank(b);
    lemma_start_king(w, b, Color::White);
    lemma_start_king(w, b, Color::Black);
    let v = dfrc_view(w, b);
    assert(v.squares.len() == 64);
    lemma_fen_round_trip(v, true);
    lemma_back_rank(518);
    lemma_start_king(518, 518, Color::White);
    lemma_start_king(518, 518, Color::Black);
    let s = dfrc_view(518, 518);
    lemma_standard_back_rank();
    assert(scan_down(s.squares, Some((Color::White, Piece::Rook)), 0, 5, 7) == Some(7int));
    assert(scan_up(s.squares, Some((Color::White, Piece::Rook)), 0, 3, 0) == Some(0int));
    assert(scan_down(s.squares, Some((Color::Black, Piece::Rook)), 7, 5, 7) == Some(7int));
    assert(scan_up(s.squares, Some((Color::Black, Piece::Rook)), 7, 3, 0) == Some(0int));
    lemma_fen_round_trip(s, false);
}

/// A placement read up to square `pos`: nothing placed from `pos` on, and the duck, if placed,
/// before `pos` on an empty square.
pub open spec fn placed_before(p: Placement, pos: int) -> bool {
    &&& p.squares.len() == 64
    &&& forall|i: int| pos <= i < 64 ==> (#[trigger] p.squares[i]) is None
    &&& p.duck matches Some(d) ==> 0 <= d < pos && d < 64 && p.squares[d] is None
}

proof fn lemma_row_placed(p: Placement, rank: int, row: Seq<char>, i: int, file: int)
    requires
        placed_before(p, rank * 8 + file),
        0 <= rank < 8,
        0 <= file <= 8,
        0 <= i <= row.len(),
    ensures
        place_row_from(p, rank, row, i, file) matches Some(q) ==> placed_before(q, rank * 8 + 8),
    decreases row.len() - i,
{
    if i < row.len() {
        let c = row[i];
        let pos = rank * 8 + file;
        if is_digit(c) {
            let f2 = file + digit_value(c);
            if f2 > 8 {
                lemma_row_overflow_none(p, rank, row, i + 1, f2);
            } else {
                assert(digit_value(c) >= 0);
                lemma_row_placed(p, rank, row, i + 1, f2);
            }
        } else if file < 8 {
            if c == '*' {
                if p.duck is None {
                    let q = Placement { duck: Some(pos), ..p };
                    assert(p.squares[pos] is None);
                    lemma_row_placed(q, rank, row, i + 1, file + 1);
                }
            } else {
                match Piece::spec_from_char(c) {
                    None => {},
                    Some(piece) => if p.squares[pos] is None {
                        let q = Placement {
                            squares: p.squares.update(pos, Some((Color::spec_from_lowercase(is_lower(c)), piece))),
                            ..p
                        };
                        assert forall|j: int| pos + 1 <= j < 64 implies (#[trigger] q.squares[j]) is None by {
                            assert(p.squares[j] is None);
                        }
                        lemma_row_placed(q, rank, row, i + 1, file + 1);
                    },
                }
            }
        }
    }
}

proof fn lemma_row_overflow_none(p: Placement, rank: int, row: Seq<char>, i: int, file: int)
    requires
        file > 8,
    ensures
        place_row_from(p, rank, row, i, file) is None,
    decreases row.len() - i,
{
    if i < row.len() && is_digit(row[i]) {
        assert(digit_value(row[i]) >= 0);
        lemma_row_overflow_none(p, rank, row, i + 1, file + digit_value(row[i]));
    }
}

proof fn lemma_rows_placed(p: Placement, rows: Seq<Seq<char>>, k: int)
    requires
        placed_before(p, 8 * k),
        0 <= k <= 8,
    ensures
        place_rows_from(p, rows, k) matches Some(q) ==> placed_before(q, 64),
    decreases rows.len() - k,
{
    if k < rows.len() && k < 8 {
        lemma_row_placed(p, k, rows[rows.len() - 1 - k], 0, 0);
        match place_row_from(p, k, rows[rows.len() - 1 - k], 0, 0) {
            None => {},
            Some(q) => lemma_rows_placed(q, rows, k + 1),
        }
    } else if k >= rows.len() {
        assert forall|i: int| 64 <= i < 64 implies (#[trigger] p.squares[i]) is None by {}
    }
}

/// A castling right in Shredder notation that can be read back: the side's king on its back
/// rank, the rook's file on the right side of it.
pub open spec fn slot_readable(sq: Seq<Occupant>, color: Color, dir: CastlingDirection, slot: Option<File>) -> bool {
    slot matches Some(f) ==> match first_occupant_from(sq, Some((color, Piece::King)), 0) {
        None => false,
        Some(ks) => ks / 8 == Rank::First.spec_relative_index(color) && match dir {
            CastlingDirection::Short => f.spec_index() > ks % 8,
            CastlingDirection::Long => f.spec_index() <= ks % 8,
        },
    }
}

pub open spec fn rights_readable(sq: Seq<Occupant>, r: (CastlingRights, CastlingRights)) -> bool {
    &&& slot_readable(sq, Color::White, CastlingDirection::Short, r.0.short)
    &&& slot_readable(sq, Color::White, CastlingDirection::Long, r.0.long)
    &&& slot_readable(sq, Color::Black, CastlingDirection::Short, r.1.short)
    &&& slot_readable(sq, Color::Black, CastlingDirection::Long, r.1.long)
}

proof fn lemma_try_index(f: int)
    ensures
        File::spec_try_index(f) matches Some(file) ==> file.spec_index() == f,
{
}

proof fn lemma_castling_readable(sq: Seq<Occupant>, r: (CastlingRights, CastlingRights), tok: Seq<char>, i: int)
    requires
        rights_readable(sq, r),
    ensures
        castling_from(sq, r, tok, i) matches Some(r2) ==> rights_readable(sq, r2),
    decreases tok.len() - i,
{
    if i < tok.len() {
        let c = tok[i];
        let color = Color::spec_from_lowercase(is_lower(c));
        let back = Rank::First.spec_relative_index(color);
        match first_occupant_from(sq, Some((color, Piece::King)), 0) {
            None => {},
            Some(ks) => if ks / 8 == back {
                match castling_rook_file(sq, color, ks % 8, back, c) {
                    None => {},
                    Some(f) => {
                        let dir = if f > ks % 8 {
                            CastlingDirection::Short
                        } else {
                            CastlingDirection::Long
                        };
                        lemma_try_index(f);
                        let q = set_rights(r, color, dir, File::spec_try_index(f));
                        assert(rights_readable(sq, q));
                        lemma_castling_readable(sq, q, tok, i + 1);
                    },
                }
            },
        }
    }
}

proof fn lemma_digits_nonneg(s: Seq<char>)
    requires
        all_digits(s),
    ensures
        digits_value(s) >= 0,
    decreases s.len(),
{
    if s.len() > 0 {
        assert(is_digit(s[s.len() - 1]));
        assert(all_digits(s.drop_last()));
        lemma_digits_nonneg(s.drop_last());
    }
}

proof fn lemma_parse_unsigned_bounds(s: Seq<char>, max: int)
    ensures
        parse_unsigned(s, max) matches Some(n) ==> 0 <= n <= max,
{
    let d = if s.len() > 0 && s[0] == '+' {
        s.drop_first()
    } else {
        s
    };
    if d.len() > 0 && all_digits(d) {
        lemma_digits_nonneg(d);
    }
}

/// Every board that `Board::from_fen` reads can be written in Shredder notation and read back
/// as the same board.
#[verifier::spinoff_prover]
pub proof fn lemma_read_write_read(s: Seq<char>)
    requires
        parse_fen(s) is Some,
    ensures
        fen_readable(parse_fen(s)->0, true),
        parse_fen(fen_text(parse_fen(s)->0, true)) == parse_fen(s),
{
    let v = parse_fen(s)->0;
    let w = words(s);
    let pl = place_pieces(w[0])->0;
    assert forall|i: int| 0 <= i < 64 implies (#[trigger] empty_placement().squares[i]) is None by {}
    lemma_rows_placed(empty_placement(), parts(w[0], '/'), 0);
    assert(placed_before(pl, 64));
    let none = (CastlingRights::spec_none(), CastlingRights::spec_none());
    if w[2] != seq!['-'] {
        lemma_castling_readable(pl.squares, none, w[2], 0);
    }
    assert(rights_readable(pl.squares, (v.white_castling, v.black_castling)));
    match v.en_passant {
        None => {},
        Some(sq) => {
            let t = w[3];
            assert(parse_square(t) == Some(sq));
            let f = File::spec_from_char(t[0])->0;
            let r = Rank::spec_from_char(t[1])->0;
            assert(0 <= f.spec_index() < 8 && 0 <= r.spec_index() < 8);
        },
    }
    assert(v.squares == pl.squares && v.duck == pl.duck);
    assert(v.squares.len() == 64);
    assert(duck_ok(v));
    assert(right_readable(v, Color::White, CastlingDirection::Short, true));
    assert(right_readable(v, Color::White, CastlingDirection::Long, true));
    assert(right_readable(v, Color::Black, CastlingDirection::Short, true));
    assert(right_readable(v, Color::Black, CastlingDirection::Long, true));
    lemma_parse_unsigned_bounds(w[4], 255);
    lemma_parse_unsigned_bounds(w[5], 65535);
    assert(v.hmc <= 100);
    assert(v.fmc >= 1);
    assert(fen_readable(v, true));
    lemma_fen_round_trip(v, true);
}


/// A board's parts other than its castling rights can be read back from its FEN text.
pub open spec fn base_readable(v: BoardView) -> bool {
    &&& v.squares.len() == 64
    &&& duck_ok(v)
    &&& (count_occupant(v.squares, Some((Color::White, Piece::King)), 64) == 1 || count_occupant(
        v.squares,
        Some((Color::Black, Piece::King)),
        64,
    ) == 1)
    &&& (v.en_passant matches Some(s) ==> 0 <= s < 64 && s / 8 == Rank::Sixth.spec_relative_index(v.stm))
    &&& v.hmc <= 100
    &&& v.fmc >= 1
}

/// The rook file that standard notation (`K`, `Q`, `k`, `q`) reads back for a castling right:
/// the outermost rook on the right's side of the king, on the back rank.
pub open spec fn standard_scan(v: BoardView, color: Color, dir: CastlingDirection) -> Option<int> {
    match first_occupant_from(v.squares, Some((color, Piece::King)), 0) {
        None => None,
        Some(ks) => if ks / 8 != Rank::First.spec_relative_index(color) {
            None
        } else {
            let back = Rank::First.spec_relative_index(color);
            match dir {
                CastlingDirection::Short => scan_down(v.squares, Some((color, Piece::Rook)), back, ks % 8 + 1, 7),
                CastlingDirection::Long => scan_up(v.squares, Some((color, Piece::Rook)), back, ks % 8 - 1, 0),
            }
        },
    }
}

pub open spec fn standard_right(v: BoardView, color: Color, dir: CastlingDirection) -> Option<File> {
    match castling_of(v, color).spec_get(dir) {
        None => None,
        Some(_) => match standard_scan(v, color, dir) {
            None => None,
            Some(f) => File::spec_try_index(f),
        },
    }
}

/// The board as standard notation reads it back: each castling right with the rook file the
/// notation finds.
pub open spec fn standard_view(v: BoardView) -> BoardView {
    BoardView {
        white_castling: CastlingRights {
            short: standard_right(v, Color::White, CastlingDirection::Short),
            long: standard_right(v, Color::White, CastlingDirection::Long),
        },
        black_castling: CastlingRights {
            short: standard_right(v, Color::Black, CastlingDirection::Short),
            long: standard_right(v, Color::Black, CastlingDirection::Long),
        },
        ..v
    }
}

/// Every castling right of the board has a rook for standard notation to find.
pub open spec fn standard_rights_found(v: BoardView) -> bool {
    &&& castling_of(v, Color::White).short is Some ==> standard_scan(v, Color::White, CastlingDirection::Short) is Some
    &&& castling_of(v, Color::White).long is Some ==> standard_scan(v, Color::White, CastlingDirection::Long) is Some
    &&& castling_of(v, Color::Black).short is Some ==> standard_scan(v, Color::Black, CastlingDirection::Short) is Some
    &&& castling_of(v, Color::Black).long is Some ==> standard_scan(v, Color::Black, CastlingDirection::Long) is Some
}

proof fn lemma_standard_right(v: BoardView, color: Color, dir: CastlingDirection)
    requires
        castling_of(v, color).spec_get(dir) is Some ==> standard_scan(v, color, dir) is Some,
    ensures
        standard_right(v, color, dir) is Some <==> castling_of(v, color).spec_get(dir) is Some,
        right_readable(standard_view(v), color, dir, false),
{
    let back = Rank::First.spec_relative_index(color);
    match first_occupant_from(v.squares, Some((color, Piece::King)), 0) {
        None => {},
        Some(ks) => {
            lemma_scan_down(v.squares, Some((color, Piece::Rook)), back, ks % 8 + 1, 7);
            lemma_scan_up(v.squares, Some((color, Piece::Rook)), back, ks % 8 - 1, 0);
        },
    }
    match standard_scan(v, color, dir) {
        None => {},
        Some(f) => lemma_try_index(f),
    }
    assert(castling_of(standard_view(v), color).spec_get(dir) == standard_right(v, color, dir));
}

/// Writing a board in standard castling notation and reading it back gives the board with
/// each castling right on the rook the notation finds, and that board writes the same text:
/// the text is a fixed point of reading then writing.
#[verifier::spinoff_prover]
pub proof fn lemma_fen_standard(v: BoardView)
    requires
        base_readable(v),
        standard_rights_found(v),
    ensures
        parse_fen(fen_text(v, false)) == Some(standard_view(v)),
        fen_text(standard_view(v), false) == fen_text(v, false),
{
    let w = standard_view(v);
    lemma_standard_right(v, Color::White, CastlingDirection::Short);
    lemma_standard_right(v, Color::White, CastlingDirection::Long);
    lemma_standard_right(v, Color::Black, CastlingDirection::Short);
    lemma_standard_right(v, Color::Black, CastlingDirection::Long);
    assert(ranks_text(w, 8) == ranks_text(v, 8)) by {
        assert(w.squares == v.squares && w.duck == v.duck);
        lemma_ranks_same(v, w, 8);
    }
    assert(castling_text(w, false) == castling_text(v, false));
    assert(en_passant_text(w) == en_passant_text(v));
    assert(fen_text(w, false) == fen_text(v, false));
    assert(fen_readable(w, false));
    lemma_fen_round_trip(w, false);
}

proof fn lemma_rows_same(v: BoardView, w: BoardView, rank: int, f: int, empty: int)
    requires
        w.squares == v.squares,
        w.duck == v.duck,
    ensures
        row_text_from(w, rank, f, empty) == row_text_from(v, rank, f, empty),
    decreases 8 - f,
{
    if f < 8 {
        lemma_rows_same(v, w, rank, f + 1, 0);
        lemma_rows_same(v, w, rank, f + 1, empty + 1);
    }
}

proof fn lemma_ranks_same(v: BoardView, w: BoardView, k: int)
    requires
        w.squares == v.squares,
        w.duck == v.duck,
    ensures
        ranks_text(w, k) == ranks_text(v, k),
    decreases k,
{
    lemma_rows_same(v, w, k - 1, 0, 0);
    lemma_rows_same(v, w, 0, 0, 0);
    if k > 1 {
        lemma_ranks_same(v, w, k - 1);
    }
}

proof fn lemma_scan_down_finds(sq: Seq<Occupant>, o: Occupant, rank: int, lo: int, f: int, g: int)
    requires
        0 <= lo <= g <= f < 8,
        sq[rank * 8 + g] == o,
    ensures
        scan_down(sq, o, rank, lo, f) is Some,
    decreases f + 1,
{
    if sq[rank * 8 + f] != o {
        lemma_scan_down_finds(sq, o, rank, lo, f - 1, g);
    }
}

proof fn lemma_scan_up_finds(sq: Seq<Occupant>, o: Occupant, rank: int, hi: int, f: int, g: int)
    requires
        0 <= f <= g <= hi,
        hi < 8,
        sq[rank * 8 + g] == o,
    ensures
        scan_up(sq, o, rank, hi, f) is Some,
    decreases 8 - f,
{
    if sq[rank * 8 + f] != o {
        lemma_scan_up_finds(sq, o, rank, hi, f + 1, g);
    }
}

/// The rook a castling right names stands on the side's back rank.
pub open spec fn right_rook_present(v: BoardView, color: Color, dir: CastlingDirection) -> bool {
    castling_of(v, color).spec_get(dir) matches Some(f) ==> v.squares[Rank::First.spec_relative_index(color) * 8
        + f.spec_index()] == Some((color, Piece::Rook))
}

proof fn lemma_parsed_right_found(v: BoardView, color: Color, dir: CastlingDirection)
    requires
        v.squares.len() == 64,
        slot_readable(v.squares, color, dir, castling_of(v, color).spec_get(dir)),
        right_rook_present(v, color, dir),
    ensures
        castling_of(v, color).spec_get(dir) is Some ==> standard_scan(v, color, dir) is Some,
{
    match castling_of(v, color).spec_get(dir) {
        None => {},
        Some(f) => {
            lemma_file_index(f);
            let back = Rank::First.spec_relative_index(color);
            let ks = first_occupant_from(v.squares, Some((color, Piece::King)), 0)->0;
            lemma_first_found(v.squares, Some((color, Piece::King)), 0);
            let g = f.spec_index();
            assert(ks == back * 8 + ks % 8);
            match dir {
                CastlingDirection::Short => {
                    lemma_scan_down_finds(v.squares, Some((color, Piece::Rook)), back, ks % 8 + 1, 7, g);
                },
                CastlingDirection::Long => {
                    assert(g != ks % 8);
                    lemma_scan_up_finds(v.squares, Some((color, Piece::Rook)), back, ks % 8 - 1, 0, g);
                },
            }
        },
    }
}

proof fn lemma_first_found(sq: Seq<Occupant>, o: Occupant, i: int)
    ensures
        first_occupant_from(sq, o, i) matches Some(k) ==> i <= k < 64 && sq[k] == o,
    decreases 64 - i,
{
    if i < 64 && sq[i] != o {
        lemma_first_found(sq, o, i + 1);
    }
}

/// A board that `Board::from_fen` reads, whose castling rights all name rooks on the back
/// rank, writes in standard notation a text that reads back to a board writing the same text.
#[verifier::spinoff_prover]
pub proof fn lemma_parsed_standard_fixpoint(s: Seq<char>)
    requires
        parse_fen(s) is Some,
        right_rook_present(parse_fen(s)->0, Color::White, CastlingDirection::Short),
        right_rook_present(parse_fen(s)->0, Color::White, CastlingDirection::Long),
        right_rook_present(parse_fen(s)->0, Color::Black, CastlingDirection::Short),
        right_rook_present(parse_fen(s)->0, Color::Black, CastlingDirection::Long),
    ensures
        parse_fen(fen_text(parse_fen(s)->0, false)) matches Some(w) && fen_text(w, false) == fen_text(
            parse_fen(s)->0,
            false,
        ),
{
    let v = parse_fen(s)->0;
    lemma_read_write_read(s);
    assert(fen_readable(v, true));
    lemma_parsed_right_found(v, Color::White, CastlingDirection::Short);
    lemma_parsed_right_found(v, Color::White, CastlingDirection::Long);
    lemma_parsed_right_found(v, Color::Black, CastlingDirection::Short);
    lemma_parsed_right_found(v, Color::Black, CastlingDirection::Long);
    lemma_fen_standard(v);
}


/// What every board `Board::from_fen` reads keeps: 64 squares, the duck on an empty square, at
/// least one side with exactly one king, the en passant square on the sixth rank seen from the
/// side to move, the counters in range, and each side holding a castling right has its king on
/// its own back rank, with the right's rook file on the right's side of it.
pub proof fn lemma_parsed_board(s: Seq<char>)
    requires
        parse_fen(s) is Some,
    ensures
        ({
            let v = parse_fen(s)->0;
            &&& base_readable(v)
            &&& forall|color: Color, dir: CastlingDirection|
                #![trigger castling_of(v, color).spec_get(dir)]
                slot_readable(v.squares, color, dir, castling_of(v, color).spec_get(dir))
        }),
{
    let v = parse_fen(s)->0;
    lemma_read_write_read(s);
    assert forall|color: Color, dir: CastlingDirection|
        #![trigger castling_of(v, color).spec_get(dir)]
        slot_readable(v.squares, color, dir, castling_of(v, color).spec_get(dir)) by {
        assert(right_readable(v, color, dir, true));
    }
}

/// Of every board `Board::from_fen` reads: the squares of the two colors are disjoint; the
/// squares of two kinds of piece are disjoint, and those of all kinds together are those of the
/// two colors; a square holds a kind of piece exactly when that kind's squares have it; the
/// duck stands on an empty square; the counters are in range; and a side holding a castling
/// right has its king on its own back rank.
pub proof fn lemma_parsed_board_sets(s: Seq<char>)
    requires
        parse_fen(s) is Some,
    ensures
        ({
            let v = parse_fen(s)->0;
            &&& v.squares.len() == 64
            &&& color_squares(v, Color::White).disjoint(color_squares(v, Color::Black))
            &&& forall|p: Piece, q: Piece| p != q ==> (#[trigger] piece_squares(v, p)).disjoint(#[trigger] piece_squares(v, q))
            &&& forall|i: int| (exists|p: Piece| #[trigger] piece_squares(v, p).contains(i)) <==> (color_squares(
                v,
                Color::White,
            ).contains(i) || color_squares(v, Color::Black).contains(i))
            &&& forall|i: int, p: Piece| 0 <= i < 64 ==> (piece_at(v, i) == Some(p) <==> #[trigger] piece_squares(
                v,
                p,
            ).contains(i))
            &&& (v.duck matches Some(d) ==> 0 <= d < 64 && piece_at(v, d) is None && color_at(v, d) is None)
            &&& v.hmc <= 100
            &&& v.fmc >= 1
            &&& forall|color: Color, dir: CastlingDirection|
                #[trigger] castling_of(v, color).spec_get(dir) is Some ==> exists|k: int|
                    0 <= k < 64 && k / 8 == Rank::First.spec_relative_index(color) && v.squares[k] == Some(
                        (color, Piece::King),
                    )
        }),
{
    let v = parse_fen(s)->0;
    lemma_parsed_board(s);
    assert forall|i: int| (exists|p: Piece| #[trigger] piece_squares(v, p).contains(i)) <==> (color_squares(
        v,
        Color::White,
    ).contains(i) || color_squares(v, Color::Black).contains(i)) by {
        if color_squares(v, Color::White).contains(i) || color_squares(v, Color::Black).contains(i) {
            let (c, p) = v.squares[i]->0;
            assert(piece_squares(v, p).contains(i));
        }
        if exists|p: Piece| #[trigger] piece_squares(v, p).contains(i) {
            let p = choose|p: Piece| #[trigger] piece_squares(v, p).contains(i);
            let (c, q) = v.squares[i]->0;
            assert(color_at(v, i) == Some(c));
        }
    }
    assert forall|color: Color, dir: CastlingDirection|
        #[trigger] castling_of(v, color).spec_get(dir) is Some implies exists|k: int|
            0 <= k < 64 && k / 8 == Rank::First.spec_relative_index(color) && v.squares[k] == Some(
                (color, Piece::King),
            ) by {
        assert(slot_readable(v.squares, color, dir, castling_of(v, color).spec_get(dir)));
        let ks = first_occupant_from(v.squares, Some((color, Piece::King)), 0)->0;
        lemma_first_occupant_found(v.squares, Some((color, Piece::King)), 0);
        assert(0 <= ks < 64 && v.squares[ks] == Some((color, Piece::King)));
    }
}

proof fn lemma_first_occupant_found(sq: Seq<Occupant>, o: Occupant, i: int)
    requires
        0 <= i,
    ensures
        first_occupant_from(sq, o, i) matches Some(k) ==> i <= k < 64 && sq[k] == o,
    decreases 64 - i,
{
    if i < 64 && sq[i] != o {
        lemma_first_occupant_found(sq, o, i + 1);
    }
}

} // verus!
