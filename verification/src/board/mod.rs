pub mod fen;
pub mod fen_laws;
pub mod startpos;

use crate::common::{Bitboard, Color, File, Piece, Rank, Square, bit};
use vstd::prelude::*;

verus! {

/// Which side of the king a castling right is on.
#[derive(Clone, Copy, PartialEq, Eq, Structural, Debug)]
pub enum CastlingDirection {
    Short,
    Long,
}

/// The castling rights of one side: for each direction, the file of the rook it castles with.
#[derive(Clone, Copy, PartialEq, Eq, Structural, Debug)]
pub struct CastlingRights {
    pub short: Option<File>,
    pub long: Option<File>,
}

impl CastlingRights {
    pub open spec fn spec_none() -> CastlingRights {
        CastlingRights { short: None, long: None }
    }

    pub fn new(long: Option<File>, short: Option<File>) -> (r: CastlingRights)
        ensures
            r == (CastlingRights { short, long }),
    {
        CastlingRights { short, long }
    }

    pub open spec fn spec_get(self, dir: CastlingDirection) -> Option<File> {
        match dir {
            CastlingDirection::Short => self.short,
            CastlingDirection::Long => self.long,
        }
    }

    pub fn get(&self, dir: CastlingDirection) -> (r: Option<File>)
        ensures
            r == self.spec_get(dir),
    {
        match dir {
            CastlingDirection::Short => self.short,
            CastlingDirection::Long => self.long,
        }
    }

    pub open spec fn spec_set(self, dir: CastlingDirection, file: Option<File>) -> CastlingRights {
        match dir {
            CastlingDirection::Short => CastlingRights { short: file, ..self },
            CastlingDirection::Long => CastlingRights { long: file, ..self },
        }
    }

    pub fn set(&mut self, dir: CastlingDirection, file: Option<File>)
        ensures
            *final(self) == old(self).spec_set(dir, file),
    {
        match dir {
            CastlingDirection::Short => self.short = file,
            CastlingDirection::Long => self.long = file,
        }
    }
}

/// What stands on a square: a piece of some color, or nothing.
pub type Occupant = Option<(Color, Piece)>;

/// The characters of a string, in order.
pub fn chars_of(s: &str) -> (r: Vec<char>)
    ensures
        r@ == s@,
{
    let mut out: Vec<char> = Vec::new();
    for c in it: s.chars()
        invariant
            out@ == it.seq().take(it.index() as int),
    {
        out.push(c);
    }
    assert(out@ == s@);
    out
}

/// A string holding the given characters, in order. Calls std's `String::from_iter` on the
/// characters; the contract claims, as std documents for collecting characters into a
/// `String`, that the string's characters are exactly `chars`, in order. Nothing here proves it.
#[verifier::external_body]
fn string_from_chars(chars: &Vec<char>) -> (r: String)
    ensures
        r@ == chars@,
{
    String::from_iter(chars.iter())
}

/// Whether two squares' contents are the same.
pub fn same_occupant(a: Occupant, b: Occupant) -> (r: bool)
    ensures
        r == (a == b),
{
    match (a, b) {
        (None, None) => true,
        (Some((c1, p1)), Some((c2, p2))) => c1 == c2 && p1 == p2,
        _ => false,
    }
}

/// One step of the xorshift generator.
pub open spec fn xorshift(x: u64) -> u64 {
    let a = x ^ (x << 13u64);
    let b = a ^ (a >> 7u64);
    b ^ (b << 17u64)
}

/// The pseudo-random key of feature number `i`.
pub open spec fn zobrist_key(i: int) -> u64 {
    xorshift(xorshift(0x9E37_79B9_7F4A_7C15u64 ^ (i as u64)))
}

/// The key of a piece of a color on a square.
pub open spec fn piece_key(c: Color, p: Piece, sq: int) -> u64 {
    zobrist_key(c.spec_index() * 384 + p.spec_index() * 64 + sq)
}

fn xorshift_exec(x: u64) -> (r: u64)
    ensures
        r == xorshift(x),
{
    let a = x ^ (x << 13u64);
    let b = a ^ (a >> 7u64);
    b ^ (b << 17u64)
}

fn piece_key_exec(c: Color, p: Piece, sq: usize) -> (r: u64)
    requires
        sq < 64,
    ensures
        r == piece_key(c, p, sq as int),
{
    let i = (c.index() * 384 + p.index() * 64 + sq) as u64;
    xorshift_exec(xorshift_exec(0x9E37_79B9_7F4A_7C15u64 ^ i))
}

/// The sets of pieces the board keeps a hash of.
#[derive(Clone, Copy, PartialEq, Eq, Structural, Debug)]
pub enum HashKind {
    /// Pawns of both colors.
    Pawn,
    /// Knights, bishops and kings.
    Minor,
    /// Rooks, queens and kings.
    Major,
    /// White pieces other than pawns.
    White,
    /// Black pieces other than pawns.
    Black,
}

pub open spec fn hashed(kind: HashKind, c: Color, p: Piece) -> bool {
    match kind {
        HashKind::Pawn => p == Piece::Pawn,
        HashKind::Minor => p == Piece::Knight || p == Piece::Bishop || p == Piece::King,
        HashKind::Major => p == Piece::Rook || p == Piece::Queen || p == Piece::King,
        HashKind::White => c == Color::White && p != Piece::Pawn,
        HashKind::Black => c == Color::Black && p != Piece::Pawn,
    }
}

/// The xor of the keys of the pieces of a kind on the squares below `n`.
pub open spec fn hash_upto(sq: Seq<Occupant>, kind: HashKind, n: int) -> u64
    decreases n,
{
    if n <= 0 {
        0
    } else {
        let h = hash_upto(sq, kind, n - 1);
        match sq[n - 1] {
            Some((c, p)) => if hashed(kind, c, p) {
                h ^ piece_key(c, p, n - 1)
            } else {
                h
            },
            None => h,
        }
    }
}

/// The hash of the pieces of a kind on a board.
pub open spec fn board_hash(v: BoardView, kind: HashKind) -> u64 {
    hash_upto(v.squares, kind, 64)
}

/// The mathematical content of a board.
pub struct BoardView {
    /// What stands on each of the 64 squares.
    pub squares: Seq<Occupant>,
    pub white_castling: CastlingRights,
    pub black_castling: CastlingRights,
    /// The number of the square a pawn may capture en passant onto.
    pub en_passant: Option<int>,
    /// The number of the square the duck stands on.
    pub duck: Option<int>,
    pub stm: Color,
    pub hmc: u8,
    pub fmc: u16,
}

/// A duck chess position.
pub struct Board {
    mailbox: Vec<Occupant>,
    white_castling: CastlingRights,
    black_castling: CastlingRights,
    en_passant: Option<Square>,
    duck: Option<Square>,
    stm: Color,
    hmc: u8,
    fmc: u16,
}

pub open spec fn opt_square_view(s: Option<Square>) -> Option<int> {
    match s {
        Some(sq) => Some(sq@),
        None => None,
    }
}

impl View for Board {
    type V = BoardView;

    closed spec fn view(&self) -> BoardView {
        BoardView {
            squares: self.mailbox@,
            white_castling: self.white_castling,
            black_castling: self.black_castling,
            en_passant: opt_square_view(self.en_passant),
            duck: opt_square_view(self.duck),
            stm: self.stm,
            hmc: self.hmc,
            fmc: self.fmc,
        }
    }
}

/// The castling rights of one side in a board view.
/// The kind of piece on a square, if any.
pub open spec fn piece_at(v: BoardView, i: int) -> Option<Piece> {
    match v.squares[i] {
        Some((_, p)) => Some(p),
        None => None,
    }
}

/// The color of the piece on a square, if any.
pub open spec fn color_at(v: BoardView, i: int) -> Option<Color> {
    match v.squares[i] {
        Some((c, _)) => Some(c),
        None => None,
    }
}

/// The squares holding a piece of a kind, of either color.
pub open spec fn piece_squares(v: BoardView, piece: Piece) -> Set<int> {
    Set::new(|i: int| 0 <= i < 64 && piece_at(v, i) == Some(piece))
}

/// The squares holding a piece of a color.
pub open spec fn color_squares(v: BoardView, color: Color) -> Set<int> {
    Set::new(|i: int| 0 <= i < 64 && color_at(v, i) == Some(color))
}

pub open spec fn castling_of(v: BoardView, color: Color) -> CastlingRights {
    match color {
        Color::White => v.white_castling,
        Color::Black => v.black_castling,
    }
}

impl Board {
    #[verifier::type_invariant]
    spec fn inv(self) -> bool {
        self.mailbox@.len() == 64
    }

    pub fn piece_on(&self, sq: Square) -> (r: Option<Piece>)
        ensures
            r == piece_at(self@, sq@),
    {
        proof {
            use_type_invariant(self);
        }
        match self.mailbox[sq.index()] {
            Some((_, p)) => Some(p),
            None => None,
        }
    }

    pub fn color_on(&self, sq: Square) -> (r: Option<Color>)
        ensures
            r == color_at(self@, sq@),
    {
        proof {
            use_type_invariant(self);
        }
        match self.mailbox[sq.index()] {
            Some((c, _)) => Some(c),
            None => None,
        }
    }

    pub fn occupant(&self, sq: Square) -> (r: Occupant)
        ensures
            r == self@.squares[sq@],
    {
        proof {
            use_type_invariant(self);
        }
        self.mailbox[sq.index()]
    }

    /// The set of squares holding a piece of the given kind, of either color.
    pub fn pieces(&self, piece: Piece) -> (r: Bitboard)
        ensures
            forall|i: int| 0 <= i < 64 ==> (#[trigger] r.contains(i) <==> piece_squares(self@, piece).contains(i)),
    {
        proof {
            use_type_invariant(self);
        }
        let mut bb = Bitboard::empty();
        let mut i: usize = 0;
        while i < 64
            invariant
                i <= 64,
                self.mailbox@.len() == 64,
                forall|j: int|
                    0 <= j < 64 ==> (#[trigger] bb.contains(j) <==> (j < i && (
                    self.mailbox@[j] matches Some((_, p)) && p == piece))),
            decreases 64 - i,
        {
            let here = match self.mailbox[i] {
                Some((_, p)) => p == piece,
                None => false,
            };
            if here {
                bb = bb.with(Square::from_index(i));
            }
            i += 1;
        }
        bb
    }

    /// The set of squares holding a piece of the given color.
    pub fn colors(&self, color: Color) -> (r: Bitboard)
        ensures
            forall|i: int| 0 <= i < 64 ==> (#[trigger] r.contains(i) <==> color_squares(self@, color).contains(i)),
    {
        proof {
            use_type_invariant(self);
        }
        let mut bb = Bitboard::empty();
        let mut i: usize = 0;
        while i < 64
            invariant
                i <= 64,
                self.mailbox@.len() == 64,
                forall|j: int|
                    0 <= j < 64 ==> (#[trigger] bb.contains(j) <==> (j < i && (
                    self.mailbox@[j] matches Some((c, _)) && c == color))),
            decreases 64 - i,
        {
            let here = match self.mailbox[i] {
                Some((c, _)) => c == color,
                None => false,
            };
            if here {
                bb = bb.with(Square::from_index(i));
            }
            i += 1;
        }
        bb
    }

    /// The hash of the pieces of a kind.
    pub fn hash_of(&self, kind: HashKind) -> (r: u64)
        ensures
            r == board_hash(self@, kind),
    {
        proof {
            use_type_invariant(self);
        }
        let mut h: u64 = 0;
        let mut i: usize = 0;
        while i < 64
            invariant
                i <= 64,
                self.mailbox@.len() == 64,
                h == hash_upto(self.mailbox@, kind, i as int),
            decreases 64 - i,
        {
            match self.mailbox[i] {
                Some((c, p)) => {
                    let counted = match kind {
                        HashKind::Pawn => p == Piece::Pawn,
                        HashKind::Minor => p == Piece::Knight || p == Piece::Bishop || p == Piece::King,
                        HashKind::Major => p == Piece::Rook || p == Piece::Queen || p == Piece::King,
                        HashKind::White => c == Color::White && p != Piece::Pawn,
                        HashKind::Black => c == Color::Black && p != Piece::Pawn,
                    };
                    if counted {
                        h = h ^ piece_key_exec(c, p, i);
                    }
                },
                None => {},
            }
            i += 1;
        }
        h
    }

    pub fn pawn_hash(&self) -> (r: u64)
        ensures
            r == board_hash(self@, HashKind::Pawn),
    {
        self.hash_of(HashKind::Pawn)
    }

    pub fn minor_hash(&self) -> (r: u64)
        ensures
            r == board_hash(self@, HashKind::Minor),
    {
        self.hash_of(HashKind::Minor)
    }

    pub fn major_hash(&self) -> (r: u64)
        ensures
            r == board_hash(self@, HashKind::Major),
    {
        self.hash_of(HashKind::Major)
    }

    pub fn white_hash(&self) -> (r: u64)
        ensures
            r == board_hash(self@, HashKind::White),
    {
        self.hash_of(HashKind::White)
    }

    pub fn black_hash(&self) -> (r: u64)
        ensures
            r == board_hash(self@, HashKind::Black),
    {
        self.hash_of(HashKind::Black)
    }

    pub fn castling_rights(&self, color: Color) -> (r: CastlingRights)
        ensures
            r == castling_of(self@, color),
    {
        match color {
            Color::White => self.white_castling,
            Color::Black => self.black_castling,
        }
    }

    pub fn en_passant(&self) -> (r: Option<Square>)
        ensures
            opt_square_view(r) == self@.en_passant,
    {
        self.en_passant
    }

    pub fn duck(&self) -> (r: Option<Square>)
        ensures
            opt_square_view(r) == self@.duck,
    {
        self.duck
    }

    pub fn stm(&self) -> (r: Color)
        ensures
            r == self@.stm,
    {
        self.stm
    }

    /// The halfmove clock.
    pub fn hmc(&self) -> (r: u8)
        ensures
            r == self@.hmc,
    {
        self.hmc
    }

    /// The fullmove counter.
    pub fn fmc(&self) -> (r: u16)
        ensures
            r == self@.fmc,
    {
        self.fmc
    }
}

} // verus!
