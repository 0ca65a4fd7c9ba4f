use vstd::prelude::*;

verus! {

/// The two sides of a chess game.
#[derive(Clone, Copy, PartialEq, Eq, Structural, Debug)]
pub enum Color {
    White,
    Black,
}

impl Color {
    pub const COUNT: usize = 2;

    pub open spec fn spec_index(self) -> int {
        match self {
            Color::White => 0,
            Color::Black => 1,
        }
    }

    /// Index of the color in tables indexed by side.
    pub fn index(self) -> (r: usize)
        ensures
            r == self.spec_index(),
            r < 2,
    {
        match self {
            Color::White => 0,
            Color::Black => 1,
        }
    }

    pub open spec fn spec_from_lowercase(lowercase: bool) -> Color {
        if lowercase {
            Color::Black
        } else {
            Color::White
        }
    }

    /// The color written by a letter of the given case: lowercase is black.
    pub fn from_lowercase(lowercase: bool) -> (r: Color)
        ensures
            r == Self::spec_from_lowercase(lowercase),
    {
        if lowercase {
            Color::Black
        } else {
            Color::White
        }
    }

    pub open spec fn spec_from_char(c: char) -> Option<Color> {
        if c == 'w' {
            Some(Color::White)
        } else if c == 'b' {
            Some(Color::Black)
        } else {
            None
        }
    }

    /// Side to move as written in FEN: `w` or `b`.
    pub fn from_char(c: char) -> (r: Option<Color>)
        ensures
            r == Self::spec_from_char(c),
    {
        if c == 'w' {
            Some(Color::White)
        } else if c == 'b' {
            Some(Color::Black)
        } else {
            None
        }
    }

    pub open spec fn spec_to_char(self) -> char {
        match self {
            Color::White => 'w',
            Color::Black => 'b',
        }
    }

    pub fn to_char(self) -> (r: char)
        ensures
            r == self.spec_to_char(),
    {
        match self {
            Color::White => 'w',
            Color::Black => 'b',
        }
    }
}

/// The six kinds of chess pieces.
#[derive(Clone, Copy, PartialEq, Eq, Structural, Debug)]
pub enum Piece {
    Pawn,
    Knight,
    Bishop,
    Rook,
    Queen,
    King,
}

impl Piece {
    pub const COUNT: usize = 6;

    pub open spec fn spec_index(self) -> int {
        match self {
            Piece::Pawn => 0,
            Piece::Knight => 1,
            Piece::Bishop => 2,
            Piece::Rook => 3,
            Piece::Queen => 4,
            Piece::King => 5,
        }
    }

    pub fn index(self) -> (r: usize)
        ensures
            r == self.spec_index(),
            r < 6,
    {
        match self {
            Piece::Pawn => 0,
            Piece::Knight => 1,
            Piece::Bishop => 2,
            Piece::Rook => 3,
            Piece::Queen => 4,
            Piece::King => 5,
        }
    }

    /// The lowercase letter of the piece.
    pub open spec fn spec_to_char(self) -> char {
        match self {
            Piece::Pawn => 'p',
            Piece::Knight => 'n',
            Piece::Bishop => 'b',
            Piece::Rook => 'r',
            Piece::Queen => 'q',
            Piece::King => 'k',
        }
    }

    pub fn to_char(self) -> (r: char)
        ensures
            r == self.spec_to_char(),
    {
        match self {
            Piece::Pawn => 'p',
            Piece::Knight => 'n',
            Piece::Bishop => 'b',
            Piece::Rook => 'r',
            Piece::Queen => 'q',
            Piece::King => 'k',
        }
    }

    /// The piece written by a letter of either case.
    pub open spec fn spec_from_char(c: char) -> Option<Piece> {
        let l = to_lower(c);
        if l == 'p' {
            Some(Piece::Pawn)
        } else if l == 'n' {
            Some(Piece::Knight)
        } else if l == 'b' {
            Some(Piece::Bishop)
        } else if l == 'r' {
            Some(Piece::Rook)
        } else if l == 'q' {
            Some(Piece::Queen)
        } else if l == 'k' {
            Some(Piece::King)
        } else {
            None
        }
    }

    pub fn from_char(c: char) -> (r: Option<Piece>)
        ensures
            r == Self::spec_from_char(c),
    {
        let l = ascii_lowercase(c);
        if l == 'p' {
            Some(Piece::Pawn)
        } else if l == 'n' {
            Some(Piece::Knight)
        } else if l == 'b' {
            Some(Piece::Bishop)
        } else if l == 'r' {
            Some(Piece::Rook)
        } else if l == 'q' {
            Some(Piece::Queen)
        } else if l == 'k' {
            Some(Piece::King)
        } else {
            None
        }
    }
}

pub open spec fn is_lower(c: char) -> bool {
    'a' <= c <= 'z'
}

pub open spec fn is_upper(c: char) -> bool {
    'A' <= c <= 'Z'
}

/// ASCII lowercase of a character; other characters are unchanged.
pub open spec fn to_lower(c: char) -> char {
    if is_upper(c) {
        ((c as u32) + 32) as char
    } else {
        c
    }
}

/// ASCII uppercase of a character; other characters are unchanged.
pub open spec fn to_upper(c: char) -> char {
    if is_lower(c) {
        ((c as u32) - 32) as char
    } else {
        c
    }
}

pub fn is_ascii_lowercase(c: char) -> (r: bool)
    ensures
        r == is_lower(c),
{
    'a' <= c && c <= 'z'
}

pub fn ascii_lowercase(c: char) -> (r: char)
    ensures
        r == to_lower(c),
{
    if 'A' <= c && c <= 'Z' {
        ((c as u8) + 32) as char
    } else {
        c
    }
}

pub fn ascii_uppercase(c: char) -> (r: char)
    ensures
        r == to_upper(c),
{
    if 'a' <= c && c <= 'z' {
        ((c as u8) - 32) as char
    } else {
        c
    }
}

/// Files `a` to `h`.
#[derive(Clone, Copy, PartialEq, Eq, Structural, Debug)]
pub enum File {
    A,
    B,
    C,
    D,
    E,
    F,
    G,
    H,
}

impl File {
    pub const COUNT: usize = 8;

    pub open spec fn spec_index(self) -> int {
        match self {
            File::A => 0,
            File::B => 1,
            File::C => 2,
            File::D => 3,
            File::E => 4,
            File::F => 5,
            File::G => 6,
            File::H => 7,
        }
    }

    pub fn index(self) -> (r: usize)
        ensures
            r == self.spec_index(),
            r < 8,
    {
        match self {
            File::A => 0,
            File::B => 1,
            File::C => 2,
            File::D => 3,
            File::E => 4,
            File::F => 5,
            File::G => 6,
            File::H => 7,
        }
    }

    pub open spec fn spec_try_index(i: int) -> Option<File> {
        if i == 0 {
            Some(File::A)
        } else if i == 1 {
            Some(File::B)
        } else if i == 2 {
            Some(File::C)
        } else if i == 3 {
            Some(File::D)
        } else if i == 4 {
            Some(File::E)
        } else if i == 5 {
            Some(File::F)
        } else if i == 6 {
            Some(File::G)
        } else if i == 7 {
            Some(File::H)
        } else {
            None
        }
    }

    /// The file with the given index, if it is below 8.
    pub fn try_index(i: usize) -> (r: Option<File>)
        ensures
            r == Self::spec_try_index(i as int),
            r matches Some(f) ==> f.spec_index() == i,
            r is Some <==> i < 8,
    {
        if i == 0 {
            Some(File::A)
        } else if i == 1 {
            Some(File::B)
        } else if i == 2 {
            Some(File::C)
        } else if i == 3 {
            Some(File::D)
        } else if i == 4 {
            Some(File::E)
        } else if i == 5 {
            Some(File::F)
        } else if i == 6 {
            Some(File::G)
        } else if i == 7 {
            Some(File::H)
        } else {
            None
        }
    }

    /// The lowercase letter of the file.
    pub open spec fn spec_to_char(self) -> char {
        (('a' as u32) + self.spec_index()) as char
    }

    pub fn to_char(self) -> (r: char)
        ensures
            r == self.spec_to_char(),
    {
        match self {
            File::A => 'a',
            File::B => 'b',
            File::C => 'c',
            File::D => 'd',
            File::E => 'e',
            File::F => 'f',
            File::G => 'g',
            File::H => 'h',
        }
    }

    /// The file written by a letter `a` to `h`, of either case.
    pub open spec fn spec_from_char(c: char) -> Option<File> {
        let l = to_lower(c);
        if 'a' <= l <= 'h' {
            Self::spec_try_index((l as u32) - ('a' as u32))
        } else {
            None
        }
    }

    pub fn from_char(c: char) -> (r: Option<File>)
        ensures
            r == Self::spec_from_char(c),
    {
        let l = ascii_lowercase(c);
        if 'a' <= l && l <= 'h' {
            File::try_index(((l as u32) - ('a' as u32)) as usize)
        } else {
            None
        }
    }
}

/// Ranks `1` to `8`, seen from white.
#[derive(Clone, Copy, PartialEq, Eq, Structural, Debug)]
pub enum Rank {
    First,
    Second,
    Third,
    Fourth,
    Fifth,
    Sixth,
    Seventh,
    Eighth,
}

impl Rank {
    pub const COUNT: usize = 8;

    pub open spec fn spec_index(self) -> int {
        match self {
            Rank::First => 0,
            Rank::Second => 1,
            Rank::Third => 2,
            Rank::Fourth => 3,
            Rank::Fifth => 4,
            Rank::Sixth => 5,
            Rank::Seventh => 6,
            Rank::Eighth => 7,
        }
    }

    pub fn index(self) -> (r: usize)
        ensures
            r == self.spec_index(),
            r < 8,
    {
        match self {
            Rank::First => 0,
            Rank::Second => 1,
            Rank::Third => 2,
            Rank::Fourth => 3,
            Rank::Fifth => 4,
            Rank::Sixth => 5,
            Rank::Seventh => 6,
            Rank::Eighth => 7,
        }
    }

    pub open spec fn spec_try_index(i: int) -> Option<Rank> {
        if i == 0 {
            Some(Rank::First)
        } else if i == 1 {
            Some(Rank::Second)
        } else if i == 2 {
            Some(Rank::Third)
        } else if i == 3 {
            Some(Rank::Fourth)
        } else if i == 4 {
            Some(Rank::Fifth)
        } else if i == 5 {
            Some(Rank::Sixth)
        } else if i == 6 {
            Some(Rank::Seventh)
        } else if i == 7 {
            Some(Rank::Eighth)
        } else {
            None
        }
    }

    /// The rank with the given index, if it is below 8.
    pub fn try_index(i: usize) -> (r: Option<Rank>)
        ensures
            r == Self::spec_try_index(i as int),
            r matches Some(k) ==> k.spec_index() == i,
            r is Some <==> i < 8,
    {
        if i == 0 {
            Some(Rank::First)
        } else if i == 1 {
            Some(Rank::Second)
        } else if i == 2 {
            Some(Rank::Third)
        } else if i == 3 {
            Some(Rank::Fourth)
        } else if i == 4 {
            Some(Rank::Fifth)
        } else if i == 5 {
            Some(Rank::Sixth)
        } else if i == 6 {
            Some(Rank::Seventh)
        } else if i == 7 {
            Some(Rank::Eighth)
        } else {
            None
        }
    }

    /// Index of this rank seen from the given side: black counts from the eighth rank.
    pub open spec fn spec_relative_index(self, color: Color) -> int {
        match color {
            Color::White => self.spec_index(),
            Color::Black => 7 - self.spec_index(),
        }
    }

    pub fn relative_to(self, color: Color) -> (r: Rank)
        ensures
            r.spec_index() == self.spec_relative_index(color),
    {
        match color {
            Color::White => self,
            Color::Black => match self {
                Rank::First => Rank::Eighth,
                Rank::Second => Rank::Seventh,
                Rank::Third => Rank::Sixth,
                Rank::Fourth => Rank::Fifth,
                Rank::Fifth => Rank::Fourth,
                Rank::Sixth => Rank::Third,
                Rank::Seventh => Rank::Second,
                Rank::Eighth => Rank::First,
            },
        }
    }

    /// The digit of the rank, `1` to `8`.
    pub open spec fn spec_to_char(self) -> char {
        (('1' as u32) + self.spec_index()) as char
    }

    pub fn to_char(self) -> (r: char)
        ensures
            r == self.spec_to_char(),
    {
        match self {
            Rank::First => '1',
            Rank::Second => '2',
            Rank::Third => '3',
            Rank::Fourth => '4',
            Rank::Fifth => '5',
            Rank::Sixth => '6',
            Rank::Seventh => '7',
            Rank::Eighth => '8',
        }
    }

    pub open spec fn spec_from_char(c: char) -> Option<Rank> {
        if '1' <= c <= '8' {
            Self::spec_try_index((c as u32) - ('1' as u32))
        } else {
            None
        }
    }

    pub fn from_char(c: char) -> (r: Option<Rank>)
        ensures
            r == Self::spec_from_char(c),
    {
        if '1' <= c && c <= '8' {
            Rank::try_index(((c as u32) - ('1' as u32)) as usize)
        } else {
            None
        }
    }
}

/// One of the 64 squares, numbered rank by rank from a1 (0) to h8 (63).
#[derive(Clone, Copy, PartialEq, Eq, Structural, Debug)]
pub struct Square(u8);

impl View for Square {
    type V = int;

    closed spec fn view(&self) -> int {
        self.0 as int
    }
}

impl Square {
    pub const COUNT: usize = 64;

    /// A square's number is below 64.
    #[verifier::type_invariant]
    pub closed spec fn inv(self) -> bool {
        self.0 < 64
    }

    pub proof fn lemma_range(self)
        requires
            self.inv(),
        ensures
            0 <= self@ < 64,
    {
    }

    /// The square with number `i`, for `i` below 64.
    pub closed spec fn at(i: int) -> Square {
        Square(i as u8)
    }

    pub broadcast proof fn lemma_at(i: int)
        requires
            0 <= i < 64,
        ensures
            (#[trigger] Square::at(i))@ == i,
    {
    }

    pub open spec fn spec_file(self) -> int {
        self@ % 8
    }

    pub open spec fn spec_rank(self) -> int {
        self@ / 8
    }

    /// The square's number, below 64.
    pub fn index(self) -> (r: usize)
        ensures
            r == self@,
            r < 64,
    {
        proof {
            use_type_invariant(&self);
        }
        self.0 as usize
    }

    /// The square with the given number.
    pub fn from_index(i: usize) -> (r: Square)
        requires
            i < 64,
        ensures
            r@ == i,
            r == Square::at(i as int),
    {
        Square(i as u8)
    }

    /// The square with the given number, if it is below 64.
    pub fn try_index(i: usize) -> (r: Option<Square>)
        ensures
            r is Some <==> i < 64,
            r matches Some(s) ==> s@ == i,
    {
        if i < 64 {
            Some(Square(i as u8))
        } else {
            None
        }
    }

    pub fn new(file: File, rank: Rank) -> (r: Square)
        ensures
            r@ == rank.spec_index() * 8 + file.spec_index(),
            r.spec_file() == file.spec_index(),
            r.spec_rank() == rank.spec_index(),
    {
        Square((rank.index() * 8 + file.index()) as u8)
    }

    pub fn file(self) -> (r: File)
        ensures
            r.spec_index() == self.spec_file(),
    {
        let i = self.index();
        match File::try_index(i % 8) {
            Some(f) => f,
            None => File::A,
        }
    }

    pub fn rank(self) -> (r: Rank)
        ensures
            r.spec_index() == self.spec_rank(),
    {
        let i = self.index();
        match Rank::try_index(i / 8) {
            Some(k) => k,
            None => Rank::First,
        }
    }
}

/// Integer division rounding towards zero, as Rust's `/` does.
pub open spec fn div_trunc(a: int, b: int) -> int {
    if a >= 0 {
        if b > 0 {
            a / b
        } else {
            -(a / -b)
        }
    } else {
        if b > 0 {
            -((-a) / b)
        } else {
            (-a) / (-b)
        }
    }
}

pub open spec fn bit(x: u64, i: u64) -> bool {
    (x >> i) & 1u64 == 1u64
}

proof fn lemma_bit_set(x: u64, i: u64, j: u64)
    requires
        i < 64,
        j < 64,
    ensures
        bit(x | (1u64 << i), j) == (j == i || bit(x, j)),
{
    assert(((x | (1u64 << i)) >> j) & 1u64 == 1u64 <==> (j == i || (x >> j) & 1u64 == 1u64))
        by (bit_vector)
        requires
            i < 64,
            j < 64,
    ;
}

proof fn lemma_bit_ops(x: u64, y: u64, j: u64)
    requires
        j < 64,
    ensures
        bit(x & y, j) == (bit(x, j) && bit(y, j)),
        bit(x | y, j) == (bit(x, j) || bit(y, j)),
        bit(!x, j) == !bit(x, j),
        !bit(0u64, j),
{
    assert(((x & y) >> j) & 1u64 == 1u64 <==> ((x >> j) & 1u64 == 1u64 && (y >> j) & 1u64
        == 1u64)) by (bit_vector)
        requires
            j < 64,
    ;
    assert(((x | y) >> j) & 1u64 == 1u64 <==> ((x >> j) & 1u64 == 1u64 || (y >> j) & 1u64
        == 1u64)) by (bit_vector)
        requires
            j < 64,
    ;
    assert(((!x) >> j) & 1u64 == 1u64 <==> !((x >> j) & 1u64 == 1u64)) by (bit_vector)
        requires
            j < 64,
    ;
    assert(!((0u64 >> j) & 1u64 == 1u64)) by (bit_vector);
}

/// A set of squares, one bit per square number.
#[derive(Clone, Copy, PartialEq, Eq, Structural, Debug)]
pub struct Bitboard(pub u64);

impl Bitboard {
    pub open spec fn spec_empty() -> Bitboard {
        Bitboard(0)
    }

    /// The empty set.
    pub fn empty() -> (r: Bitboard)
        ensures
            r == Self::spec_empty(),
            forall|i: int| !#[trigger] r.contains(i),
    {
        let r = Bitboard(0);
        proof {
            Self::lemma_empty();
            assert(r == Self::spec_empty());
        }
        r
    }

    /// Whether the square with number `i` is in the set.
    pub open spec fn contains(self, i: int) -> bool {
        0 <= i < 64 && bit(self.0, i as u64)
    }

    pub fn has(self, sq: Square) -> (r: bool)
        ensures
            r == self.contains(sq@),
    {
        let i = sq.index();
        (self.0 >> (i as u64)) & 1u64 == 1u64
    }

    /// The set with one more square.
    pub fn with(self, sq: Square) -> (r: Bitboard)
        ensures
            forall|i: int| #[trigger] r.contains(i) <==> (i == sq@ || self.contains(i)),
    {
        let i = sq.index() as u64;
        let r = Bitboard(self.0 | (1u64 << i));
        assert forall|j: int| #[trigger] r.contains(j) <==> (j == sq@ || self.contains(j)) by {
            if 0 <= j < 64 {
                lemma_bit_set(self.0, i, j as u64);
            }
        }
        r
    }

    pub fn and(self, other: Bitboard) -> (r: Bitboard)
        ensures
            forall|i: int| #[trigger] r.contains(i) <==> (self.contains(i) && other.contains(i)),
    {
        let r = Bitboard(self.0 & other.0);
        assert forall|j: int| #[trigger] r.contains(j) <==> (self.contains(j) && other.contains(j))
            by {
            if 0 <= j < 64 {
                lemma_bit_ops(self.0, other.0, j as u64);
            }
        }
        r
    }

    pub fn or(self, other: Bitboard) -> (r: Bitboard)
        ensures
            forall|i: int| #[trigger] r.contains(i) <==> (self.contains(i) || other.contains(i)),
    {
        let r = Bitboard(self.0 | other.0);
        assert forall|j: int| #[trigger] r.contains(j) <==> (self.contains(j) || other.contains(j))
            by {
            if 0 <= j < 64 {
                lemma_bit_ops(self.0, other.0, j as u64);
            }
        }
        r
    }

    /// The complement of the set.
    pub fn not(self) -> (r: Bitboard)
        ensures
            forall|i: int| 0 <= i < 64 ==> (#[trigger] r.contains(i) <==> !self.contains(i)),
    {
        let r = Bitboard(!self.0);
        assert forall|j: int| 0 <= j < 64 implies (#[trigger] r.contains(j) <==> !self.contains(
            j,
        )) by {
            lemma_bit_ops(self.0, self.0, j as u64);
        }
        r
    }

    pub fn is_empty(self) -> (r: bool)
        ensures
            r <==> forall|i: int| !#[trigger] self.contains(i),
    {
        let mut i: u64 = 0;
        while i < 64
            invariant
                i <= 64,
                forall|j: int| 0 <= j < i ==> !#[trigger] self.contains(j),
            decreases 64 - i,
        {
            if (self.0 >> i) & 1u64 == 1u64 {
                assert(self.contains(i as int));
                return false;
            }
            i += 1;
        }
        true
    }

    pub proof fn lemma_empty()
        ensures
            forall|i: int| !#[trigger] Self::spec_empty().contains(i),
    {
        assert forall|i: int| !#[trigger] Self::spec_empty().contains(i) by {
            if 0 <= i < 64 {
                lemma_bit_ops(0, 0, i as u64);
            }
        }
    }
}

/// What kind of move a move is.
#[derive(Clone, Copy, PartialEq, Eq, Structural, Debug)]
pub enum MoveFlag {
    Normal,
    DoublePush,
    ShortCastling,
    LongCastling,
    Capture,
    EnPassant,
    Promotion(Piece),
    CapturePromotion(Piece),
}

impl MoveFlag {
    pub open spec fn spec_is_capture(self) -> bool {
        match self {
            MoveFlag::Capture | MoveFlag::EnPassant | MoveFlag::CapturePromotion(_) => true,
            _ => false,
        }
    }

    pub open spec fn spec_promotion(self) -> Option<Piece> {
        match self {
            MoveFlag::Promotion(p) | MoveFlag::CapturePromotion(p) => Some(p),
            _ => None,
        }
    }

    /// Captures and promotions are noisy; every other move is quiet.
    pub open spec fn spec_is_noisy(self) -> bool {
        self.spec_is_capture() || self.spec_promotion() is Some
    }

    pub fn is_capture(self) -> (r: bool)
        ensures
            r == self.spec_is_capture(),
    {
        match self {
            MoveFlag::Capture | MoveFlag::EnPassant | MoveFlag::CapturePromotion(_) => true,
            _ => false,
        }
    }

    pub fn promotion(self) -> (r: Option<Piece>)
        ensures
            r == self.spec_promotion(),
    {
        match self {
            MoveFlag::Promotion(p) | MoveFlag::CapturePromotion(p) => Some(p),
            _ => None,
        }
    }

    pub fn is_noisy(self) -> (r: bool)
        ensures
            r == self.spec_is_noisy(),
    {
        self.is_capture() || self.promotion().is_some()
    }

    pub fn is_en_passant(self) -> (r: bool)
        ensures
            r <==> self == MoveFlag::EnPassant,
    {
        match self {
            MoveFlag::EnPassant => true,
            _ => false,
        }
    }
}

/// A duck chess move: a piece goes from `src` to `dest`, then the duck is placed on `duck`.
#[derive(Clone, Copy, PartialEq, Eq, Structural, Debug)]
pub struct Move {
    pub src: Square,
    pub dest: Square,
    pub duck: Square,
    pub flag: MoveFlag,
}

impl Move {
    pub fn new(src: Square, dest: Square, duck: Square, flag: MoveFlag) -> (r: Move)
        ensures
            r == (Move { src, dest, duck, flag }),
    {
        Move { src, dest, duck, flag }
    }

    pub fn src(self) -> (r: Square)
        ensures
            r == self.src,
    {
        self.src
    }

    pub fn dest(self) -> (r: Square)
        ensures
            r == self.dest,
    {
        self.dest
    }

    pub fn duck(self) -> (r: Square)
        ensures
            r == self.duck,
    {
        self.duck
    }

    pub fn flag(self) -> (r: MoveFlag)
        ensures
            r == self.flag,
    {
        self.flag
    }
}

} // verus!
