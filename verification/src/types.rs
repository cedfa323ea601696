//! The library's own value types: colors, piece kinds, pieces, squares and moves.
//!
//! Their numeric codes follow the encoding of `shogi_core`, so that the
//! contents of a `shogi_core::PartialPosition` can be read as plain integers.
use vstd::prelude::*;

verus! {

/// A player. Black moves first and moves towards rank 1.
#[derive(Clone, Copy, PartialEq, Eq, Debug, Structural)]
pub enum Color {
    Black,
    White,
}

impl Color {
    /// The numeric code of a color (1 for Black, 2 for White).
    pub open spec fn code(self) -> int {
        match self {
            Color::Black => 1,
            Color::White => 2,
        }
    }

    pub open spec fn spec_flip(self) -> Color {
        match self {
            Color::Black => Color::White,
            Color::White => Color::Black,
        }
    }

    /// The other player.
    #[verifier::when_used_as_spec(spec_flip)]
    pub fn flip(self) -> (c: Color)
        ensures
            c == self.spec_flip(),
    {
        match self {
            Color::Black => Color::White,
            Color::White => Color::Black,
        }
    }

    /// 0 for Black, 1 for White.
    pub fn array_index(self) -> (i: usize)
        ensures
            i == self.code() - 1,
    {
        match self {
            Color::Black => 0,
            Color::White => 1,
        }
    }
}

/// The color with the given code, if the code is 1 or 2.
pub open spec fn color_from_code(c: int) -> Color {
    if c == 2 {
        Color::White
    } else {
        Color::Black
    }
}

/// A kind of piece, in the order of `shogi_core`.
#[derive(Clone, Copy, PartialEq, Eq, Debug, Structural)]
pub enum PieceKind {
    Pawn,
    Lance,
    Knight,
    Silver,
    Gold,
    Bishop,
    Rook,
    King,
    ProPawn,
    ProLance,
    ProKnight,
    ProSilver,
    ProBishop,
    ProRook,
}

/// The piece kind with the given code (1 to 14).
pub open spec fn kind_from_code(c: int) -> Option<PieceKind> {
    if c == 1 {
        Some(PieceKind::Pawn)
    } else if c == 2 {
        Some(PieceKind::Lance)
    } else if c == 3 {
        Some(PieceKind::Knight)
    } else if c == 4 {
        Some(PieceKind::Silver)
    } else if c == 5 {
        Some(PieceKind::Gold)
    } else if c == 6 {
        Some(PieceKind::Bishop)
    } else if c == 7 {
        Some(PieceKind::Rook)
    } else if c == 8 {
        Some(PieceKind::King)
    } else if c == 9 {
        Some(PieceKind::ProPawn)
    } else if c == 10 {
        Some(PieceKind::ProLance)
    } else if c == 11 {
        Some(PieceKind::ProKnight)
    } else if c == 12 {
        Some(PieceKind::ProSilver)
    } else if c == 13 {
        Some(PieceKind::ProBishop)
    } else if c == 14 {
        Some(PieceKind::ProRook)
    } else {
        None
    }
}

impl PieceKind {
    /// The numeric code of a piece kind (1 for Pawn up to 14 for ProRook).
    pub open spec fn code(self) -> int {
        match self {
            PieceKind::Pawn => 1,
            PieceKind::Lance => 2,
            PieceKind::Knight => 3,
            PieceKind::Silver => 4,
            PieceKind::Gold => 5,
            PieceKind::Bishop => 6,
            PieceKind::Rook => 7,
            PieceKind::King => 8,
            PieceKind::ProPawn => 9,
            PieceKind::ProLance => 10,
            PieceKind::ProKnight => 11,
            PieceKind::ProSilver => 12,
            PieceKind::ProBishop => 13,
            PieceKind::ProRook => 14,
        }
    }

    /// The code as a machine integer.
    pub fn to_code(self) -> (c: u8)
        ensures
            c == self.code(),
    {
        match self {
            PieceKind::Pawn => 1,
            PieceKind::Lance => 2,
            PieceKind::Knight => 3,
            PieceKind::Silver => 4,
            PieceKind::Gold => 5,
            PieceKind::Bishop => 6,
            PieceKind::Rook => 7,
            PieceKind::King => 8,
            PieceKind::ProPawn => 9,
            PieceKind::ProLance => 10,
            PieceKind::ProKnight => 11,
            PieceKind::ProSilver => 12,
            PieceKind::ProBishop => 13,
            PieceKind::ProRook => 14,
        }
    }

    /// The piece kind with the given code.
    pub fn from_code(c: u8) -> (k: Option<PieceKind>)
        ensures
            k == kind_from_code(c as int),
    {
        if c == 1 {
            Some(PieceKind::Pawn)
        } else if c == 2 {
            Some(PieceKind::Lance)
        } else if c == 3 {
            Some(PieceKind::Knight)
        } else if c == 4 {
            Some(PieceKind::Silver)
        } else if c == 5 {
            Some(PieceKind::Gold)
        } else if c == 6 {
            Some(PieceKind::Bishop)
        } else if c == 7 {
            Some(PieceKind::Rook)
        } else if c == 8 {
            Some(PieceKind::King)
        } else if c == 9 {
            Some(PieceKind::ProPawn)
        } else if c == 10 {
            Some(PieceKind::ProLance)
        } else if c == 11 {
            Some(PieceKind::ProKnight)
        } else if c == 12 {
            Some(PieceKind::ProSilver)
        } else if c == 13 {
            Some(PieceKind::ProBishop)
        } else if c == 14 {
            Some(PieceKind::ProRook)
        } else {
            None
        }
    }

    pub open spec fn spec_promote(self) -> Option<PieceKind> {
        match self {
            PieceKind::Pawn => Some(PieceKind::ProPawn),
            PieceKind::Lance => Some(PieceKind::ProLance),
            PieceKind::Knight => Some(PieceKind::ProKnight),
            PieceKind::Silver => Some(PieceKind::ProSilver),
            PieceKind::Bishop => Some(PieceKind::ProBishop),
            PieceKind::Rook => Some(PieceKind::ProRook),
            _ => None,
        }
    }

    /// The promoted kind, if this kind can promote.
    #[verifier::when_used_as_spec(spec_promote)]
    pub fn promote(self) -> (k: Option<PieceKind>)
        ensures
            k == self.spec_promote(),
    {
        match self {
            PieceKind::Pawn => Some(PieceKind::ProPawn),
            PieceKind::Lance => Some(PieceKind::ProLance),
            PieceKind::Knight => Some(PieceKind::ProKnight),
            PieceKind::Silver => Some(PieceKind::ProSilver),
            PieceKind::Bishop => Some(PieceKind::ProBishop),
            PieceKind::Rook => Some(PieceKind::ProRook),
            _ => None,
        }
    }

    pub open spec fn spec_unpromote(self) -> Option<PieceKind> {
        match self {
            PieceKind::ProPawn => Some(PieceKind::Pawn),
            PieceKind::ProLance => Some(PieceKind::Lance),
            PieceKind::ProKnight => Some(PieceKind::Knight),
            PieceKind::ProSilver => Some(PieceKind::Silver),
            PieceKind::ProBishop => Some(PieceKind::Bishop),
            PieceKind::ProRook => Some(PieceKind::Rook),
            _ => None,
        }
    }

    /// The unpromoted kind, if this kind is a promoted one.
    #[verifier::when_used_as_spec(spec_unpromote)]
    pub fn unpromote(self) -> (k: Option<PieceKind>)
        ensures
            k == self.spec_unpromote(),
    {
        match self {
            PieceKind::ProPawn => Some(PieceKind::Pawn),
            PieceKind::ProLance => Some(PieceKind::Lance),
            PieceKind::ProKnight => Some(PieceKind::Knight),
            PieceKind::ProSilver => Some(PieceKind::Silver),
            PieceKind::ProBishop => Some(PieceKind::Bishop),
            PieceKind::ProRook => Some(PieceKind::Rook),
            _ => None,
        }
    }

    /// Kinds that can be held in hand: Pawn to Rook.
    pub open spec fn is_hand_kind(self) -> bool {
        self.code() <= 7
    }

    /// Kinds that move like a gold general.
    pub open spec fn moves_like_gold(self) -> bool {
        match self {
            PieceKind::Gold | PieceKind::ProPawn | PieceKind::ProLance | PieceKind::ProKnight
            | PieceKind::ProSilver => true,
            _ => false,
        }
    }

    /// The kind that a captured piece of this kind becomes in hand.
    pub open spec fn captured_kind(self) -> PieceKind {
        match self.spec_unpromote() {
            Some(k) => k,
            None => self,
        }
    }
}

/// A piece: a kind and the player who owns it.
#[derive(Clone, Copy, PartialEq, Eq, Debug, Structural)]
pub struct Piece {
    pub kind: PieceKind,
    pub color: Color,
}

/// Whether `c` is the code of a piece (1 to 14 for Black, 17 to 30 for White).
pub open spec fn is_piece_code(c: int) -> bool {
    (1 <= c <= 14) || (17 <= c <= 30)
}

/// The piece with the given code, if it is one.
pub open spec fn piece_from_code(c: int) -> Option<Piece> {
    if 1 <= c <= 14 {
        Some(Piece { kind: kind_from_code(c).unwrap(), color: Color::Black })
    } else if 17 <= c <= 30 {
        Some(Piece { kind: kind_from_code(c - 16).unwrap(), color: Color::White })
    } else {
        None
    }
}

impl Piece {
    /// The numeric code of a piece, as `shogi_core` stores it.
    pub open spec fn code(self) -> int {
        self.kind.code() + if self.color == Color::White {
            16int
        } else {
            0int
        }
    }

    /// Makes a piece.
    pub fn new(kind: PieceKind, color: Color) -> (p: Piece)
        ensures
            p.kind == kind,
            p.color == color,
    {
        Piece { kind, color }
    }

    /// The kind of this piece.
    pub fn piece_kind(self) -> (k: PieceKind)
        ensures
            k == self.kind,
    {
        self.kind
    }

    /// The owner of this piece.
    pub fn color(self) -> (c: Color)
        ensures
            c == self.color,
    {
        self.color
    }

    pub open spec fn spec_promote(self) -> Option<Piece> {
        match self.kind.spec_promote() {
            Some(k) => Some(Piece { kind: k, color: self.color }),
            None => None,
        }
    }

    /// The promoted piece, if this piece can promote.
    #[verifier::when_used_as_spec(spec_promote)]
    pub fn promote(self) -> (p: Option<Piece>)
        ensures
            p == self.spec_promote(),
    {
        match self.kind.promote() {
            Some(k) => Some(Piece { kind: k, color: self.color }),
            None => None,
        }
    }

    /// The code as a machine integer.
    pub fn to_code(self) -> (c: u8)
        ensures
            c == self.code(),
    {
        let k = self.kind.to_code();
        match self.color {
            Color::Black => k,
            Color::White => k + 16,
        }
    }

    /// The piece with the given code.
    pub fn from_code(c: u8) -> (p: Option<Piece>)
        ensures
            p == piece_from_code(c as int),
    {
        if 1 <= c && c <= 14 {
            let k = PieceKind::from_code(c);
            Some(Piece { kind: k.unwrap(), color: Color::Black })
        } else if 17 <= c && c <= 30 {
            let k = PieceKind::from_code(c - 16);
            Some(Piece { kind: k.unwrap(), color: Color::White })
        } else {
            None
        }
    }
}

/// Encoding a piece and decoding the code gives the piece back.
pub proof fn lemma_piece_code_roundtrip(p: Piece)
    ensures
        piece_from_code(p.code()) == Some(p),
        is_piece_code(p.code()),
{
}

/// A square of the board, stored as `shogi_core` does: `file * 9 + rank - 9`,
/// from 1 (file 1, rank 1) to 81 (file 9, rank 9).
#[derive(Clone, Copy, PartialEq, Eq, Debug, Structural)]
pub struct Square {
    pub index: u8,
}

/// The index of the square on `file` and `rank`.
pub open spec fn square_index(file: int, rank: int) -> int {
    file * 9 + rank - 9
}

/// Whether a file and a rank lie on the board.
pub open spec fn on_board(file: int, rank: int) -> bool {
    1 <= file <= 9 && 1 <= rank <= 9
}

/// The file of the square with index `i`.
pub open spec fn file_of(i: int) -> int {
    (i - 1) / 9 + 1
}

/// The rank of the square with index `i`.
pub open spec fn rank_of(i: int) -> int {
    (i - 1) % 9 + 1
}

/// Whether `i` is the index of a square.
pub open spec fn is_square_index(i: int) -> bool {
    1 <= i <= 81
}

/// The rank of a square as a player sees it: Black's first rank is rank 1,
/// White's is rank 9.
pub open spec fn relative_rank_of(i: int, c: Color) -> int {
    match c {
        Color::Black => rank_of(i),
        Color::White => 10 - rank_of(i),
    }
}

pub proof fn lemma_square_index_coords(file: int, rank: int)
    requires
        on_board(file, rank),
    ensures
        is_square_index(square_index(file, rank)),
        file_of(square_index(file, rank)) == file,
        rank_of(square_index(file, rank)) == rank,
{
    let i = square_index(file, rank);
    assert(i - 1 == (file - 1) * 9 + (rank - 1));
    vstd::arithmetic::div_mod::lemma_fundamental_div_mod_converse(
        i - 1,
        9,
        file - 1,
        rank - 1,
    );
}

pub proof fn lemma_index_coords(i: int)
    requires
        is_square_index(i),
    ensures
        on_board(file_of(i), rank_of(i)),
        square_index(file_of(i), rank_of(i)) == i,
{
    vstd::arithmetic::div_mod::lemma_fundamental_div_mod(i - 1, 9);
}

impl Square {
    /// Whether this is one of the 81 squares.
    pub open spec fn wf(self) -> bool {
        is_square_index(self.index as int)
    }

    pub open spec fn spec_file(self) -> int {
        file_of(self.index as int)
    }

    pub open spec fn spec_rank(self) -> int {
        rank_of(self.index as int)
    }

    /// The square on `file` and `rank`, if both are in 1 to 9.
    pub fn new(file: u8, rank: u8) -> (s: Option<Square>)
        ensures
            s.is_some() <==> on_board(file as int, rank as int),
            s matches Some(sq) ==> sq.index == square_index(file as int, rank as int) && sq.wf()
                && sq.spec_file() == file && sq.spec_rank() == rank,
    {
        if 1 <= file && file <= 9 && 1 <= rank && rank <= 9 {
            proof {
                lemma_square_index_coords(file as int, rank as int);
            }
            Some(Square { index: file * 9 + rank - 9 })
        } else {
            None
        }
    }

    /// The square with the given index, if it is in 1 to 81.
    pub fn from_index(index: u8) -> (s: Option<Square>)
        ensures
            s.is_some() <==> is_square_index(index as int),
            s matches Some(sq) ==> sq.index == index,
    {
        if 1 <= index && index <= 81 {
            Some(Square { index })
        } else {
            None
        }
    }

    /// The index of this square, from 1 to 81.
    pub fn index(self) -> (i: u8)
        ensures
            i == self.index,
    {
        self.index
    }

    /// The file of this square, from 1 to 9.
    pub fn file(self) -> (f: u8)
        requires
            self.wf(),
        ensures
            f == self.spec_file(),
            1 <= f <= 9,
    {
        proof {
            lemma_index_coords(self.index as int);
        }
        (self.index - 1) / 9 + 1
    }

    /// The rank of this square, from 1 to 9.
    pub fn rank(self) -> (r: u8)
        requires
            self.wf(),
        ensures
            r == self.spec_rank(),
            1 <= r <= 9,
    {
        proof {
            lemma_index_coords(self.index as int);
        }
        (self.index - 1) % 9 + 1
    }

    /// The rank as `color` sees it.
    pub fn relative_rank(self, color: Color) -> (r: u8)
        requires
            self.wf(),
        ensures
            r == relative_rank_of(self.index as int, color),
            1 <= r <= 9,
    {
        let rank = self.rank();
        match color {
            Color::Black => rank,
            Color::White => 10 - rank,
        }
    }
}

/// A move: a piece moving on the board, or a piece dropped from hand.
#[derive(Clone, Copy, PartialEq, Eq, Debug, Structural)]
pub enum Move {
    Normal { from: Square, to: Square, promote: bool },
    Drop { piece: Piece, to: Square },
}

impl Move {
    /// Whether the squares of this move are squares of the board.
    pub open spec fn wf(self) -> bool {
        match self {
            Move::Normal { from, to, .. } => from.wf() && to.wf(),
            Move::Drop { to, .. } => to.wf(),
        }
    }

    pub open spec fn spec_is_drop(self) -> bool {
        self is Drop
    }

    /// Whether this move is a drop.
    #[verifier::when_used_as_spec(spec_is_drop)]
    pub fn is_drop(self) -> (b: bool)
        ensures
            b == self.spec_is_drop(),
    {
        match self {
            Move::Normal { .. } => false,
            Move::Drop { .. } => true,
        }
    }

    pub open spec fn spec_to(self) -> Square {
        match self {
            Move::Normal { to, .. } => to,
            Move::Drop { to, .. } => to,
        }
    }

    /// The destination square.
    #[verifier::when_used_as_spec(spec_to)]
    pub fn to(self) -> (s: Square)
        ensures
            s == self.spec_to(),
    {
        match self {
            Move::Normal { to, .. } => to,
            Move::Drop { to, .. } => to,
        }
    }
}

/// The state of a game as a position shows it.
#[derive(Clone, Copy, PartialEq, Eq, Debug, Structural)]
pub enum PositionStatus {
    BlackWins,
    WhiteWins,
    Draw,
    InProgress,
    Invalid,
}

/// Why a move is illegal.
#[derive(Clone, Copy, PartialEq, Eq, Debug, Structural)]
pub enum IllegalMoveKind {
    TwoPawns,
    IgnoredCheck,
    DropPawnMate,
    DropStuck,
    NormalStuck,
    GameFinished,
    IncorrectMove,
}

} // verus!
