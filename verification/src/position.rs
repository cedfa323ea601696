//! Positions, held in `shogi_core::PartialPosition`.
//!
//! A position is a collection: pieces on squares, pieces in hand, the player to
//! move, the ply and the recorded king squares. `position_fields` names what it
//! holds, laid out as `crate::model` describes. Each method of
//! `PartialPosition` that the library calls is a wrapper whose contract states,
//! over that name, what the method reads or does.
use vstd::prelude::*;
use shogi_core::{Bitboard, PartialPosition};
use crate::bitboard::{bitboard_squares, bb_wf};
use crate::model::{
    after_move, f_hand, f_kind_squares, f_occupied, f_piece_squares, f_player_squares,
    f_vacant,
};
use crate::types::{is_piece_code, Color, Move, Piece, PieceKind, Square};

verus! {

#[verifier::external_type_specification]
#[verifier::external_body]
pub struct ExPartialPosition(shogi_core::PartialPosition);

/// What a `shogi_core::PartialPosition` holds, as `crate::model` lays it out.
pub uninterp spec fn position_fields(p: PartialPosition) -> Map<int, int>;

/// `PartialPosition::piece_at`: the code of the piece on `square`, 0 when the
/// square is vacant (the byte that `shogi_core` stores for the square).
#[verifier::external_body]
pub(crate) fn piece_code_at(position: &PartialPosition, square: Square) -> (code: u8)
    requires
        square.wf(),
    ensures
        code as int == position_fields(*position)[square.index - 1],
        code == 0 || is_piece_code(code as int),
{
    match position.piece_at(shogi_core::Square::from_u8(square.index).unwrap()) {
        Some(piece) => piece.as_u8(),
        None => 0,
    }
}

/// `PartialPosition::hand`: how many pieces like `piece` its owner holds in
/// hand, `None` when `piece` cannot be held in hand. (The enums of this crate
/// list their variants in `shogi_core`'s order, so `as usize` gives the index
/// of the same variant in `shogi_core`'s `all()` arrays.)
#[verifier::external_body]
pub(crate) fn hand_count(position: &PartialPosition, piece: Piece) -> (r: Option<u8>)
    ensures
        r.is_some() == piece.kind.is_hand_kind(),
        r matches Some(n) ==> n == f_hand(position_fields(*position), piece.color, piece.kind),
{
    position.hand(
        shogi_core::Piece::new(
            shogi_core::PieceKind::all()[piece.kind as usize],
            shogi_core::Color::all()[piece.color as usize],
        ),
    )
}

/// `PartialPosition::side_to_move`.
#[verifier::external_body]
pub(crate) fn side_to_move(position: &PartialPosition) -> (c: Color)
    ensures
        c.code() == position_fields(*position)[95],
{
    match position.side_to_move() {
        shogi_core::Color::Black => Color::Black,
        shogi_core::Color::White => Color::White,
    }
}

/// `PartialPosition::side_to_move_set`.
#[verifier::external_body]
pub(crate) fn side_to_move_set(position: &mut PartialPosition, side: Color)
    ensures
        position_fields(*final(position)) == position_fields(*old(position)).insert(
            95,
            side.code(),
        ),
{
    position.side_to_move_set(shogi_core::Color::all()[side as usize])
}

/// `PartialPosition::king_position`: the square recorded for `color`'s king.
#[verifier::external_body]
pub(crate) fn king_position(position: &PartialPosition, color: Color) -> (r: Option<Square>)
    ensures
        r is None <==> position_fields(*position)[96 + color.code()] == 0,
        r matches Some(s) ==> s.wf() && s.index == position_fields(*position)[96 + color.code()],
{
    match position.king_position(shogi_core::Color::all()[color as usize]) {
        Some(s) => Some(Square { index: s.index() }),
        None => None,
    }
}

/// `PartialPosition::clone`.
#[verifier::external_body]
pub(crate) fn clone_position(position: &PartialPosition) -> (c: PartialPosition)
    ensures
        position_fields(c) == position_fields(*position),
{
    position.clone()
}

/// `PartialPosition::make_move`: makes the move when it makes sense (a piece of
/// the player to move goes to another square, or a piece in hand is dropped on
/// a vacant square) and reports whether it did; otherwise the position stays.
#[verifier::external_body]
pub(crate) fn make_move(position: &mut PartialPosition, mv: Move) -> (ok: bool)
    requires
        mv.wf(),
    ensures
        ok == after_move(position_fields(*old(position)), mv).is_some(),
        ok ==> position_fields(*final(position)) == after_move(
            position_fields(*old(position)),
            mv,
        ).unwrap(),
        !ok ==> position_fields(*final(position)) == position_fields(*old(position)),
{
    let sq = |s: Square| shogi_core::Square::from_u8(s.index).unwrap();
    let m = match mv {
        Move::Normal { from, to, promote } => shogi_core::Move::Normal { from: sq(from), to: sq(to), promote },
        Move::Drop { piece, to } => shogi_core::Move::Drop {
            piece: shogi_core::Piece::new(
                shogi_core::PieceKind::all()[piece.kind as usize],
                shogi_core::Color::all()[piece.color as usize],
            ),
            to: sq(to),
        },
    };
    position.make_move(m).is_some()
}

/// `PartialPosition::player_bitboard`: the squares holding `color`'s pieces.
#[verifier::external_body]
pub(crate) fn player_bitboard(position: &PartialPosition, color: Color) -> (b: Bitboard)
    ensures
        bitboard_squares(b) == f_player_squares(position_fields(*position), color),
        bb_wf(b),
{
    position.player_bitboard(shogi_core::Color::all()[color as usize])
}

/// `PartialPosition::piece_bitboard`: the squares holding `piece`.
#[verifier::external_body]
pub(crate) fn piece_bitboard(position: &PartialPosition, piece: Piece) -> (b: Bitboard)
    ensures
        bitboard_squares(b) == f_piece_squares(position_fields(*position), piece),
        bb_wf(b),
{
    position.piece_bitboard(
        shogi_core::Piece::new(
            shogi_core::PieceKind::all()[piece.kind as usize],
            shogi_core::Color::all()[piece.color as usize],
        ),
    )
}

/// `PartialPosition::piece_kind_bitboard`: the squares holding a piece of `kind`.
#[verifier::external_body]
pub(crate) fn piece_kind_bitboard(position: &PartialPosition, kind: PieceKind) -> (b: Bitboard)
    ensures
        bitboard_squares(b) == f_kind_squares(position_fields(*position), kind),
        bb_wf(b),
{
    position.piece_kind_bitboard(shogi_core::PieceKind::all()[kind as usize])
}

/// `PartialPosition::vacant_bitboard`: the vacant squares.
#[verifier::external_body]
pub(crate) fn vacant_bitboard(position: &PartialPosition) -> (b: Bitboard)
    ensures
        bitboard_squares(b) == f_vacant(position_fields(*position)),
        bb_wf(b),
{
    position.vacant_bitboard()
}

/// `PartialPosition::occupied_bitboard`: the occupied squares.
#[verifier::external_body]
pub(crate) fn occupied_bitboard(position: &PartialPosition) -> (b: Bitboard)
    ensures
        bitboard_squares(b) == f_occupied(position_fields(*position)),
        bb_wf(b),
{
    position.occupied_bitboard()
}

} // verus!
