//! The mathematical model of a position.
//!
//! A position is modelled by the integers that it holds, keyed by their place (see
//! `crate::position::position_fields`):
//! - entries 0 to 80: the code of the piece on square `i + 1` (0 when vacant),
//! - entries 81 to 94: the number of pieces in hand, Black's seven hand kinds
//!   (Pawn to Rook) first, then White's,
//! - entry 95: the code of the player to move,
//! - entry 96: the ply,
//! - entries 97 and 98: the index of the square recorded for Black's and
//!   White's king (0 when none is recorded).
use vstd::prelude::*;
use crate::types::{
    color_from_code, is_square_index, piece_from_code, Color, Move, Piece, PieceKind,
};

verus! {

/// The piece on the square with index `i`.
pub open spec fn f_piece(f: Map<int, int>, i: int) -> Option<Piece> {
    piece_from_code(f[i - 1])
}

/// Where the number of `k`s in `c`'s hand is kept.
pub open spec fn hand_slot(c: Color, k: PieceKind) -> int {
    81 + (c.code() - 1) * 7 + (k.code() - 1)
}

/// The number of `k`s in `c`'s hand.
pub open spec fn f_hand(f: Map<int, int>, c: Color, k: PieceKind) -> int {
    f[hand_slot(c, k)]
}

/// The player to move.
pub open spec fn f_side(f: Map<int, int>) -> Color {
    color_from_code(f[95])
}

/// The ply.
pub open spec fn f_ply(f: Map<int, int>) -> int {
    f[96]
}

/// Where the square recorded for `c`'s king is kept.
pub open spec fn king_slot(c: Color) -> int {
    96 + c.code()
}

/// The index of the square recorded for `c`'s king, 0 when there is none.
pub open spec fn f_king(f: Map<int, int>, c: Color) -> int {
    f[king_slot(c)]
}

/// The indices of the occupied squares.
pub open spec fn f_occupied(f: Map<int, int>) -> Set<int> {
    Set::new(|i: int| is_square_index(i) && f_piece(f, i).is_some())
}

/// The indices of the squares holding a piece of `c`.
pub open spec fn f_player_squares(f: Map<int, int>, c: Color) -> Set<int> {
    Set::new(|i: int| is_square_index(i) && (f_piece(f, i) matches Some(p) && p.color == c))
}

/// The indices of the squares holding `piece`.
pub open spec fn f_piece_squares(f: Map<int, int>, piece: Piece) -> Set<int> {
    Set::new(|i: int| is_square_index(i) && f_piece(f, i) == Some(piece))
}

/// The indices of the squares holding a piece of kind `k`.
pub open spec fn f_kind_squares(f: Map<int, int>, k: PieceKind) -> Set<int> {
    Set::new(|i: int| is_square_index(i) && (f_piece(f, i) matches Some(p) && p.kind == k))
}

/// The indices of the vacant squares.
pub open spec fn f_vacant(f: Map<int, int>) -> Set<int> {
    Set::new(|i: int| is_square_index(i) && f_piece(f, i).is_none())
}

/// `x + 1` in `u8` arithmetic that wraps around.
pub open spec fn wrapping_inc_u8(x: int) -> int {
    if x >= 255 {
        0
    } else {
        x + 1
    }
}

/// `x + 1` in `u16` arithmetic that wraps around.
pub open spec fn wrapping_inc_u16(x: int) -> int {
    if x >= 65535 {
        0
    } else {
        x + 1
    }
}

/// Places a piece (or nothing) on a square, and records the square of a king
/// placed there, as `PartialPosition::piece_set` does.
pub open spec fn set_square(f: Map<int, int>, i: int, piece: Option<Piece>) -> Map<int, int> {
    match piece {
        None => f.insert(i - 1, 0),
        Some(p) => {
            let g = f.insert(i - 1, p.code());
            if p.kind == PieceKind::King {
                g.insert(king_slot(p.color), i)
            } else {
                g
            }
        },
    }
}

/// Passes the turn to the other player and counts one more ply.
pub open spec fn pass_turn(f: Map<int, int>) -> Map<int, int> {
    f.insert(95, f_side(f).spec_flip().code()).insert(96, wrapping_inc_u16(f[96]))
}

/// What `PartialPosition::make_move` makes of a position: `None` when the
/// move makes no sense there (and the position is left as it was).
pub open spec fn after_move(f: Map<int, int>, mv: Move) -> Option<Map<int, int>> {
    match mv {
        Move::Normal { from, to, promote } => {
            let fi = from.index as int;
            let ti = to.index as int;
            match f_piece(f, fi) {
                None => None,
                Some(p) => {
                    if p.color != f_side(f) {
                        None
                    } else {
                        let target = if promote {
                            p.spec_promote()
                        } else {
                            Some(p)
                        };
                        match target {
                            None => None,
                            Some(t) => {
                                match f_piece(f, ti) {
                                    Some(enemy) => {
                                        let k = enemy.kind.captured_kind();
                                        if enemy.color == p.color || !k.is_hand_kind() {
                                            None
                                        } else {
                                            let slot = hand_slot(p.color, k);
                                            let g = f.insert(slot, wrapping_inc_u8(f[slot]));
                                            Some(
                                                pass_turn(
                                                    set_square(set_square(g, fi, None), ti, Some(t)),
                                                ),
                                            )
                                        }
                                    },
                                    None => Some(
                                        pass_turn(set_square(set_square(f, fi, None), ti, Some(t))),
                                    ),
                                }
                            },
                        }
                    }
                },
            }
        },
        Move::Drop { piece, to } => {
            let ti = to.index as int;
            if piece.color != f_side(f) || piece.kind.spec_unpromote().is_some()
                || f_piece(f, ti).is_some() || !piece.kind.is_hand_kind() || f_hand(
                f,
                piece.color,
                piece.kind,
            ) <= 0 {
                None
            } else {
                let slot = hand_slot(piece.color, piece.kind);
                let g = f.insert(slot, f[slot] - 1);
                Some(pass_turn(set_square(g, ti, Some(piece))))
            }
        },
    }
}

/// The total number of pawns in both hands; pawn drops lower it.
pub open spec fn hand_pawns(f: Map<int, int>) -> nat {
    let b = f_hand(f, Color::Black, PieceKind::Pawn);
    let w = f_hand(f, Color::White, PieceKind::Pawn);
    ((if b > 0 {
        b
    } else {
        0
    }) + (if w > 0 {
        w
    } else {
        0
    })) as nat
}

/// Whether `f` holds what a position can hold: a piece code or 0 on each
/// square, hand counts that fit in a byte, a player to move, and a ply that
/// fits in 16 bits.
pub open spec fn fields_valid(f: Map<int, int>) -> bool {
    &&& forall|i: int| 0 <= i < 81 ==> (#[trigger] f[i] == 0 || crate::types::is_piece_code(f[i]))
    &&& forall|i: int| 81 <= i < 95 ==> 0 <= #[trigger] f[i] < 256
    &&& (f[95] == 1 || f[95] == 2)
    &&& 0 <= f[96] < 65536
}

/// Whether two positions agree on their pieces, hands, player to move and ply.
pub open spec fn same_board_hands_side_ply(f: Map<int, int>, g: Map<int, int>) -> bool {
    forall|i: int| 0 <= i <= 96 ==> #[trigger] f[i] == g[i]
}

} // verus!
