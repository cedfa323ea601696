//! Moves that give check, and whether the player to move is in check.
use vstd::prelude::*;
use shogi_core::{Bitboard, PartialPosition};
use crate::bitboard::{
    bb_and, bb_empty, bb_pop, bb_single, bb_wf, bitboard_squares, lemma_bb_finite,
};
use crate::checker::{legal_and_checking, push_legal_normals, spec_is_legal};
use crate::model::{after_move, f_hand, f_king, f_occupied, f_piece, f_player_squares, f_side, f_vacant};
use crate::normal::{reach_set, reaches};
use crate::position::{
    clone_position, hand_count, king_position, occupied_bitboard, player_bitboard, position_fields,
    side_to_move, side_to_move_set, vacant_bitboard,
};
use crate::prelegality::{attacked, is_valid, spec_in_check, spec_is_valid, will_king_be_captured};
use crate::types::{
    file_of, is_square_index, lemma_index_coords, lemma_square_index_coords, rank_of,
    square_index, Color, Move, Piece, PieceKind, Square,
};

verus! {

/// The squares on which dropping a piece of kind `kind` puts the king on `k`
/// in check, as `all_drop_checks_partial` finds them: for a pawn, the square in
/// front of the king when the drop is valid there; for other kinds, the vacant
/// squares from which such a piece could move to `k`.
pub open spec fn drop_check_squares(f: Map<int, int>, kind: PieceKind, k: int) -> Set<int> {
    let side = f_side(f);
    if kind == PieceKind::Pawn {
        if (side == Color::Black && rank_of(k) == 9) || (side == Color::White && rank_of(k) == 1) {
            Set::empty()
        } else {
            let c = square_index(
                file_of(k),
                if side == Color::Black {
                    rank_of(k) + 1
                } else {
                    rank_of(k) - 1
                },
            );
            if spec_is_valid(
                f,
                Move::Drop {
                    piece: Piece { kind: PieceKind::Pawn, color: side },
                    to: Square { index: c as u8 },
                },
            ) {
                Set::empty().insert(c)
            } else {
                Set::empty()
            }
        }
    } else {
        f_vacant(f).intersect(
            reach_set(f_occupied(f), Piece { kind, color: side.spec_flip() }, k),
        )
    }
}

/// Whether `all_checks_partial` lists `mv`: the opponent has a recorded king,
/// and `mv` is a legal normal move after which the opponent is in check, or a
/// drop of a piece in hand on one of the squares of `drop_check_squares`. A
/// drop is listed only where the dropped piece itself attacks the king: a drop
/// elsewhere, while another piece already gives check, is not listed.
pub open spec fn spec_is_check_move(f: Map<int, int>, mv: Move) -> bool {
    let side = f_side(f);
    let k = f_king(f, side.spec_flip());
    &&& k != 0
    &&& match mv {
        Move::Normal { .. } => legal_and_checking(f, mv, true),
        Move::Drop { piece, to } => {
            &&& piece.color == side
            &&& piece.kind.is_hand_kind()
            &&& f_hand(f, side, piece.kind) > 0
            &&& to.wf()
            &&& drop_check_squares(f, piece.kind, k).contains(to.index as int)
        },
    }
}

/// Is the player to move in check?
pub fn is_in_check_partial_lite(position: &PartialPosition) -> (r: bool)
    ensures
        r == spec_in_check(position_fields(*position)),
{
    let ghost f = position_fields(*position);
    let mut next = clone_position(position);
    let side = side_to_move(&next);
    side_to_move_set(&mut next, side.flip());
    proof {
        let g = position_fields(next);
        crate::prelegality::lemma_attacked_same_board(f, g, side.spec_flip(), f_king(f, side));
    }
    matches!(will_king_be_captured(&next), Some(true))
}

/// The squares on which dropping a piece of kind `piece_kind` puts the king on
/// `king` in check. It does not look at whether such a piece is in hand.
fn all_drop_checks_partial_sub(position: &PartialPosition, piece_kind: PieceKind, king: Square) -> (b:
    Bitboard)
    requires
        king.wf(),
    ensures
        bb_wf(b),
        bitboard_squares(b) == drop_check_squares(
            position_fields(*position),
            piece_kind,
            king.index as int,
        ),
{
    let ghost f = position_fields(*position);
    let side = side_to_move(position);
    // Special handling for drop pawn mate
    if piece_kind == PieceKind::Pawn {
        let king_file = king.file();
        let king_rank = king.rank();
        let new_rank = match side {
            Color::Black => {
                if king_rank == 9 {
                    let e = bb_empty();
                    assert(bitboard_squares(e) =~= drop_check_squares(f, piece_kind, king.index as int));
                    return e;
                }
                king_rank + 1
            },
            Color::White => {
                if king_rank == 1 {
                    let e = bb_empty();
                    assert(bitboard_squares(e) =~= drop_check_squares(f, piece_kind, king.index as int));
                    return e;
                }
                king_rank - 1
            },
        };
        // There is at most one candidate square
        let candidate = Square::new(king_file, new_rank).unwrap();
        let mv = Move::Drop { piece: Piece { kind: PieceKind::Pawn, color: side }, to: candidate };
        // Is dropping a pawn there legal?
        if is_valid(position, mv) {
            let b = bb_single(candidate);
            assert(bitboard_squares(b) =~= drop_check_squares(f, piece_kind, king.index as int));
            return b;
        } else {
            let e = bb_empty();
            assert(bitboard_squares(e) =~= drop_check_squares(f, piece_kind, king.index as int));
            return e;
        }
    }
    let piece = Piece { kind: piece_kind, color: side.flip() };
    let in_range = crate::normal::from_candidates_without_assertion(
        occupied_bitboard(position),
        piece,
        king,
    );
    // If a drop move is stuck, it cannot be a check.
    let b = bb_and(vacant_bitboard(position), in_range);
    assert(bitboard_squares(b) =~= drop_check_squares(f, piece_kind, king.index as int));
    b
}

/// What `all_drop_checks_partial` finds: no square when no piece of kind
/// `kind` is in hand or the opponent has no recorded king, and otherwise the
/// squares of `drop_check_squares`.
pub open spec fn drop_checks(f: Map<int, int>, kind: PieceKind) -> Set<int> {
    let side = f_side(f);
    let k = f_king(f, side.spec_flip());
    if f_hand(f, side, kind) == 0 || k == 0 {
        Set::<int>::empty()
    } else {
        drop_check_squares(f, kind, k)
    }
}

/// The squares on which dropping a piece of kind `piece_kind` puts the
/// opponent's king in check: empty when no such piece is in hand or the
/// opponent has no recorded king.
pub fn all_drop_checks_partial(position: &PartialPosition, piece_kind: PieceKind) -> (b: Bitboard)
    requires
        piece_kind.is_hand_kind(),
    ensures
        bb_wf(b),
        bitboard_squares(b) == drop_checks(position_fields(*position), piece_kind),
{
    let side = side_to_move(position);
    let count = hand_count(position, Piece { kind: piece_kind, color: side }).unwrap();
    if count == 0 {
        return bb_empty();
    }
    let king = match king_position(position, side.flip()) {
        Some(x) => x,
        None => return bb_empty(),
    };
    all_drop_checks_partial_sub(position, piece_kind, king)
}

/// Appends to `result` the drops of `piece` on the squares of `targets`.
fn push_drops(piece: Piece, targets: Bitboard, result: &mut Vec<Move>)
    requires
        bb_wf(targets),
        old(result)@.no_duplicates(),
        forall|mv: Move| #[trigger] old(result)@.contains(mv) ==> !(mv is Drop && mv->piece == piece),
    ensures
        final(result)@.no_duplicates(),
        forall|mv: Move|
            #[trigger] final(result)@.contains(mv) <==> (old(result)@.contains(mv) || (mv is Drop
                && mv->piece == piece && mv->Drop_to.wf() && bitboard_squares(targets).contains(
                mv->Drop_to.index as int,
            ))),
{
    let ghost start = result@;
    let ghost all = bitboard_squares(targets);
    let mut rest = targets;
    loop
        invariant
            bb_wf(rest),
            bitboard_squares(rest).subset_of(all),
            all == bitboard_squares(targets),
            bb_wf(targets),
            result@.no_duplicates(),
            forall|mv: Move| #[trigger] start.contains(mv) ==> !(mv is Drop && mv->piece == piece),
            forall|mv: Move|
                #[trigger] result@.contains(mv) <==> (start.contains(mv) || (mv is Drop && mv->piece
                    == piece && mv->Drop_to.wf() && all.contains(mv->Drop_to.index as int)
                    && !bitboard_squares(rest).contains(mv->Drop_to.index as int))),
        ensures
            bitboard_squares(rest) == Set::<int>::empty(),
        decreases bitboard_squares(rest).len(),
    {
        proof {
            lemma_bb_finite(rest);
        }
        let to = match bb_pop(&mut rest) {
            Some(to) => to,
            None => break,
        };
        proof {
            lemma_bb_finite(rest);
        }
        let mv = Move::Drop { piece, to };
        proof {
            assert(!result@.contains(mv));
            crate::checker::lemma_push_no_duplicates(result@, mv);
        }
        result.push(mv);
        proof {
            assert forall|m: Move| #[trigger] result@.contains(m) <==> (start.contains(m) || (m is Drop
                && m->piece == piece && m->Drop_to.wf() && all.contains(m->Drop_to.index as int)
                && !bitboard_squares(rest).contains(m->Drop_to.index as int))) by {
                if m is Drop && m->piece == piece && m->Drop_to.index == to.index {
                    assert(m == mv);
                }
            }
        }
    }
}

/// All the moves that put the opponent's king in check (see
/// `spec_is_check_move`), each once. Empty when the opponent has no recorded king.
pub fn all_checks_partial(position: &PartialPosition) -> (result: Vec<Move>)
    ensures
        result@.no_duplicates(),
        forall|mv: Move| #[trigger] result@.contains(mv) <==> spec_is_check_move(position_fields(*position), mv),
{
    let ghost f = position_fields(*position);
    let side = side_to_move(position);
    let king = match king_position(position, side.flip()) {
        Some(x) => x,
        None => {
            let result = Vec::new();
            assert forall|mv: Move| #[trigger] result@.contains(mv) <==> spec_is_check_move(f, mv) by {}
            return result;
        },
    };
    let ghost k = king.index as int;
    let mut my_bb = player_bitboard(position, side);
    let ghost mine = bitboard_squares(my_bb);
    let mut result: Vec<Move> = Vec::new();
    loop
        invariant
            f == position_fields(*position),
            side.code() == f[95],
            k == f_king(f, side.spec_flip()),
            k != 0,
            mine == f_player_squares(f, side),
            bb_wf(my_bb),
            bitboard_squares(my_bb).subset_of(mine),
            result@.no_duplicates(),
            forall|mv: Move|
                #[trigger] result@.contains(mv) <==> (mv is Normal && mine.contains(
                    mv->from.index as int,
                ) && !bitboard_squares(my_bb).contains(mv->from.index as int) && legal_and_checking(
                    f,
                    mv,
                    true,
                )),
        ensures
            bitboard_squares(my_bb) == Set::<int>::empty(),
        decreases bitboard_squares(my_bb).len(),
    {
        proof {
            lemma_bb_finite(my_bb);
        }
        let from = match bb_pop(&mut my_bb) {
            Some(from) => from,
            None => break,
        };
        proof {
            lemma_bb_finite(my_bb);
        }
        let (c0, c1) = crate::prelegality::normal_from_candidates(position, from);
        push_legal_normals(position, from, c0, false, true, &mut result);
        push_legal_normals(position, from, c1, true, true, &mut result);
        proof {
            assert forall|mv: Move| #[trigger] result@.contains(mv) <==> (mv is Normal
                && mine.contains(mv->from.index as int) && !bitboard_squares(my_bb).contains(
                mv->from.index as int,
            ) && legal_and_checking(f, mv, true)) by {
                if mv is Normal && mv->from.index == from.index {
                    assert(mv->from == from);
                    let t = mv->Normal_to;
                    assert(Square { index: t.index as u8 } == t);
                }
            }
        }
    }
    let mut kc: u8 = 1;
    while kc <= 7
        invariant
            1 <= kc <= 8,
            f == position_fields(*position),
            side.code() == f[95],
            king.wf(),
            k == king.index,
            k == f_king(f, side.spec_flip()),
            k != 0,
            result@.no_duplicates(),
            forall|mv: Move|
                #[trigger] result@.contains(mv) <==> (spec_is_check_move(f, mv) && (mv is Normal || (
                mv is Drop && mv->piece.kind.code() < kc))),
        decreases 8 - kc,
    {
        let kind = PieceKind::from_code(kc).unwrap();
        let piece = Piece { kind, color: side };
        let count = hand_count(position, piece).unwrap();
        if count != 0 {
            let bb = all_drop_checks_partial_sub(position, kind, king);
            push_drops(piece, bb, &mut result);
        }
        proof {
            assert forall|mv: Move| #[trigger] result@.contains(mv) <==> (spec_is_check_move(f, mv) && (
            mv is Normal || (mv is Drop && mv->piece.kind.code() < kc + 1))) by {
                if mv is Drop && mv->piece.kind.code() == kc && spec_is_check_move(f, mv) {
                    assert(mv->piece == piece);
                }
            }
        }
        kc = kc + 1;
    }
    result
}

} // verus!
