//! Properties of the library that relate its functions to each other.
use vstd::prelude::*;
use crate::checker::{spec_is_legal, spec_is_legal_with_error, spec_status_partial};
use crate::checks::{drop_check_squares, drop_checks, spec_is_check_move};
use crate::model::{after_move, f_hand, f_king, f_occupied, f_piece, f_side, f_vacant};
use crate::normal::{
    lemma_on_ray_iff, lemma_ray_convex, lemma_reaches_symmetric, on_ray, ray_clear, ray_square,
    reach_set, reaches,
};
use crate::prelegality::{
    attacked, spec_in_check, spec_is_mate, spec_is_valid, spec_is_valid_with_error,
};
use crate::types::{
    PositionStatus,
    file_of, is_square_index, lemma_index_coords, lemma_square_index_coords, rank_of,
    square_index, Color, Move, Piece, PieceKind, Square,
};

verus! {

/// A piece reaches a square whatever stands on the square it starts from.
pub proof fn lemma_reaches_occupied_origin(occ: Set<int>, p: Piece, a: int, b: int)
    requires
        reaches(occ, p, a, b),
    ensures
        reaches(occ.insert(a), p, a, b),
{
    let occ2 = occ.insert(a);
    assert forall|sf: int, sr: int|
        -1 <= sf <= 1 && -1 <= sr <= 1 && (sf != 0 || sr != 0) && on_ray(occ, a, b, sf, sr) implies on_ray(
        occ2,
        a,
        b,
        sf,
        sr,
    ) by {
        lemma_on_ray_iff(occ, a, b, sf, sr);
        lemma_on_ray_iff(occ2, a, b, sf, sr);
        lemma_index_coords(a);
        let n = crate::normal::max(
            crate::normal::abs(crate::normal::dfile(a, b)),
            crate::normal::abs(crate::normal::drank(a, b)),
        );
        assert(crate::normal::ray_on_board(a, sf, sr, n)) by {
            lemma_index_coords(b);
        }
        assert forall|j: int| 1 <= j < n implies !occ2.contains(#[trigger] ray_square(a, sf, sr, j)) by {
            lemma_ray_convex(a, sf, sr, n, j);
            lemma_square_index_coords(
                file_of(a) + crate::normal::offset(j, sf),
                rank_of(a) + crate::normal::offset(j, sr),
            );
        }
    }
}

/// Every move that `all_checks_partial` lists can be made, and after it the
/// opponent is in check; a drop it lists puts the dropped piece itself where
/// it attacks the opponent's king.
pub proof fn lemma_check_moves_give_check(f: Map<int, int>, mv: Move)
    requires
        spec_is_check_move(f, mv),
    ensures
        after_move(f, mv) matches Some(g) && spec_in_check(g),
        mv is Drop ==> (after_move(f, mv) matches Some(g) && reaches(
            f_occupied(g),
            mv->piece,
            mv->Drop_to.index as int,
            f_king(f, f_side(f).spec_flip()),
        )),
{
    match mv {
        Move::Normal { .. } => {},
        Move::Drop { piece, to } => {
            let side = f_side(f);
            let k = f_king(f, side.spec_flip());
            let ti = to.index as int;
            lemma_index_coords(k);
            if piece.kind == PieceKind::Pawn {
                let c = square_index(
                    file_of(k),
                    if side == Color::Black {
                        rank_of(k) + 1
                    } else {
                        rank_of(k) - 1
                    },
                );
                lemma_square_index_coords(
                    file_of(k),
                    if side == Color::Black {
                        rank_of(k) + 1
                    } else {
                        rank_of(k) - 1
                    },
                );
                assert(ti == c);
                assert(Square { index: c as u8 } == to);
            } else {
                assert(f_vacant(f).contains(ti));
                assert(reach_set(f_occupied(f), Piece { kind: piece.kind, color: side.spec_flip() }, k).contains(ti));
                lemma_reaches_symmetric(
                    f_occupied(f),
                    Piece { kind: piece.kind, color: side.spec_flip() },
                    k,
                    ti,
                );
                assert(Piece { kind: piece.kind, color: side.spec_flip().spec_flip() } == piece);
                lemma_reaches_occupied_origin(f_occupied(f), piece, ti, k);
            }
            let g = after_move(f, mv).unwrap();
            assert(f_occupied(g) =~= f_occupied(f).insert(ti));
            assert(f_piece(g, ti) == Some(piece));
            assert(reaches(f_occupied(g), piece, ti, k));
            assert(attacked(g, side, k));
        },
    }
}

/// `is_valid_with_error` accepts exactly the moves that `is_valid` accepts.
pub proof fn lemma_valid_error_agrees(f: Map<int, int>, mv: Move)
    ensures
        spec_is_valid_with_error(f, mv) is Ok == spec_is_valid(f, mv),
{
}

/// `is_legal_partial` accepts exactly the moves that `is_legal_partial_lite`
/// accepts.
pub proof fn lemma_legal_error_agrees(f: Map<int, int>, mv: Move)
    ensures
        spec_is_legal_with_error(f, mv) is Ok == spec_is_legal(f, mv),
{
    lemma_valid_error_agrees(f, mv);
}

/// The drops that `all_checks_partial` lists are valid moves.
pub proof fn lemma_check_drops_valid(f: Map<int, int>, mv: Move)
    requires
        spec_is_check_move(f, mv),
        mv is Drop,
    ensures
        spec_is_valid(f, mv),
{
    let piece = mv->piece;
    let to = mv->Drop_to;
    let side = f_side(f);
    let k = f_king(f, side.spec_flip());
    let ti = to.index as int;
    if piece.kind == PieceKind::Pawn {
        lemma_index_coords(k);
        let r = if side == Color::Black {
            rank_of(k) + 1
        } else {
            rank_of(k) - 1
        };
        lemma_square_index_coords(file_of(k), r);
        assert(Square { index: square_index(file_of(k), r) as u8 } == to);
    } else {
        let q = Piece { kind: piece.kind, color: side.spec_flip() };
        assert(reach_set(f_occupied(f), q, k).contains(ti));
        lemma_reaches_symmetric(f_occupied(f), q, k, ti);
        assert(Piece { kind: piece.kind, color: side.spec_flip().spec_flip() } == piece);
        if piece.kind == PieceKind::Lance || piece.kind == PieceKind::Knight {
            crate::prelegality::lemma_forward_mover_ranks(f_occupied(f), q, k, ti);
            lemma_index_coords(k);
            lemma_index_coords(ti);
            if piece.kind == PieceKind::Lance {
                lemma_on_ray_iff(f_occupied(f), ti, k, 0, crate::normal::forward(side));
            }
        }
    }
}

/// A move that `is_legal_partial` accepts can be made.
pub proof fn lemma_accepted_moves_can_be_made(f: Map<int, int>, mv: Move)
    requires
        spec_is_legal_with_error(f, mv) is Ok || spec_is_legal(f, mv),
    ensures
        after_move(f, mv) is Some,
{
}

/// A player whose king is mated has no legal move.
pub proof fn lemma_mated_has_no_legal_move(f: Map<int, int>)
    requires
        spec_is_mate(f) == Some(true),
    ensures
        forall|mv: Move| !#[trigger] spec_is_legal(f, mv),
{
    crate::prelegality::lemma_is_mate_forall(f);
    assert forall|mv: Move| !#[trigger] spec_is_legal(f, mv) by {
        if spec_is_legal(f, mv) {
            assert(crate::prelegality::fails_to_escape(f, mv));
        }
    }
}

/// In a position that `status_partial` reports as won, no move is legal.
pub proof fn lemma_won_position_has_no_legal_move(f: Map<int, int>)
    requires
        spec_status_partial(f) == PositionStatus::BlackWins || spec_status_partial(f)
            == PositionStatus::WhiteWins,
    ensures
        forall|mv: Move| !#[trigger] spec_is_legal(f, mv),
{
    lemma_mated_has_no_legal_move(f);
}

/// `status_partial` never reports a draw: that takes the moves of a game.
pub proof fn lemma_status_partial_never_draw(f: Map<int, int>)
    ensures
        spec_status_partial(f) != PositionStatus::Draw,
{
}

/// The squares that `all_drop_checks_partial` finds for a kind are those of the
/// drops of that kind that `all_checks_partial` lists.
pub proof fn lemma_drop_checks_agree(f: Map<int, int>, kind: PieceKind, to: Square)
    requires
        kind.is_hand_kind(),
        to.wf(),
        f_hand(f, f_side(f), kind) >= 0,
    ensures
        drop_checks(f, kind).contains(to.index as int) <==> spec_is_check_move(
            f,
            Move::Drop { piece: Piece { kind, color: f_side(f) }, to },
        ),
{
}

/// A piece that reaches a square still reaches it when fewer squares are
/// occupied.
pub proof fn lemma_reaches_fewer_occupied(occ: Set<int>, occ2: Set<int>, p: Piece, a: int, b: int)
    requires
        occ.subset_of(occ2),
        reaches(occ2, p, a, b),
    ensures
        reaches(occ, p, a, b),
{
    assert forall|sf: int, sr: int| #[trigger] on_ray(occ2, a, b, sf, sr) implies on_ray(
        occ,
        a,
        b,
        sf,
        sr,
    ) by {
        let n = choose|n: int|
            1 <= n && crate::normal::ray_on_board(a, sf, sr, n) && #[trigger] ray_square(a, sf, sr, n)
                == b && ray_clear(occ2, a, sf, sr, n);
        assert(ray_clear(occ, a, sf, sr, n));
    }
}

/// Every drop of a piece in hand that is valid and after which the dropped
/// piece itself attacks the opponent's king is a checking move: it is listed
/// by `all_checks_partial`, and its square is among those that
/// `all_drop_checks_partial` finds for its kind.
pub proof fn lemma_attacking_drops_are_listed(f: Map<int, int>, mv: Move)
    requires
        mv is Drop,
        spec_is_valid(f, mv),
        f_king(f, f_side(f).spec_flip()) != 0,
        after_move(f, mv) matches Some(g) && reaches(
            f_occupied(g),
            mv->piece,
            mv->Drop_to.index as int,
            f_king(f, f_side(f).spec_flip()),
        ),
    ensures
        spec_is_check_move(f, mv),
        drop_checks(f, mv->piece.kind).contains(mv->Drop_to.index as int),
{
    let piece = mv->piece;
    let to = mv->Drop_to;
    let side = f_side(f);
    let k = f_king(f, side.spec_flip());
    let ti = to.index as int;
    let g = after_move(f, mv).unwrap();
    assert(piece.color == side);
    assert(f_piece(f, ti).is_none());
    assert(f_occupied(g) =~= f_occupied(f).insert(ti));
    if piece.kind == PieceKind::Pawn {
        lemma_index_coords(k);
        lemma_index_coords(ti);
        let r = if side == Color::Black {
            rank_of(k) + 1
        } else {
            rank_of(k) - 1
        };
        assert(file_of(ti) == file_of(k));
        assert(rank_of(ti) == r);
        lemma_square_index_coords(file_of(k), r);
        assert(square_index(file_of(k), r) == ti);
        assert(Square { index: square_index(file_of(k), r) as u8 } == to);
        assert(Piece { kind: PieceKind::Pawn, color: side } == piece);
    } else {
        lemma_reaches_fewer_occupied(f_occupied(f), f_occupied(g), piece, ti, k);
        lemma_reaches_symmetric(f_occupied(f), piece, ti, k);
        assert(Piece { kind: piece.kind, color: piece.color.spec_flip() } == Piece {
            kind: piece.kind,
            color: side.spec_flip(),
        });
        assert(reach_set(f_occupied(f), Piece { kind: piece.kind, color: side.spec_flip() }, k).contains(
            ti,
        ));
        assert(f_vacant(f).contains(ti));
    }
}

/// Every legal move of a piece on the board after which the opponent, whose
/// king is recorded, is in check is listed by `all_checks_partial`.
pub proof fn lemma_checking_normal_moves_are_listed(f: Map<int, int>, mv: Move)
    requires
        mv is Normal,
        spec_is_legal(f, mv),
        f_king(f, f_side(f).spec_flip()) != 0,
        after_move(f, mv) matches Some(g) && spec_in_check(g),
    ensures
        spec_is_check_move(f, mv),
{
}

} // verus!
