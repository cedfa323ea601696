//! Validity of moves without regard to the safety of the mover's king, mates,
//! and whether a king can be captured.
use vstd::prelude::*;
use shogi_core::{Bitboard, PartialPosition};
use crate::bitboard::{
    all_squares, bb_and, bb_andnot, bb_contains, bb_empty, bb_is_empty, bb_not, bb_or, bb_single, bb_wf,
    bitboard_squares, lemma_bb_finite,
};
use crate::model::{
    after_move, f_hand, f_king, f_occupied, f_piece, f_piece_squares, f_side,
    hand_pawns, hand_slot, king_slot, pass_turn, set_square,
};
use crate::normal::{lemma_reaches_symmetric, reach_set, reaches};
use crate::position::{
    clone_position, hand_count, king_position, make_move, piece_bitboard, piece_code_at,
    player_bitboard, position_fields, side_to_move, vacant_bitboard,
};
use crate::types::{
    is_square_index, lemma_index_coords, lemma_square_index_coords, piece_from_code,
    relative_rank_of, square_index, file_of, rank_of, Color, IllegalMoveKind, Move, Piece,
    PieceKind, Square,
};

verus! {

/// Whether `side` has a piece that can move to square `target`.
pub open spec fn attacked(f: Map<int, int>, side: Color, target: int) -> bool {
    exists|s: int|
        #![trigger f_piece(f, s)]
        is_square_index(s) && (f_piece(f, s) matches Some(p) && p.color == side && reaches(
            f_occupied(f),
            p,
            s,
            target,
        ))
}

/// Whether a square is attacked depends only on the pieces on the board.
pub proof fn lemma_attacked_same_board(f: Map<int, int>, g: Map<int, int>, c: Color, k: int)
    requires
        forall|s: int| is_square_index(s) ==> #[trigger] f_piece(f, s) == f_piece(g, s),
    ensures
        attacked(f, c, k) == attacked(g, c, k),
{
    assert(f_occupied(f) =~= f_occupied(g));
    if attacked(f, c, k) {
        let s = choose|s: int|
            #![trigger f_piece(f, s)]
            is_square_index(s) && (f_piece(f, s) matches Some(p) && p.color == c && reaches(
                f_occupied(f),
                p,
                s,
                k,
            ));
        assert(f_piece(g, s) == f_piece(f, s));
    }
    if attacked(g, c, k) {
        let s = choose|s: int|
            #![trigger f_piece(g, s)]
            is_square_index(s) && (f_piece(g, s) matches Some(p) && p.color == c && reaches(
                f_occupied(g),
                p,
                s,
                k,
            ));
        assert(f_piece(g, s) == f_piece(f, s));
    }
}

/// Whether the player to move is in check: a square is recorded for its king
/// and the opponent has a piece that can move there.
pub open spec fn spec_in_check(f: Map<int, int>) -> bool {
    let side = f_side(f);
    let k = f_king(f, side);
    k != 0 && attacked(f, side.spec_flip(), k)
}

/// Whether the player to move can capture the opponent's king: `None` when
/// no square is recorded for that king.
pub open spec fn king_capturable(f: Map<int, int>) -> Option<bool> {
    let side = f_side(f);
    let k = f_king(f, side.spec_flip());
    if k == 0 {
        None
    } else {
        Some(attacked(f, side, k))
    }
}

/// Why a normal move is not valid, in the order the checks are made; `None`
/// when it is valid (the safety of the mover's king aside).
pub open spec fn normal_error(f: Map<int, int>, from: Square, to: Square, promote: bool) -> Option<
    IllegalMoveKind,
> {
    let side = f_side(f);
    if !from.wf() || !to.wf() {
        Some(IllegalMoveKind::IncorrectMove)
    } else {
        match f_piece(f, from.index as int) {
            None => Some(IllegalMoveKind::IncorrectMove),
            Some(p) => {
                let rel_to = relative_rank_of(to.index as int, side);
                let rel_from = relative_rank_of(from.index as int, side);
                if p.color != side {
                    Some(IllegalMoveKind::IncorrectMove)
                } else if f_piece(f, to.index as int) matches Some(x) && (x.color == side || x.kind
                    == PieceKind::King) {
                    Some(IllegalMoveKind::IncorrectMove)
                } else if rel_to == 1 && (p.kind == PieceKind::Pawn || p.kind == PieceKind::Lance
                    || p.kind == PieceKind::Knight) && !promote {
                    Some(IllegalMoveKind::NormalStuck)
                } else if rel_to == 2 && p.kind == PieceKind::Knight && !promote {
                    Some(IllegalMoveKind::NormalStuck)
                } else if promote && rel_from > 3 && rel_to > 3 {
                    Some(IllegalMoveKind::IncorrectMove)
                } else if promote && p.spec_promote().is_none() {
                    Some(IllegalMoveKind::IncorrectMove)
                } else if !reaches(f_occupied(f), p, from.index as int, to.index as int) {
                    Some(IllegalMoveKind::IncorrectMove)
                } else {
                    None
                }
            },
        }
    }
}

/// Whether a pawn of the same player already stands on the file of `to`.
pub open spec fn two_pawns(f: Map<int, int>, piece: Piece, to: Square) -> bool {
    exists|r: int|
        1 <= r <= 9 && #[trigger] f_piece(f, square_index(file_of(to.index as int), r)) == Some(
            piece,
        )
}

/// Why a drop is not valid, before the drop-pawn-mate rule is looked at, in the
/// order the checks are made; `None` when no check fails.
pub open spec fn drop_error(f: Map<int, int>, piece: Piece, to: Square) -> Option<IllegalMoveKind> {
    let side = f_side(f);
    let rel_to = relative_rank_of(to.index as int, side);
    if !to.wf() {
        Some(IllegalMoveKind::IncorrectMove)
    } else if piece.color != side {
        Some(IllegalMoveKind::IncorrectMove)
    } else if !piece.kind.is_hand_kind() {
        Some(IllegalMoveKind::IncorrectMove)
    } else if f_hand(f, piece.color, piece.kind) <= 0 {
        Some(IllegalMoveKind::IncorrectMove)
    } else if f_piece(f, to.index as int).is_some() {
        Some(IllegalMoveKind::IncorrectMove)
    } else if rel_to == 1 && (piece.kind == PieceKind::Pawn || piece.kind == PieceKind::Lance
        || piece.kind == PieceKind::Knight) {
        Some(IllegalMoveKind::DropStuck)
    } else if rel_to == 2 && piece.kind == PieceKind::Knight {
        Some(IllegalMoveKind::DropStuck)
    } else if piece.kind == PieceKind::Pawn && two_pawns(f, piece, to) {
        Some(IllegalMoveKind::TwoPawns)
    } else {
        None
    }
}

/// Whether `mv` is a valid move (the safety of the mover's king aside): the
/// rules of movement, promotion, stuck pieces, two pawns and drop-pawn-mate.
pub open spec fn spec_is_valid(f: Map<int, int>, mv: Move) -> bool
    decreases hand_pawns(f), 1nat, 0nat,
{
    match mv {
        Move::Normal { from, to, promote } => normal_error(f, from, to, promote).is_none(),
        Move::Drop { piece, to } => {
            &&& drop_error(f, piece, to).is_none()
            &&& piece.kind == PieceKind::Pawn ==> match after_move(f, mv) {
                Some(g) => spec_is_mate(g) != Some(true),
                None => true,
            }
        },
    }
}

/// Whether, after `mv`, the opponent can still capture the mover's king (so
/// `mv` does not save it); false when `mv` cannot be made.
pub open spec fn fails_to_escape(f: Map<int, int>, mv: Move) -> bool {
    after_move(f, mv) matches Some(g) && king_capturable(g) == Some(true)
}

/// The number of moves in the order of `move_order`.
pub open spec fn num_moves() -> int {
    15390
}

/// The move at position `i` of the order of `move_order`.
pub open spec fn move_at(i: int) -> Move {
    if i < 13122 {
        Move::Normal {
            from: Square { index: (i / 162 + 1) as u8 },
            to: Square { index: ((i % 162) / 2 + 1) as u8 },
            promote: i % 2 == 1,
        }
    } else {
        let j = i - 13122;
        let p = j / 81;
        Move::Drop {
            piece: Piece {
                kind: crate::types::kind_from_code(p / 2 + 1).unwrap(),
                color: if p % 2 == 0 {
                    Color::Black
                } else {
                    Color::White
                },
            },
            to: Square { index: (j % 81 + 1) as u8 },
        }
    }
}

/// Whether every valid move at position `i` or later of the order fails to
/// save the king.
pub open spec fn mate_scan(f: Map<int, int>, i: int) -> bool
    decreases hand_pawns(f), 2nat, (if i < num_moves() {
        num_moves() - i
    } else {
        0
    }) as nat,
{
    if i < 0 || i >= num_moves() {
        true
    } else {
        (spec_is_valid(f, move_at(i)) ==> fails_to_escape(f, move_at(i))) && mate_scan(f, i + 1)
    }
}

/// Whether the player to move has no valid move after which its king cannot be
/// captured: `None` when no square is recorded for that king.
pub open spec fn spec_is_mate(f: Map<int, int>) -> Option<bool>
    decreases hand_pawns(f), 3nat, 0nat,
{
    if f_king(f, f_side(f)) == 0 {
        None
    } else {
        Some(mate_scan(f, 0))
    }
}


/// Positions of the order and moves correspond one to one.
pub proof fn lemma_move_at_order(mv: Move)
    requires
        mv.wf(),
    ensures
        0 <= move_order(mv) < num_moves(),
        move_at(move_order(mv)) == mv,
{
    match mv {
        Move::Normal { from, to, promote } => {
            let i = move_order(mv);
            let p: int = if promote {
                1
            } else {
                0
            };
            assert(i == (from.index - 1) * 162 + ((to.index - 1) * 2 + p));
            vstd::arithmetic::div_mod::lemma_fundamental_div_mod_converse(
                i,
                162,
                from.index - 1,
                (to.index - 1) * 2 + p,
            );
            vstd::arithmetic::div_mod::lemma_fundamental_div_mod_converse(
                (to.index - 1) * 2 + p,
                2,
                to.index - 1,
                p,
            );
            vstd::arithmetic::div_mod::lemma_fundamental_div_mod_converse(
                i,
                2,
                (from.index - 1) * 81 + (to.index - 1),
                p,
            );
        },
        Move::Drop { piece, to } => {
            let q = (piece.kind.code() - 1) * 2 + (piece.color.code() - 1);
            let j = q * 81 + (to.index - 1);
            vstd::arithmetic::div_mod::lemma_fundamental_div_mod_converse(j, 81, q, to.index - 1);
            vstd::arithmetic::div_mod::lemma_fundamental_div_mod_converse(
                q,
                2,
                piece.kind.code() - 1,
                piece.color.code() - 1,
            );
        },
    }
}

/// `mate_scan` from `i` says that every valid move at position `i` or later
/// fails to save the king.
pub proof fn lemma_mate_scan(f: Map<int, int>, i: int)
    requires
        0 <= i <= num_moves(),
    ensures
        mate_scan(f, i) <==> forall|j: int|
            i <= j < num_moves() ==> (#[trigger] spec_is_valid(f, move_at(j)) ==> fails_to_escape(
                f,
                move_at(j),
            )),
    decreases num_moves() - i,
{
    if i < num_moves() {
        lemma_mate_scan(f, i + 1);
        let mv = move_at(i);
        assert(mate_scan(f, i) == ((spec_is_valid(f, mv) ==> fails_to_escape(f, mv)) && mate_scan(
            f,
            i + 1,
        )));
    }
}

/// A valid move has squares on the board.
pub proof fn lemma_valid_wf(f: Map<int, int>, mv: Move)
    requires
        spec_is_valid(f, mv),
    ensures
        mv.wf(),
{
}

/// `spec_is_mate` says that no valid move saves the king.
pub proof fn lemma_is_mate_forall(f: Map<int, int>)
    requires
        f_king(f, f_side(f)) != 0,
    ensures
        spec_is_mate(f) == Some(
            forall|mv: Move| #[trigger] spec_is_valid(f, mv) ==> fails_to_escape(f, mv),
        ),
{
    lemma_mate_scan(f, 0);
    if mate_scan(f, 0) {
        assert forall|mv: Move| #[trigger] spec_is_valid(f, mv) implies fails_to_escape(f, mv) by {
            lemma_move_at_order(mv);
            assert(spec_is_valid(f, move_at(move_order(mv))));
        }
    }
    if forall|mv: Move| #[trigger] spec_is_valid(f, mv) ==> fails_to_escape(f, mv) {
        assert forall|j: int|
            0 <= j < num_moves() implies (#[trigger] spec_is_valid(f, move_at(j))
            ==> fails_to_escape(f, move_at(j))) by {
            let mv = move_at(j);
            if spec_is_valid(f, mv) {
                assert(fails_to_escape(f, mv));
            }
        }
    }
}

/// After a move, the square recorded for the mover's king is still recorded.
pub proof fn lemma_after_move_keeps_king(f: Map<int, int>, mv: Move)
    requires
        mv.wf(),
        after_move(f, mv) is Some,
        f_king(f, f_side(f)) != 0,
    ensures
        ({
            let g = after_move(f, mv).unwrap();
            &&& f_side(g) == f_side(f).spec_flip()
            &&& f_king(g, f_side(f)) != 0
        }),
{
}

/// A code read from a position decodes to `p` exactly when it is `p`'s code.
pub proof fn lemma_code_is_piece(code: int, p: Piece)
    requires
        code == 0 || crate::types::is_piece_code(code),
    ensures
        (piece_from_code(code) == Some(p)) == (code == p.code()),
        (piece_from_code(code).is_some()) == (code != 0),
{
}

/// The result of the checks of a normal move.
fn normal_error_exec(position: &PartialPosition, from: Square, to: Square, promote: bool) -> (r:
    Option<IllegalMoveKind>)
    requires
        from.wf(),
        to.wf(),
    ensures
        r == normal_error(position_fields(*position), from, to, promote),
{
    let side = side_to_move(position);
    let from_piece = match Piece::from_code(piece_code_at(position, from)) {
        Some(x) => x,
        None => return Some(IllegalMoveKind::IncorrectMove),
    };
    if from_piece.color != side {
        return Some(IllegalMoveKind::IncorrectMove);
    }
    match Piece::from_code(piece_code_at(position, to)) {
        Some(x) => {
            if x.color == side {
                return Some(IllegalMoveKind::IncorrectMove);
            }
            if x.kind == PieceKind::King {
                return Some(IllegalMoveKind::IncorrectMove);
            }
        },
        None => {},
    }
    let rel_rank = to.relative_rank(side);
    if rel_rank == 1 && matches!(
        from_piece.kind,
        PieceKind::Pawn | PieceKind::Lance | PieceKind::Knight
    ) && !promote {
        return Some(IllegalMoveKind::NormalStuck);
    }
    if rel_rank == 2 && from_piece.kind == PieceKind::Knight && !promote {
        return Some(IllegalMoveKind::NormalStuck);
    }
    if promote && from.relative_rank(side) > 3 && to.relative_rank(side) > 3 {
        return Some(IllegalMoveKind::IncorrectMove);
    }
    if promote && from_piece.promote().is_none() {
        return Some(IllegalMoveKind::IncorrectMove);
    }
    if crate::normal::check(position, from_piece, from, to) {
        None
    } else {
        Some(IllegalMoveKind::IncorrectMove)
    }
}

/// Whether a piece like `piece` stands on the file of `to`.
fn two_pawns_exec(position: &PartialPosition, piece: Piece, to: Square) -> (b: bool)
    requires
        to.wf(),
    ensures
        b == two_pawns(position_fields(*position), piece, to),
{
    let ghost f = position_fields(*position);
    let file = to.file();
    let code = piece.to_code();
    let mut i: u8 = 1;
    while i <= 9
        invariant
            1 <= i <= 10,
            1 <= file <= 9,
            file == file_of(to.index as int),
            code == piece.code(),
            f == position_fields(*position),
            forall|r: int|
                1 <= r < i ==> #[trigger] f_piece(f, square_index(file as int, r)) != Some(piece),
        decreases 10 - i,
    {
        let square = Square::new(file, i).unwrap();
        let c = piece_code_at(position, square);
        proof {
            lemma_code_is_piece(c as int, piece);
        }
        if c == code {
            assert(f_piece(f, square_index(file as int, i as int)) == Some(piece));
            return true;
        }
        i = i + 1;
    }
    false
}

/// The result of the checks of a drop that come before the drop-pawn-mate rule.
fn drop_error_exec(position: &PartialPosition, piece: Piece, to: Square) -> (r: Option<
    IllegalMoveKind,
>)
    requires
        to.wf(),
    ensures
        r == drop_error(position_fields(*position), piece, to),
{
    let ghost f = position_fields(*position);
    let side = side_to_move(position);
    if piece.color != side {
        return Some(IllegalMoveKind::IncorrectMove);
    }
    let remaining = match hand_count(position, piece) {
        Some(x) => x,
        None => return Some(IllegalMoveKind::IncorrectMove),
    };
    if remaining == 0 {
        return Some(IllegalMoveKind::IncorrectMove);
    }
    if piece_code_at(position, to) != 0 {
        return Some(IllegalMoveKind::IncorrectMove);
    }
    let rel_rank = to.relative_rank(side);
    if rel_rank == 1 && matches!(
        piece.kind,
        PieceKind::Pawn | PieceKind::Lance | PieceKind::Knight
    ) {
        return Some(IllegalMoveKind::DropStuck);
    }
    if rel_rank == 2 && piece.kind == PieceKind::Knight {
        return Some(IllegalMoveKind::DropStuck);
    }
    // Does a double-pawn (nifu) happen?
    if piece.kind == PieceKind::Pawn && two_pawns_exec(position, piece, to) {
        return Some(IllegalMoveKind::TwoPawns);
    }
    None
}

/// Checks if a move is valid without considering king's safety.
pub fn is_valid(position: &PartialPosition, mv: Move) -> (b: bool)
    requires
        mv.wf(),
    ensures
        b == spec_is_valid(position_fields(*position), mv),
    decreases hand_pawns(position_fields(*position)), 1nat,
{
    match mv {
        Move::Normal { from, to, promote } => normal_error_exec(position, from, to, promote).is_none(),
        Move::Drop { piece, to } => {
            if drop_error_exec(position, piece, to).is_some() {
                return false;
            }
            // Does a drop-pawn-mate (uchifu-zume) happen?
            if piece.kind == PieceKind::Pawn {
                let mut next = clone_position(position);
                let ok = make_move(&mut next, mv);
                if ok {
                    if let Some(true) = is_mate(&next) {
                        return false;
                    }
                }
            }
            true
        },
    }
}

/// Checks if `side`'s king has no way to escape from being captured.
///
/// This function returns None if `side` has no king.
///
/// For this function to return Some(true), the king does not need to be in check.
pub fn is_mate(position: &PartialPosition) -> (r: Option<bool>)
    ensures
        r == spec_is_mate(position_fields(*position)),
    decreases hand_pawns(position_fields(*position)), 4nat,
{
    let ghost f = position_fields(*position);
    let side = side_to_move(position);
    if king_position(position, side).is_none() {
        return None;
    }
    proof {
        lemma_is_mate_forall(f);
    }
    let all = all_valid_moves(position);
    let mut i: usize = 0;
    while i < all.len()
        invariant
            f == position_fields(*position),
            f_king(f, f_side(f)) != 0,
            forall|mv: Move| #[trigger] all@.contains(mv) <==> spec_is_valid(f, mv),
            forall|j: int| 0 <= j < i ==> fails_to_escape(f, #[trigger] all@[j]),
        decreases all.len() - i,
    {
        let mv = all[i];
        assert(all@.contains(mv));
        proof {
            lemma_valid_wf(f, mv);
        }
        let mut next = clone_position(position);
        let ok = make_move(&mut next, mv);
        proof {
            lemma_is_mate_forall(f);
        }
        if !ok {
            return Some(false);
        }
        proof {
            lemma_after_move_keeps_king(f, mv);
        }
        match will_king_be_captured(&next) {
            Some(true) => {},
            Some(false) => {
                return Some(false);
            },
            None => {
                return None;
            },
        }
        i = i + 1;
    }
    assert forall|mv: Move| #[trigger] spec_is_valid(f, mv) implies fails_to_escape(f, mv) by {
        assert(all@.contains(mv));
        let j = choose|j: int| 0 <= j < all@.len() && all@[j] == mv;
    }
    Some(true)
}

/// The position of a move in the order in which moves are listed: normal moves
/// by origin, destination, then promotion; drops by piece (kind, then color),
/// then destination.
pub open spec fn move_order(mv: Move) -> int {
    match mv {
        Move::Normal { from, to, promote } => (from.index - 1) * 162 + (to.index - 1) * 2 + (if promote {
            1int
        } else {
            0int
        }),
        Move::Drop { piece, to } => 13122 + ((piece.kind.code() - 1) * 2 + (piece.color.code()
            - 1)) * 81 + (to.index - 1),
    }
}

/// What a sequence holds after a push.
pub proof fn lemma_push_contains<A>(s: Seq<A>, x: A, y: A)
    ensures
        s.push(x).contains(y) <==> (s.contains(y) || y == x),
{
    if s.push(x).contains(y) {
        let j = choose|j: int| 0 <= j < s.push(x).len() && s.push(x)[j] == y;
        if j < s.len() {
            assert(s[j] == y);
        }
    }
    if s.contains(y) {
        let j = choose|j: int| 0 <= j < s.len() && s[j] == y;
        assert(s.push(x)[j] == y);
    }
    if y == x {
        assert(s.push(x)[s.len() as int] == y);
    }
}

/// Whether `mv` comes before the normal moves from square `fi` to square `ti`
/// in the order of `move_order`.
pub open spec fn listed_before_normal(mv: Move, fi: int, ti: int) -> bool {
    match mv {
        Move::Normal { from, to, .. } => from.index < fi || (from.index == fi && to.index < ti),
        Move::Drop { .. } => false,
    }
}

/// Whether `mv` comes before the drops of the piece with kind code `k` and
/// color code `c` on square `ti`, all normal moves coming first.
pub open spec fn listed_before_drop(mv: Move, k: int, c: int, ti: int) -> bool {
    match mv {
        Move::Normal { .. } => true,
        Move::Drop { piece, to } => piece.kind.code() < k || (piece.kind.code() == k && (
        piece.color.code() < c || (piece.color.code() == c && to.index < ti))),
    }
}

/// Appends the valid drops of `piece` to `result`, destination by destination.
fn push_valid_drops(position: &PartialPosition, piece: Piece, result: &mut Vec<Move>)
    requires
        forall|mv: Move|
            #[trigger] old(result)@.contains(mv) <==> spec_is_valid(position_fields(*position), mv)
                && listed_before_drop(mv, piece.kind.code(), piece.color.code(), 1),
        forall|i: int, j: int|
            0 <= i < j < old(result)@.len() ==> move_order(old(result)@[i]) < move_order(
                old(result)@[j],
            ),
        forall|i: int|
            0 <= i < old(result)@.len() ==> move_order(#[trigger] old(result)@[i]) < move_order(
                Move::Drop { piece, to: Square { index: 1 } },
            ),
    ensures
        forall|mv: Move|
            #[trigger] final(result)@.contains(mv) <==> spec_is_valid(position_fields(*position), mv)
                && listed_before_drop(mv, piece.kind.code(), piece.color.code(), 82),
        forall|i: int, j: int|
            0 <= i < j < final(result)@.len() ==> move_order(final(result)@[i]) < move_order(
                final(result)@[j],
            ),
        forall|i: int|
            0 <= i < final(result)@.len() ==> move_order(#[trigger] final(result)@[i]) < move_order(
                Move::Drop { piece, to: Square { index: 81 } },
            ) + 1,
    decreases hand_pawns(position_fields(*position)), 2nat,
{
    let ghost f = position_fields(*position);
    let ghost k = piece.kind.code();
    let ghost c = piece.color.code();
    let mut to_i: u8 = 1;
    while to_i <= 81
        invariant
            1 <= to_i <= 82,
            f == position_fields(*position),
            k == piece.kind.code(),
            c == piece.color.code(),
            forall|mv: Move|
                #[trigger] result@.contains(mv) <==> spec_is_valid(f, mv) && listed_before_drop(
                    mv,
                    k,
                    c,
                    to_i as int,
                ),
            forall|i: int, j: int|
                0 <= i < j < result@.len() ==> move_order(result@[i]) < move_order(result@[j]),
            forall|i: int|
                0 <= i < result@.len() ==> move_order(#[trigger] result@[i]) < move_order(
                    Move::Drop { piece, to: Square { index: to_i } },
                ),
        decreases 82 - to_i,
    {
        let mv = Move::Drop { piece, to: Square { index: to_i } };
        let ghost before = result@;
        let v = is_valid(position, mv);
        if v {
            result.push(mv);
        }
        proof {
            assert forall|m: Move| #[trigger] result@.contains(m) <==> (before.contains(m) || (v
                && m == mv)) by {
                if v {
                    lemma_push_contains(before, mv, m);
                }
            }
            assert forall|m: Move|
                #[trigger] result@.contains(m) <==> spec_is_valid(f, m) && listed_before_drop(
                    m,
                    k,
                    c,
                    to_i + 1,
                ) by {
                if m is Drop && m->piece == piece && m->Drop_to.index == to_i {
                    assert(m == mv);
                }
            }
        }
        to_i = to_i + 1;
    }
}

/// Returns all valid moves without considering king's safety, in the order of
/// `move_order`.
pub fn all_valid_moves(position: &PartialPosition) -> (result: Vec<Move>)
    ensures
        forall|mv: Move| #[trigger] result@.contains(mv) <==> spec_is_valid(position_fields(*position), mv),
        forall|i: int, j: int|
            0 <= i < j < result@.len() ==> move_order(result@[i]) < move_order(result@[j]),
    decreases hand_pawns(position_fields(*position)), 3nat,
{
    let ghost f = position_fields(*position);
    let mut result: Vec<Move> = Vec::new();
    let mut from_i: u8 = 1;
    while from_i <= 81
        invariant
            1 <= from_i <= 82,
            f == position_fields(*position),
            forall|mv: Move|
                #[trigger] result@.contains(mv) <==> spec_is_valid(f, mv) && listed_before_normal(
                    mv,
                    from_i as int,
                    1,
                ),
            forall|i: int, j: int|
                0 <= i < j < result@.len() ==> move_order(result@[i]) < move_order(result@[j]),
            forall|i: int|
                0 <= i < result@.len() ==> move_order(#[trigger] result@[i]) < (from_i - 1) * 162,
        decreases 82 - from_i,
    {
        let from = Square { index: from_i };
        let mut to_i: u8 = 1;
        while to_i <= 81
            invariant
                1 <= from_i <= 81,
                1 <= to_i <= 82,
                from.index == from_i,
                f == position_fields(*position),
                forall|mv: Move|
                    #[trigger] result@.contains(mv) <==> spec_is_valid(f, mv)
                        && listed_before_normal(mv, from_i as int, to_i as int),
                forall|i: int, j: int|
                    0 <= i < j < result@.len() ==> move_order(result@[i]) < move_order(result@[j]),
                forall|i: int|
                    0 <= i < result@.len() ==> move_order(#[trigger] result@[i]) < (from_i - 1)
                        * 162 + (to_i - 1) * 2,
            decreases 82 - to_i,
        {
            let to = Square { index: to_i };
            let ghost before = result@;
            let mv0 = Move::Normal { from, to, promote: false };
            let v0 = is_valid(position, mv0);
            if v0 {
                result.push(mv0);
            }
            let ghost mid = result@;
            let mv1 = Move::Normal { from, to, promote: true };
            let v1 = is_valid(position, mv1);
            if v1 {
                result.push(mv1);
            }
            proof {
                assert forall|m: Move| #[trigger] mid.contains(m) <==> (before.contains(m) || (v0
                    && m == mv0)) by {
                    if v0 {
                        lemma_push_contains(before, mv0, m);
                    }
                }
                assert forall|m: Move| #[trigger] result@.contains(m) <==> (mid.contains(m) || (v1
                    && m == mv1)) by {
                    if v1 {
                        lemma_push_contains(mid, mv1, m);
                    }
                }
                assert forall|m: Move|
                    #[trigger] result@.contains(m) <==> spec_is_valid(f, m) && listed_before_normal(
                        m,
                        from_i as int,
                        to_i + 1,
                    ) by {
                    assert(mid.contains(m) <==> (before.contains(m) || (v0 && m == mv0)));
                    if m is Normal && m->from.index == from_i && m->Normal_to.index == to_i {
                        assert(m->from == from);
                        assert(m->Normal_to == to);
                        assert(m == mv0 || m == mv1);
                    }
                }
            }
            to_i = to_i + 1;
        }
        assert forall|mv: Move|
            #[trigger] result@.contains(mv) <==> spec_is_valid(f, mv) && listed_before_normal(
                mv,
                from_i + 1,
                1,
            ) by {
            if result@.contains(mv) {
                assert(listed_before_normal(mv, from_i as int, 82));
            }
        }
        from_i = from_i + 1;
    }
    let mut k: u8 = 1;
    while k <= 14
        invariant
            1 <= k <= 15,
            f == position_fields(*position),
            forall|mv: Move|
                #[trigger] result@.contains(mv) <==> spec_is_valid(f, mv) && listed_before_drop(
                    mv,
                    k as int,
                    1,
                    1,
                ),
            forall|i: int, j: int|
                0 <= i < j < result@.len() ==> move_order(result@[i]) < move_order(result@[j]),
            forall|i: int|
                0 <= i < result@.len() ==> move_order(#[trigger] result@[i]) < 13122 + (k - 1) * 2
                    * 81,
        decreases 15 - k,
    {
        let kind = PieceKind::from_code(k).unwrap();
        push_valid_drops(position, Piece { kind, color: Color::Black }, &mut result);
        push_valid_drops(position, Piece { kind, color: Color::White }, &mut result);
        k = k + 1;
    }
    assert forall|mv: Move| #[trigger] result@.contains(mv) <== spec_is_valid(f, mv) by {
        assert(listed_before_drop(mv, 15, 1, 1));
    }
    result
}

/// When the checks of a move find nothing wrong, the move can be made.
pub proof fn lemma_no_error_after_some(f: Map<int, int>, mv: Move)
    requires
        mv.wf(),
        match mv {
            Move::Normal { from, to, promote } => normal_error(f, from, to, promote).is_none(),
            Move::Drop { piece, to } => drop_error(f, piece, to).is_none(),
        },
    ensures
        after_move(f, mv) is Some,
{
}

/// What `is_valid_with_error` returns.
pub open spec fn spec_is_valid_with_error(f: Map<int, int>, mv: Move) -> Result<(), IllegalMoveKind> {
    match mv {
        Move::Normal { from, to, promote } => match normal_error(f, from, to, promote) {
            Some(e) => Err(e),
            None => Ok(()),
        },
        Move::Drop { piece, to } => match drop_error(f, piece, to) {
            Some(e) => Err(e),
            None => {
                if piece.kind == PieceKind::Pawn && (after_move(f, mv) matches Some(g)
                    && spec_is_mate(g) == Some(true)) {
                    Err(IllegalMoveKind::DropPawnMate)
                } else {
                    Ok(())
                }
            },
        },
    }
}

/// Checks if a move is valid without considering king's safety.
/// This function returns a detailed error when `mv` is not legal.
pub fn is_valid_with_error(position: &PartialPosition, mv: Move) -> (r: Result<(), IllegalMoveKind>)
    requires
        mv.wf(),
    ensures
        r == spec_is_valid_with_error(position_fields(*position), mv),
        after_move(position_fields(*position), mv) is Some || r is Err,
{
    let ghost f = position_fields(*position);
    let _ = side_to_move(position);
    match mv {
        Move::Normal { from, to, promote } => match normal_error_exec(position, from, to, promote) {
            Some(e) => Err(e),
            None => {
                proof {
                    lemma_no_error_after_some(f, mv);
                }
                Ok(())
            },
        },
        Move::Drop { piece, to } => {
            if let Some(e) = drop_error_exec(position, piece, to) {
                return Err(e);
            }
            proof {
                lemma_no_error_after_some(f, mv);
            }
            // Does a drop-pawn-mate (uchifu-zume) happen?
            if piece.kind == PieceKind::Pawn {
                let mut next = clone_position(position);
                let _ = make_move(&mut next, mv);
                if let Some(true) = is_mate(&next) {
                    return Err(IllegalMoveKind::DropPawnMate);
                }
            }
            Ok(())
        },
    }
}

/// The squares whose rank is `r1` or `r2`.
pub open spec fn two_rank_set(r1: int, r2: int) -> Set<int> {
    Set::new(|i: int| is_square_index(i) && (rank_of(i) == r1 || rank_of(i) == r2))
}

/// The squares whose rank lies between `lo` and `hi`.
pub open spec fn rank_range_set(lo: int, hi: int) -> Set<int> {
    Set::new(|i: int| is_square_index(i) && lo <= rank_of(i) <= hi)
}

/// The squares whose rank lies between `lo` and `hi`.
fn rank_range_bitboard(lo: u8, hi: u8) -> (b: Bitboard)
    ensures
        bitboard_squares(b) == rank_range_set(lo as int, hi as int),
        bb_wf(b),
{
    let mut result = bb_empty();
    let mut i: u8 = 1;
    while i <= 81
        invariant
            1 <= i <= 82,
            bitboard_squares(result) == Set::new(
                |j: int| 1 <= j < i && lo <= rank_of(j) <= hi,
            ),
            bb_wf(result),
        decreases 82 - i,
    {
        let sq = Square { index: i };
        let r = sq.rank();
        if lo <= r && r <= hi {
            result = bb_or(result, bb_single(sq));
        }
        assert(bitboard_squares(result) =~= Set::new(
            |j: int| 1 <= j < i + 1 && lo <= rank_of(j) <= hi,
        ));
        i = i + 1;
    }
    assert(bitboard_squares(result) =~= rank_range_set(lo as int, hi as int));
    result
}

/// A pawn, lance or knight never moves backwards: from rank 9 towards rank 1
/// for Black, the other way for White.
pub proof fn lemma_forward_mover_ranks(occ: Set<int>, p: Piece, from: int, to: int)
    requires
        p.kind == PieceKind::Pawn || p.kind == PieceKind::Lance || p.kind == PieceKind::Knight,
        reaches(occ, p, from, to),
    ensures
        p.color == Color::Black ==> rank_of(to) <= 8,
        p.color == Color::White ==> rank_of(to) >= 2,
        p.kind == PieceKind::Knight && p.color == Color::Black ==> rank_of(to) <= 7,
        p.kind == PieceKind::Knight && p.color == Color::White ==> rank_of(to) >= 3,
{
    lemma_index_coords(from);
    lemma_index_coords(to);
    if p.kind == PieceKind::Lance {
        crate::normal::lemma_on_ray_iff(
            occ,
            from,
            to,
            0,
            crate::normal::forward(p.color),
        );
    }
}

/// The squares to which the piece on `from` can make a valid move (the safety
/// of the mover's king aside): first without promotion, then with it.
pub(crate) fn normal_from_candidates(position: &PartialPosition, from: Square) -> (r: (
    Bitboard,
    Bitboard,
))
    requires
        from.wf(),
    ensures
        bitboard_squares(r.0) == Set::new(
            |to: int|
                is_square_index(to) && normal_error(
                    position_fields(*position),
                    from,
                    Square { index: to as u8 },
                    false,
                ) is None,
        ),
        bitboard_squares(r.1) == Set::new(
            |to: int|
                is_square_index(to) && normal_error(
                    position_fields(*position),
                    from,
                    Square { index: to as u8 },
                    true,
                ) is None,
        ),
        bb_wf(r.0),
        bb_wf(r.1),
{
    let ghost f = position_fields(*position);
    let side = side_to_move(position);
    let from_piece = match Piece::from_code(piece_code_at(position, from)) {
        Some(x) => x,
        None => {
            let e = bb_empty();
            assert(bitboard_squares(e) =~= Set::new(
                |to: int|
                    is_square_index(to) && normal_error(f, from, Square { index: to as u8 }, false) is None,
            ));
            assert(bitboard_squares(e) =~= Set::new(
                |to: int|
                    is_square_index(to) && normal_error(f, from, Square { index: to as u8 }, true) is None,
            ));
            return (e, e);
        },
    };
    if from_piece.color != side {
        let e = bb_empty();
        assert(bitboard_squares(e) =~= Set::new(
            |to: int|
                is_square_index(to) && normal_error(f, from, Square { index: to as u8 }, false) is None,
        ));
        assert(bitboard_squares(e) =~= Set::new(
            |to: int|
                is_square_index(to) && normal_error(f, from, Square { index: to as u8 }, true) is None,
        ));
        return (e, e);
    }
    // Is the move valid?
    let valid_to = crate::normal::from_candidates(position, from_piece, from);
    // Is `to` occupied by `side`'s piece? Capturing king is not allowed either.
    let my_bb = bb_or(
        player_bitboard(position, side),
        crate::position::piece_kind_bitboard(position, PieceKind::King),
    );
    let base = bb_andnot(my_bb, valid_to);
    // Stuck?
    let unpromote_prohibited = match from_piece.kind {
        PieceKind::Pawn | PieceKind::Lance => bb_or(
            rank_range_bitboard(1, 1),
            rank_range_bitboard(9, 9),
        ),
        PieceKind::Knight => bb_or(rank_range_bitboard(1, 2), rank_range_bitboard(8, 9)),
        _ => bb_empty(),
    };
    // Can promote?
    let mut promotable = if from.relative_rank(side) > 3 {
        match side {
            Color::Black => rank_range_bitboard(1, 3),
            Color::White => rank_range_bitboard(7, 9),
        }
    } else {
        bb_not(bb_empty())
    };
    if from_piece.promote().is_none() {
        promotable = bb_empty();
    }
    let r0 = bb_andnot(unpromote_prohibited, base);
    let r1 = bb_and(base, promotable);
    proof {
        let occ = f_occupied(f);
        assert forall|to: int| #[trigger] bitboard_squares(r0).contains(to) <==> (is_square_index(to)
            && normal_error(f, from, Square { index: to as u8 }, false) is None) by {
            let t = Square { index: to as u8 };
            if is_square_index(to) {
                lemma_index_coords(to);
                assert(t.index == to);
                if reaches(occ, from_piece, from.index as int, to) && (from_piece.kind
                    == PieceKind::Pawn || from_piece.kind == PieceKind::Lance || from_piece.kind
                    == PieceKind::Knight) {
                    lemma_forward_mover_ranks(occ, from_piece, from.index as int, to);
                }
            }
        }
        assert forall|to: int| #[trigger] bitboard_squares(r1).contains(to) <==> (is_square_index(to)
            && normal_error(f, from, Square { index: to as u8 }, true) is None) by {
            let t = Square { index: to as u8 };
            if is_square_index(to) {
                lemma_index_coords(to);
                assert(t.index == to);
            }
        }
        assert(bitboard_squares(r0) =~= Set::new(
            |to: int|
                is_square_index(to) && normal_error(f, from, Square { index: to as u8 }, false) is None,
        ));
        assert(bitboard_squares(r1) =~= Set::new(
            |to: int|
                is_square_index(to) && normal_error(f, from, Square { index: to as u8 }, true) is None,
        ));
    }
    (r0, r1)
}

/// A piece of `side` found where the same kind of piece of the other player on
/// `k` could move is a piece of `side` that can move to `k`.
pub proof fn lemma_attacker_found(f: Map<int, int>, kind: PieceKind, side: Color, k: int)
    requires
        piece_in(
            f,
            Piece { kind, color: side },
            reach_set(f_occupied(f), Piece { kind, color: side.spec_flip() }, k),
        ),
    ensures
        attacked(f, side, k),
{
    let occ = f_occupied(f);
    let s = choose|s: int|
        #[trigger] reach_set(occ, Piece { kind, color: side.spec_flip() }, k).contains(s)
            && is_square_index(s) && f_piece(f, s) == Some(Piece { kind, color: side });
    lemma_reaches_symmetric(occ, Piece { kind, color: side.spec_flip() }, k, s);
    assert(Piece { kind, color: side.spec_flip().spec_flip() } == Piece { kind, color: side });
    assert(f_piece(f, s) matches Some(p) && p.color == side && reaches(occ, p, s, k));
}

/// A king, or a promoted bishop or rook, of `side` next to `k` can move to `k`.
pub proof fn lemma_neighbour_found(f: Map<int, int>, kind: PieceKind, side: Color, k: int, per: Set<int>)
    requires
        per == reach_set(f_occupied(f), Piece { kind: PieceKind::King, color: Color::Black }, k),
        kind == PieceKind::King || kind == PieceKind::ProBishop || kind == PieceKind::ProRook,
        piece_in(f, Piece { kind, color: side }, per),
    ensures
        attacked(f, side, k),
{
    let occ = f_occupied(f);
    let s = choose|s: int|
        #[trigger] per.contains(s) && is_square_index(s) && f_piece(f, s) == Some(
            Piece { kind, color: side },
        );
    assert(reaches(occ, Piece { kind, color: side }, s, k));
    assert(f_piece(f, s) matches Some(p) && p.color == side && reaches(occ, p, s, k));
}

/// A bishop or rook of `side`, promoted or not, standing where a bishop or rook
/// on `k` could move, can move to `k`.
pub proof fn lemma_slider_found(
    f: Map<int, int>,
    side: Color,
    k: int,
    plain: PieceKind,
    promoted: PieceKind,
    range: Set<int>,
    pieces: Set<int>,
)
    requires
        is_square_index(k),
        (plain == PieceKind::Bishop && promoted == PieceKind::ProBishop && range == Set::new(
            |to: int| crate::normal::diagonal_slide(f_occupied(f), k, to),
        )) || (plain == PieceKind::Rook && promoted == PieceKind::ProRook && range == Set::new(
            |to: int| crate::normal::orthogonal_slide(f_occupied(f), k, to),
        )),
        pieces == f_piece_squares(f, Piece { kind: plain, color: side }).union(
            f_piece_squares(f, Piece { kind: promoted, color: side }),
        ),
        range.intersect(pieces) != Set::<int>::empty(),
    ensures
        attacked(f, side, k),
{
    let occ = f_occupied(f);
    let s = range.intersect(pieces).choose();
    assert(range.intersect(pieces).contains(s)) by {
        if !range.intersect(pieces).contains(s) {
            assert(range.intersect(pieces) =~= Set::<int>::empty());
        }
    }
    crate::normal::lemma_ray_symmetric(occ, k, s, 1, 1);
    crate::normal::lemma_ray_symmetric(occ, k, s, 1, -1);
    crate::normal::lemma_ray_symmetric(occ, k, s, -1, 1);
    crate::normal::lemma_ray_symmetric(occ, k, s, -1, -1);
    crate::normal::lemma_ray_symmetric(occ, k, s, 1, 0);
    crate::normal::lemma_ray_symmetric(occ, k, s, -1, 0);
    crate::normal::lemma_ray_symmetric(occ, k, s, 0, 1);
    crate::normal::lemma_ray_symmetric(occ, k, s, 0, -1);
    crate::normal::lemma_on_ray_square(occ, k, 1, 1);
    crate::normal::lemma_on_ray_square(occ, k, 1, -1);
    crate::normal::lemma_on_ray_square(occ, k, -1, 1);
    crate::normal::lemma_on_ray_square(occ, k, -1, -1);
    crate::normal::lemma_on_ray_square(occ, k, 1, 0);
    crate::normal::lemma_on_ray_square(occ, k, -1, 0);
    crate::normal::lemma_on_ray_square(occ, k, 0, 1);
    crate::normal::lemma_on_ray_square(occ, k, 0, -1);
    assert(f_piece(f, s) matches Some(p) && p.color == side && reaches(occ, p, s, k));
}

/// Whether a piece of `side` of kind `kind` stands where the same kind of piece
/// of the other player on `k` could move.
pub open spec fn step_found(f: Map<int, int>, kind: PieceKind, side: Color, k: int) -> bool {
    piece_in(
        f,
        Piece { kind, color: side },
        reach_set(f_occupied(f), Piece { kind, color: side.spec_flip() }, k),
    )
}

/// When none of the searches of `will_king_be_captured` finds a piece, no piece
/// of `side` can move to `k`.
pub proof fn lemma_no_attacker(
    f: Map<int, int>,
    side: Color,
    k: int,
    per: Set<int>,
    mine: Set<int>,
    bishops: Set<int>,
    bishop_range: Set<int>,
    rooks: Set<int>,
    rook_range: Set<int>,
)
    requires
        is_square_index(k),
        per == reach_set(f_occupied(f), Piece { kind: PieceKind::King, color: Color::Black }, k),
        mine == crate::model::f_player_squares(f, side),
        mine.intersect(per) != Set::<int>::empty() ==> {
            &&& !piece_in(f, Piece { kind: PieceKind::King, color: side }, per)
            &&& !piece_in(f, Piece { kind: PieceKind::ProBishop, color: side }, per)
            &&& !piece_in(f, Piece { kind: PieceKind::ProRook, color: side }, per)
            &&& !step_found(f, PieceKind::Pawn, side, k)
            &&& !step_found(f, PieceKind::Silver, side, k)
            &&& !step_found(f, PieceKind::Gold, side, k)
            &&& !step_found(f, PieceKind::ProPawn, side, k)
            &&& !step_found(f, PieceKind::ProLance, side, k)
            &&& !step_found(f, PieceKind::ProKnight, side, k)
            &&& !step_found(f, PieceKind::ProSilver, side, k)
        },
        f_piece_squares(f, Piece { kind: PieceKind::Lance, color: side }) == Set::<int>::empty()
            || !step_found(f, PieceKind::Lance, side, k),
        f_piece_squares(f, Piece { kind: PieceKind::Knight, color: side }) == Set::<int>::empty()
            || !step_found(f, PieceKind::Knight, side, k),
        bishops == f_piece_squares(f, Piece { kind: PieceKind::Bishop, color: side }).union(
            f_piece_squares(f, Piece { kind: PieceKind::ProBishop, color: side }),
        ),
        bishop_range == Set::new(|to: int| crate::normal::diagonal_slide(f_occupied(f), k, to)),
        bishops == Set::<int>::empty() || bishop_range.intersect(bishops) == Set::<int>::empty(),
        rooks == f_piece_squares(f, Piece { kind: PieceKind::Rook, color: side }).union(
            f_piece_squares(f, Piece { kind: PieceKind::ProRook, color: side }),
        ),
        rook_range == Set::new(|to: int| crate::normal::orthogonal_slide(f_occupied(f), k, to)),
        rooks == Set::<int>::empty() || rook_range.intersect(rooks) == Set::<int>::empty(),
    ensures
        !attacked(f, side, k),
{
    let occ = f_occupied(f);
    assert forall|s: int|
        is_square_index(s) && #[trigger] f_piece(f, s) is Some && f_piece(f, s).unwrap().color
            == side implies !reaches(occ, f_piece(f, s).unwrap(), s, k) by {
        let p = f_piece(f, s).unwrap();
        if reaches(occ, p, s, k) {
            lemma_reaches_symmetric(occ, p, s, k);
            let q = Piece { kind: p.kind, color: side.spec_flip() };
            assert(reach_set(occ, q, k).contains(s));
            assert(mine.contains(s));
            crate::normal::lemma_ray_symmetric(occ, k, s, 1, 1);
            crate::normal::lemma_ray_symmetric(occ, k, s, 1, -1);
            crate::normal::lemma_ray_symmetric(occ, k, s, -1, 1);
            crate::normal::lemma_ray_symmetric(occ, k, s, -1, -1);
            crate::normal::lemma_ray_symmetric(occ, k, s, 1, 0);
            crate::normal::lemma_ray_symmetric(occ, k, s, -1, 0);
            crate::normal::lemma_ray_symmetric(occ, k, s, 0, 1);
            crate::normal::lemma_ray_symmetric(occ, k, s, 0, -1);
            let df = crate::normal::dfile(s, k);
            let dr = crate::normal::drank(s, k);
            if crate::normal::king_step(df, dr) {
                assert(per.contains(s));
                assert(mine.intersect(per).contains(s));
            }
            match p.kind {
                PieceKind::Lance => {
                    assert(f_piece_squares(f, p).contains(s));
                },
                PieceKind::Knight => {
                    assert(f_piece_squares(f, p).contains(s));
                },
                PieceKind::Bishop => {
                    assert(bishops.contains(s));
                    assert(bishop_range.contains(s));
                    assert(bishop_range.intersect(bishops).contains(s));
                },
                PieceKind::ProBishop => {
                    if crate::normal::king_step(df, dr) {
                        assert(piece_in(f, p, per));
                    } else {
                        assert(bishops.contains(s));
                        assert(bishop_range.contains(s));
                        assert(bishop_range.intersect(bishops).contains(s));
                    }
                },
                PieceKind::Rook => {
                    assert(rooks.contains(s));
                    assert(rook_range.contains(s));
                    assert(rook_range.intersect(rooks).contains(s));
                },
                PieceKind::ProRook => {
                    if crate::normal::king_step(df, dr) {
                        assert(piece_in(f, p, per));
                    } else {
                        assert(rooks.contains(s));
                        assert(rook_range.contains(s));
                        assert(rook_range.intersect(rooks).contains(s));
                    }
                },
                _ => {},
            }
        }
    }
}

/// Whether `piece` stands on some square of `area`.
pub open spec fn piece_in(f: Map<int, int>, piece: Piece, area: Set<int>) -> bool {
    exists|s: int| #[trigger] area.contains(s) && is_square_index(s) && f_piece(f, s) == Some(piece)
}

/// Whether `piece` stands on some square of `area` in `position`.
fn holds_piece_in(position: &PartialPosition, piece: Piece, area: Bitboard) -> (r: bool)
    ensures
        r == piece_in(position_fields(*position), piece, bitboard_squares(area)),
{
    let both = bb_and(piece_bitboard(position, piece), area);
    let r = !bb_is_empty(both);
    proof {
        let f = position_fields(*position);
        if r {
            assert(bitboard_squares(both) != Set::<int>::empty());
            let s = bitboard_squares(both).choose();
            assert(bitboard_squares(both).contains(s)) by {
                if !bitboard_squares(both).contains(s) {
                    assert(bitboard_squares(both) =~= Set::<int>::empty());
                }
            }
            assert(f_piece_squares(f, piece).contains(s));
        } else {
            assert forall|s: int| !(#[trigger] bitboard_squares(area).contains(s) && is_square_index(s)
                && f_piece(f, s) == Some(piece)) by {
                if bitboard_squares(area).contains(s) && is_square_index(s) && f_piece(f, s) == Some(
                    piece,
                ) {
                    assert(f_piece_squares(f, piece).contains(s));
                    assert(bitboard_squares(both).contains(s));
                }
            }
        }
    }
    r
}

/// Whether the piece of `side` of kind `kind` stands where it could move to
/// the square `king`.
fn step_attacker(
    position: &PartialPosition,
    occupied: Bitboard,
    kind: PieceKind,
    side: Color,
    king: Square,
) -> (r: bool)
    requires
        king.wf(),
    ensures
        r == piece_in(
            position_fields(*position),
            Piece { kind, color: side },
            reach_set(
                bitboard_squares(occupied),
                Piece { kind, color: side.spec_flip() },
                king.index as int,
            ),
        ),
{
    let attack = crate::normal::from_candidates_without_assertion(
        occupied,
        Piece { kind, color: side.flip() },
        king,
    );
    holds_piece_in(position, Piece { kind, color: side }, attack)
}

/// Can the player to move capture the opponent's king?
///
/// This function returns None if the opponent has no king.
pub fn will_king_be_captured(position: &PartialPosition) -> (r: Option<bool>)
    ensures
        r == king_capturable(position_fields(*position)),
{
    let ghost f = position_fields(*position);
    let side = side_to_move(position);
    let occupied = bb_not(vacant_bitboard(position));
    let ghost occ = bitboard_squares(occupied);
    assert(occ =~= f_occupied(f));
    let king = match king_position(position, side.flip()) {
        Some(x) => x,
        None => return None,
    };
    let ghost k = king.index as int;
    let ghost flip = side.spec_flip();
    let king_peripheral = crate::normal::king(king);
    let mine = player_bitboard(position, side);
    let my_bb_peripheral = bb_and(mine, king_peripheral);
    let near = !bb_is_empty(my_bb_peripheral);
    if near {
        if holds_piece_in(position, Piece { kind: PieceKind::King, color: side }, king_peripheral) {
            proof {
                lemma_neighbour_found(f, PieceKind::King, side, k, bitboard_squares(king_peripheral));
            }
            return Some(true);
        }
        if holds_piece_in(position, Piece { kind: PieceKind::ProBishop, color: side }, king_peripheral) {
            proof {
                lemma_neighbour_found(
                    f,
                    PieceKind::ProBishop,
                    side,
                    k,
                    bitboard_squares(king_peripheral),
                );
            }
            return Some(true);
        }
        if holds_piece_in(position, Piece { kind: PieceKind::ProRook, color: side }, king_peripheral) {
            proof {
                lemma_neighbour_found(f, PieceKind::ProRook, side, k, bitboard_squares(king_peripheral));
            }
            return Some(true);
        }
        if step_attacker(position, occupied, PieceKind::Pawn, side, king) {
            proof {
                lemma_attacker_found(f, PieceKind::Pawn, side, k);
            }
            return Some(true);
        }
        if step_attacker(position, occupied, PieceKind::Silver, side, king) {
            proof {
                lemma_attacker_found(f, PieceKind::Silver, side, k);
            }
            return Some(true);
        }
        if step_attacker(position, occupied, PieceKind::Gold, side, king) {
            proof {
                lemma_attacker_found(f, PieceKind::Gold, side, k);
            }
            return Some(true);
        }
        if step_attacker(position, occupied, PieceKind::ProPawn, side, king) {
            proof {
                lemma_attacker_found(f, PieceKind::ProPawn, side, k);
            }
            return Some(true);
        }
        if step_attacker(position, occupied, PieceKind::ProLance, side, king) {
            proof {
                lemma_attacker_found(f, PieceKind::ProLance, side, k);
            }
            return Some(true);
        }
        if step_attacker(position, occupied, PieceKind::ProKnight, side, king) {
            proof {
                lemma_attacker_found(f, PieceKind::ProKnight, side, k);
            }
            return Some(true);
        }
        if step_attacker(position, occupied, PieceKind::ProSilver, side, king) {
            proof {
                lemma_attacker_found(f, PieceKind::ProSilver, side, k);
            }
            return Some(true);
        }
    }
    // lance, knight
    let lances = piece_bitboard(position, Piece { kind: PieceKind::Lance, color: side });
    if !bb_is_empty(lances) {
        // from `king`, can a lance of the opponent reach a lance of `side`?
        let attack = crate::normal::lance_range(side.flip(), king, occupied);
        if holds_piece_in(position, Piece { kind: PieceKind::Lance, color: side }, attack) {
            proof {
                lemma_attacker_found(f, PieceKind::Lance, side, k);
            }
            return Some(true);
        }
    }
    let knights = piece_bitboard(position, Piece { kind: PieceKind::Knight, color: side });
    if !bb_is_empty(knights) {
        let attack = crate::normal::knight(side.flip(), king);
        if holds_piece_in(position, Piece { kind: PieceKind::Knight, color: side }, attack) {
            proof {
                lemma_attacker_found(f, PieceKind::Knight, side, k);
            }
            return Some(true);
        }
    }
    // bishops and rooks, promoted or not
    let bishops = bb_or(
        piece_bitboard(position, Piece { kind: PieceKind::Bishop, color: side }),
        piece_bitboard(position, Piece { kind: PieceKind::ProBishop, color: side }),
    );
    if !bb_is_empty(bishops) {
        let attack = crate::normal::bishop_range(king, occupied);
        if !bb_is_empty(bb_and(attack, bishops)) {
            proof {
                lemma_slider_found(
                    f,
                    side,
                    k,
                    PieceKind::Bishop,
                    PieceKind::ProBishop,
                    bitboard_squares(attack),
                    bitboard_squares(bishops),
                );
            }
            return Some(true);
        }
    }
    let rooks = bb_or(
        piece_bitboard(position, Piece { kind: PieceKind::Rook, color: side }),
        piece_bitboard(position, Piece { kind: PieceKind::ProRook, color: side }),
    );
    if !bb_is_empty(rooks) {
        let attack = crate::normal::rook_range(king, occupied);
        if !bb_is_empty(bb_and(attack, rooks)) {
            proof {
                lemma_slider_found(
                    f,
                    side,
                    k,
                    PieceKind::Rook,
                    PieceKind::ProRook,
                    bitboard_squares(attack),
                    bitboard_squares(rooks),
                );
            }
            return Some(true);
        }
    }
    proof {
        lemma_no_attacker(
            f,
            side,
            k,
            bitboard_squares(king_peripheral),
            bitboard_squares(mine),
            bitboard_squares(bishops),
            Set::new(|to: int| crate::normal::diagonal_slide(f_occupied(f), k, to)),
            bitboard_squares(rooks),
            Set::new(|to: int| crate::normal::orthogonal_slide(f_occupied(f), k, to)),
        );
    }
    Some(false)
}

} // verus!
