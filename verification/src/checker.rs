//! Legality of moves, the state of a game, and the enumeration of legal moves.
use vstd::prelude::*;
use shogi_core::{Bitboard, PartialPosition};
use crate::bitboard::{
    bb_contains, bb_empty, bb_or, bb_pop, bb_single, bb_wf, bitboard_squares, lemma_bb_finite,
};
use crate::model::{after_move, f_occupied, f_piece, f_player_squares, f_side, f_vacant};
use crate::position::{
    clone_position, hand_count, make_move, piece_code_at, player_bitboard, position_fields,
    side_to_move, vacant_bitboard,
};
use crate::prelegality::{
    is_valid, is_valid_with_error, king_capturable, normal_error, spec_is_valid,
    spec_is_valid_with_error, will_king_be_captured,
};
use crate::types::{is_square_index, Color, IllegalMoveKind, Move, Piece, PieceKind, Square};

verus! {

/// A type for legality checking.
///
/// Methods of this type do not use constant tables.
/// They do not allocate unless it is necessary.
pub struct LiteLegalityChecker;

/// Whether `mv` is legal: valid, and after it the opponent cannot capture the
/// mover's king.
pub open spec fn spec_is_legal(f: Map<int, int>, mv: Move) -> bool {
    &&& spec_is_valid(f, mv)
    &&& after_move(f, mv) matches Some(g)
    &&& king_capturable(g) != Some(true)
}

/// Whether `mv` is legal and, when `only_checks` holds, puts the opponent in check.
pub open spec fn legal_and_checking(f: Map<int, int>, mv: Move, only_checks: bool) -> bool {
    spec_is_legal(f, mv) && (only_checks ==> (after_move(f, mv) matches Some(g)
        && crate::prelegality::spec_in_check(g)))
}

/// What `is_legal_partial` returns.
pub open spec fn spec_is_legal_with_error(f: Map<int, int>, mv: Move) -> Result<(), IllegalMoveKind> {
    match spec_is_valid_with_error(f, mv) {
        Err(e) => Err(e),
        Ok(()) => match after_move(f, mv) {
            None => Err(IllegalMoveKind::IncorrectMove),
            Some(g) => if king_capturable(g) == Some(true) {
                Err(IllegalMoveKind::IgnoredCheck)
            } else {
                Ok(())
            },
        },
    }
}

/// What a sequence holds after a push, and when it still has no duplicates.
pub proof fn lemma_push_no_duplicates<A>(s: Seq<A>, x: A)
    requires
        s.no_duplicates(),
        !s.contains(x),
    ensures
        s.push(x).no_duplicates(),
        forall|y: A| #[trigger] s.push(x).contains(y) <==> (s.contains(y) || y == x),
{
    assert forall|y: A| #[trigger] s.push(x).contains(y) <==> (s.contains(y) || y == x) by {
        crate::prelegality::lemma_push_contains(s, x, y);
    }
    assert forall|i: int, j: int|
        0 <= i < s.push(x).len() && 0 <= j < s.push(x).len() && i != j implies s.push(x)[i]
        != s.push(x)[j] by {
        if i == s.len() {
            assert(s.contains(s[j]));
        } else if j == s.len() {
            assert(s.contains(s[i]));
        }
    }
}

/// Appends to `result` the legal normal moves from `from` to the squares of
/// `candidates` (with promotion or without, as `promote` says); when
/// `only_checks` holds, only those after which the opponent is in check.
pub(crate) fn push_legal_normals(
    position: &PartialPosition,
    from: Square,
    candidates: Bitboard,
    promote: bool,
    only_checks: bool,
    result: &mut Vec<Move>,
)
    requires
        from.wf(),
        bb_wf(candidates),
        forall|to: int|
            #[trigger] bitboard_squares(candidates).contains(to) ==> normal_error(
                position_fields(*position),
                from,
                Square { index: to as u8 },
                promote,
            ) is None,
        old(result)@.no_duplicates(),
        forall|mv: Move|
            #[trigger] old(result)@.contains(mv) ==> !(mv is Normal && mv->from == from
                && mv->promote == promote),
    ensures
        final(result)@.no_duplicates(),
        forall|mv: Move|
            #[trigger] final(result)@.contains(mv) <==> (old(result)@.contains(mv) || (
            mv is Normal && mv->from == from && mv->promote == promote
                && bitboard_squares(candidates).contains(mv->Normal_to.index as int)
                && legal_and_checking(position_fields(*position), mv, only_checks))),
{
    let ghost f = position_fields(*position);
    let ghost start = result@;
    let ghost all = bitboard_squares(candidates);
    let mut rest = candidates;
    proof {
        lemma_bb_finite(rest);
    }
    loop
        invariant
            f == position_fields(*position),
            from.wf(),
            bb_wf(rest),
            bitboard_squares(rest).subset_of(all),
            forall|to: int|
                #[trigger] all.contains(to) ==> normal_error(
                    f,
                    from,
                    Square { index: to as u8 },
                    promote,
                ) is None,
            bb_wf(candidates),
            all == bitboard_squares(candidates),
            result@.no_duplicates(),
            forall|mv: Move|
                #[trigger] start.contains(mv) ==> !(mv is Normal && mv->from == from && mv->promote
                    == promote),
            forall|mv: Move|
                #[trigger] result@.contains(mv) <==> (start.contains(mv) || (mv is Normal
                    && mv->from == from && mv->promote == promote && all.contains(
                    mv->Normal_to.index as int,
                ) && !bitboard_squares(rest).contains(mv->Normal_to.index as int)
                    && legal_and_checking(f, mv, only_checks))),
        ensures
            bitboard_squares(rest) == Set::<int>::empty(),
        decreases bitboard_squares(rest).len(),
    {
        proof {
            lemma_bb_finite(rest);
        }
        let ghost before = bitboard_squares(rest);
        let to = match bb_pop(&mut rest) {
            Some(to) => to,
            None => break,
        };
        proof {
            lemma_bb_finite(rest);
            assert(bitboard_squares(rest).len() < before.len());
        }
        let mv = Move::Normal { from, to, promote };
        assert(Square { index: to.index as u8 } == to);
        let mut next = clone_position(position);
        let ok = make_move(&mut next, mv);
        let legal = ok && !matches!(will_king_be_captured(&next), Some(true));
        let wanted = legal && (!only_checks || crate::checks::is_in_check_partial_lite(&next));
        if wanted {
            proof {
                assert(!result@.contains(mv));
                lemma_push_no_duplicates(result@, mv);
            }
            result.push(mv);
        }
        proof {
            assert forall|m: Move| #[trigger] result@.contains(m) <==> (start.contains(m) || (m is Normal
                && m->from == from && m->promote == promote && all.contains(
                m->Normal_to.index as int,
            ) && !bitboard_squares(rest).contains(m->Normal_to.index as int) && legal_and_checking(
                f,
                m,
                only_checks,
            ))) by {
                if m is Normal && m->from == from && m->promote == promote && m->Normal_to.index
                    == to.index {
                    assert(m == mv);
                }
            }
        }
    }
}

/// Adds to `acc` the squares `to` of `candidates` for which the normal move
/// from `from` to `to` (with promotion or without, as `promote` says) is legal.
fn add_legal_targets(
    position: &PartialPosition,
    from: Square,
    candidates: Bitboard,
    promote: bool,
    acc: Bitboard,
) -> (r: Bitboard)
    requires
        from.wf(),
        bb_wf(candidates),
        bb_wf(acc),
        forall|to: int|
            #[trigger] bitboard_squares(candidates).contains(to) ==> normal_error(
                position_fields(*position),
                from,
                Square { index: to as u8 },
                promote,
            ) is None,
    ensures
        bb_wf(r),
        bitboard_squares(r) == bitboard_squares(acc).union(
            Set::new(
                |to: int|
                    bitboard_squares(candidates).contains(to) && spec_is_legal(
                        position_fields(*position),
                        Move::Normal { from, to: Square { index: to as u8 }, promote },
                    ),
            ),
        ),
{
    let ghost f = position_fields(*position);
    let ghost all = bitboard_squares(candidates);
    let mut rest = candidates;
    let mut result = acc;
    loop
        invariant
            f == position_fields(*position),
            from.wf(),
            bb_wf(rest),
            bb_wf(result),
            bitboard_squares(rest).subset_of(all),
            all == bitboard_squares(candidates),
            bb_wf(candidates),
            forall|to: int|
                #[trigger] all.contains(to) ==> normal_error(
                    f,
                    from,
                    Square { index: to as u8 },
                    promote,
                ) is None,
            bitboard_squares(result) == bitboard_squares(acc).union(
                Set::new(
                    |to: int|
                        all.contains(to) && !bitboard_squares(rest).contains(to) && spec_is_legal(
                            f,
                            Move::Normal { from, to: Square { index: to as u8 }, promote },
                        ),
                ),
            ),
        ensures
            bitboard_squares(rest) == Set::<int>::empty(),
        decreases bitboard_squares(rest).len(),
    {
        proof {
            lemma_bb_finite(rest);
        }
        let ghost before = bitboard_squares(rest);
        let to = match bb_pop(&mut rest) {
            Some(to) => to,
            None => break,
        };
        proof {
            lemma_bb_finite(rest);
        }
        let mv = Move::Normal { from, to, promote };
        assert(Square { index: to.index as u8 } == to);
        let mut next = clone_position(position);
        let ok = make_move(&mut next, mv);
        if ok && !matches!(will_king_be_captured(&next), Some(true)) {
            result = bb_or(result, bb_single(to));
        }
        assert(bitboard_squares(result) =~= bitboard_squares(acc).union(
            Set::new(
                |t: int|
                    all.contains(t) && !bitboard_squares(rest).contains(t) && spec_is_legal(
                        f,
                        Move::Normal { from, to: Square { index: t as u8 }, promote },
                    ),
            ),
        ));
    }
    assert(bitboard_squares(result) =~= bitboard_squares(acc).union(
        Set::new(
            |to: int|
                all.contains(to) && spec_is_legal(
                    f,
                    Move::Normal { from, to: Square { index: to as u8 }, promote },
                ),
        ),
    ));
    result
}

/// How many pieces of a kind there may be in all: 18 pawns, 4 lances, knights,
/// silvers and golds, 2 bishops and rooks.
pub open spec fn piece_limit(k: PieceKind) -> int {
    match k {
        PieceKind::Pawn => 18,
        PieceKind::Lance | PieceKind::Knight | PieceKind::Silver | PieceKind::Gold => 4,
        PieceKind::Bishop | PieceKind::Rook => 2,
        _ => 0,
    }
}

/// The squares holding a piece of kind `k`, promoted or not.
pub open spec fn kind_squares(f: Map<int, int>, k: PieceKind) -> Set<int> {
    match k.spec_promote() {
        Some(pk) => crate::model::f_kind_squares(f, k).union(crate::model::f_kind_squares(f, pk)),
        None => crate::model::f_kind_squares(f, k),
    }
}

/// How many pieces of kind `k` there are, promoted or not, on the board and in
/// both hands.
pub open spec fn piece_total(f: Map<int, int>, k: PieceKind) -> int {
    kind_squares(f, k).len() + crate::model::f_hand(f, Color::Black, k) + crate::model::f_hand(
        f,
        Color::White,
        k,
    )
}

/// Whether there are more pieces of some kind than the game has.
pub open spec fn too_many_pieces(f: Map<int, int>) -> bool {
    exists|c: int|
        1 <= c <= 7 && #[trigger] piece_total(f, crate::types::kind_from_code(c).unwrap())
            > piece_limit(crate::types::kind_from_code(c).unwrap())
}

/// What `status_partial` returns: the player to move loses when it is mated;
/// a position with too many pieces of a kind is invalid.
pub open spec fn spec_status_partial(f: Map<int, int>) -> crate::types::PositionStatus {
    if crate::prelegality::spec_is_mate(f) == Some(true) {
        match f_side(f) {
            Color::Black => crate::types::PositionStatus::WhiteWins,
            Color::White => crate::types::PositionStatus::BlackWins,
        }
    } else if too_many_pieces(f) {
        crate::types::PositionStatus::Invalid
    } else {
        crate::types::PositionStatus::InProgress
    }
}

impl LiteLegalityChecker {
    /// Checks whether `mv` is legal in `position`.
    pub fn is_legal_partial_lite(&self, position: &PartialPosition, mv: Move) -> (b: bool)
        requires
            mv.wf(),
        ensures
            b == spec_is_legal(position_fields(*position), mv),
    {
        if !is_valid(position, mv) {
            return false;
        }
        let mut next = clone_position(position);
        if !make_move(&mut next, mv) {
            return false;
        }
        if let Some(true) = will_king_be_captured(&next) {
            return false;
        }
        true
    }

    /// Checks whether `mv` is legal in `position`, saying why when it is not.
    pub fn is_legal_partial(&self, position: &PartialPosition, mv: Move) -> (r: Result<
        (),
        IllegalMoveKind,
    >)
        requires
            mv.wf(),
        ensures
            r == spec_is_legal_with_error(position_fields(*position), mv),
    {
        is_valid_with_error(position, mv)?;
        let mut next = clone_position(position);
        if !make_move(&mut next, mv) {
            return Err(IllegalMoveKind::IncorrectMove);
        }
        if let Some(true) = will_king_be_captured(&next) {
            return Err(IllegalMoveKind::IgnoredCheck);
        }
        Ok(())
    }

    /// Appends to `result` the legal drops of `piece`.
    fn push_legal_drops(&self, position: &PartialPosition, piece: Piece, result: &mut Vec<Move>)
        requires
            old(result)@.no_duplicates(),
            forall|mv: Move|
                #[trigger] old(result)@.contains(mv) ==> !(mv is Drop && mv->piece == piece),
        ensures
            final(result)@.no_duplicates(),
            forall|mv: Move|
                #[trigger] final(result)@.contains(mv) <==> (old(result)@.contains(mv) || (
                mv is Drop && mv->piece == piece && spec_is_legal(position_fields(*position), mv))),
    {
        let ghost f = position_fields(*position);
        let ghost start = result@;
        let mut rest = vacant_bitboard(position);
        let ghost all = bitboard_squares(rest);
        loop
            invariant
                f == position_fields(*position),
                all == f_vacant(f),
                bb_wf(rest),
                bitboard_squares(rest).subset_of(all),
                result@.no_duplicates(),
                forall|mv: Move| #[trigger] start.contains(mv) ==> !(mv is Drop && mv->piece == piece),
                forall|mv: Move|
                    #[trigger] result@.contains(mv) <==> (start.contains(mv) || (mv is Drop
                        && mv->piece == piece && all.contains(mv->Drop_to.index as int)
                        && !bitboard_squares(rest).contains(mv->Drop_to.index as int)
                        && spec_is_legal(f, mv))),
            ensures
                bitboard_squares(rest) == Set::<int>::empty(),
            decreases bitboard_squares(rest).len(),
        {
            proof {
                lemma_bb_finite(rest);
            }
            let to = match bb_pop(&mut rest) {
                Some(to) => to,
                None => break,
            };
            proof {
                lemma_bb_finite(rest);
            }
            let mv = Move::Drop { piece, to };
            if self.is_legal_partial_lite(position, mv) {
                proof {
                    assert(!result@.contains(mv));
                    lemma_push_no_duplicates(result@, mv);
                }
                result.push(mv);
            }
            proof {
                assert forall|m: Move| #[trigger] result@.contains(m) <==> (start.contains(m) || (m is Drop
                    && m->piece == piece && all.contains(m->Drop_to.index as int)
                    && !bitboard_squares(rest).contains(m->Drop_to.index as int) && spec_is_legal(
                    f,
                    m,
                ))) by {
                    if m is Drop && m->piece == piece && m->Drop_to.index == to.index {
                        assert(m == mv);
                    }
                }
            }
        }
        assert forall|mv: Move| #[trigger] result@.contains(mv) <==> (start.contains(mv) || (mv is Drop
            && mv->piece == piece && spec_is_legal(f, mv))) by {
            if mv is Drop && mv->piece == piece && spec_is_legal(f, mv) {
                assert(all.contains(mv->Drop_to.index as int));
            }
        }
    }

    /// All legal moves in `position`, each once.
    pub fn all_legal_moves_partial(&self, position: &PartialPosition) -> (result: Vec<Move>)
        ensures
            result@.no_duplicates(),
            forall|mv: Move| #[trigger] result@.contains(mv) <==> spec_is_legal(position_fields(*position), mv),
    {
        let ghost f = position_fields(*position);
        let side = side_to_move(position);
        let mut my_bb = player_bitboard(position, side);
        let ghost mine = bitboard_squares(my_bb);
        let mut result: Vec<Move> = Vec::new();
        loop
            invariant
                f == position_fields(*position),
                side.code() == f[95],
                mine == f_player_squares(f, side),
                bb_wf(my_bb),
                bitboard_squares(my_bb).subset_of(mine),
                result@.no_duplicates(),
                forall|mv: Move|
                    #[trigger] result@.contains(mv) <==> (mv is Normal && mine.contains(
                        mv->from.index as int,
                    ) && !bitboard_squares(my_bb).contains(mv->from.index as int) && spec_is_legal(
                        f,
                        mv,
                    )),
            ensures
                bitboard_squares(my_bb) == Set::<int>::empty(),
            decreases bitboard_squares(my_bb).len(),
        {
            proof {
                lemma_bb_finite(my_bb);
            }
            let from = match bb_pop(&mut my_bb) {
                Some(from) => from,
                None => break,
            };
            proof {
                lemma_bb_finite(my_bb);
            }
            let (c0, c1) = crate::prelegality::normal_from_candidates(position, from);
            let ghost r0 = result@;
            push_legal_normals(position, from, c0, false, false, &mut result);
            push_legal_normals(position, from, c1, true, false, &mut result);
            proof {
                assert forall|mv: Move| #[trigger] result@.contains(mv) <==> (mv is Normal
                    && mine.contains(mv->from.index as int) && !bitboard_squares(my_bb).contains(
                    mv->from.index as int,
                ) && spec_is_legal(f, mv)) by {
                    if mv is Normal && mv->from.index == from.index {
                        assert(mv->from == from);
                        let t = mv->Normal_to;
                        assert(Square { index: t.index as u8 } == t);
                    }
                }
            }
        }
        let mut k: u8 = 1;
        while k <= 7
            invariant
                1 <= k <= 8,
                f == position_fields(*position),
                side.code() == f[95],
                result@.no_duplicates(),
                forall|mv: Move|
                    #[trigger] result@.contains(mv) <==> (spec_is_legal(f, mv) && (mv is Normal || (
                    mv is Drop && mv->piece.kind.code() < k))),
            decreases 8 - k,
        {
            let kind = PieceKind::from_code(k).unwrap();
            let piece = Piece { kind, color: side };
            let count = hand_count(position, piece).unwrap();
            if count != 0 {
                self.push_legal_drops(position, piece, &mut result);
            }
            proof {
                assert forall|mv: Move| #[trigger] result@.contains(mv) <==> (spec_is_legal(f, mv) && (
                mv is Normal || (mv is Drop && mv->piece.kind.code() < k + 1))) by {
                    if mv is Drop && mv->piece.kind.code() == k && spec_is_legal(f, mv) {
                        assert(mv->piece == piece);
                    }
                }
            }
            k = k + 1;
        }
        result
    }

    /// The squares to which the piece on `from` can legally move.
    pub fn normal_from_candidates(&self, position: &PartialPosition, from: Square) -> (b: Bitboard)
        requires
            from.wf(),
        ensures
            bb_wf(b),
            bitboard_squares(b) == Set::new(
                |to: int|
                    is_square_index(to) && (spec_is_legal(
                        position_fields(*position),
                        Move::Normal { from, to: Square { index: to as u8 }, promote: false },
                    ) || spec_is_legal(
                        position_fields(*position),
                        Move::Normal { from, to: Square { index: to as u8 }, promote: true },
                    )),
            ),
    {
        let ghost f = position_fields(*position);
        let side = side_to_move(position);
        let my_bb = player_bitboard(position, side);
        if !bb_contains(my_bb, from) {
            let e = bb_empty();
            assert(bitboard_squares(e) =~= Set::new(
                |to: int|
                    is_square_index(to) && (spec_is_legal(
                        f,
                        Move::Normal { from, to: Square { index: to as u8 }, promote: false },
                    ) || spec_is_legal(
                        f,
                        Move::Normal { from, to: Square { index: to as u8 }, promote: true },
                    )),
            ));
            return e;
        }
        let (c0, c1) = crate::prelegality::normal_from_candidates(position, from);
        let result = add_legal_targets(position, from, c0, false, bb_empty());
        let result = add_legal_targets(position, from, c1, true, result);
        assert(bitboard_squares(result) =~= Set::new(
            |to: int|
                is_square_index(to) && (spec_is_legal(
                    f,
                    Move::Normal { from, to: Square { index: to as u8 }, promote: false },
                ) || spec_is_legal(
                    f,
                    Move::Normal { from, to: Square { index: to as u8 }, promote: true },
                )),
        ));
        result
    }

    /// The squares from which `piece` can legally move to `to`.
    pub fn normal_to_candidates(&self, position: &PartialPosition, to: Square, piece: Piece) -> (b:
        Bitboard)
        requires
            to.wf(),
        ensures
            bb_wf(b),
            bitboard_squares(b) == Set::new(
                |from: int|
                    is_square_index(from) && f_piece(position_fields(*position), from) == Some(piece)
                        && (spec_is_legal(
                        position_fields(*position),
                        Move::Normal { from: Square { index: from as u8 }, to, promote: true },
                    ) || spec_is_legal(
                        position_fields(*position),
                        Move::Normal { from: Square { index: from as u8 }, to, promote: false },
                    )),
            ),
    {
        let ghost f = position_fields(*position);
        let mut result = bb_empty();
        let mut i: u8 = 1;
        while i <= 81
            invariant
                1 <= i <= 82,
                to.wf(),
                f == position_fields(*position),
                bb_wf(result),
                bitboard_squares(result) == Set::new(
                    |from: int|
                        1 <= from < i && f_piece(f, from) == Some(piece) && (spec_is_legal(
                            f,
                            Move::Normal { from: Square { index: from as u8 }, to, promote: true },
                        ) || spec_is_legal(
                            f,
                            Move::Normal { from: Square { index: from as u8 }, to, promote: false },
                        )),
                ),
            decreases 82 - i,
        {
            let from = Square { index: i };
            let code = piece_code_at(position, from);
            proof {
                crate::prelegality::lemma_code_is_piece(code as int, piece);
            }
            let legal = self.is_legal_partial_lite(position, Move::Normal { from, to, promote: true })
                || self.is_legal_partial_lite(position, Move::Normal { from, to, promote: false });
            if legal && code == piece.to_code() {
                result = bb_or(result, bb_single(from));
            }
            assert(bitboard_squares(result) =~= Set::new(
                |fr: int|
                    1 <= fr < i + 1 && f_piece(f, fr) == Some(piece) && (spec_is_legal(
                        f,
                        Move::Normal { from: Square { index: fr as u8 }, to, promote: true },
                    ) || spec_is_legal(
                        f,
                        Move::Normal { from: Square { index: fr as u8 }, to, promote: false },
                    )),
            ));
            i = i + 1;
        }
        assert(bitboard_squares(result) =~= Set::new(
            |from: int|
                is_square_index(from) && f_piece(f, from) == Some(piece) && (spec_is_legal(
                    f,
                    Move::Normal { from: Square { index: from as u8 }, to, promote: true },
                ) || spec_is_legal(
                    f,
                    Move::Normal { from: Square { index: from as u8 }, to, promote: false },
                )),
        ));
        result
    }

    /// The squares on which `piece` can legally be dropped.
    pub fn drop_candidates(&self, position: &PartialPosition, piece: Piece) -> (b: Bitboard)
        ensures
            bb_wf(b),
            bitboard_squares(b) == Set::new(
                |to: int|
                    is_square_index(to) && spec_is_legal(
                        position_fields(*position),
                        Move::Drop { piece, to: Square { index: to as u8 } },
                    ),
            ),
    {
        let ghost f = position_fields(*position);
        let mut result = bb_empty();
        let mut i: u8 = 1;
        while i <= 81
            invariant
                1 <= i <= 82,
                f == position_fields(*position),
                bb_wf(result),
                bitboard_squares(result) == Set::new(
                    |to: int|
                        1 <= to < i && spec_is_legal(
                            f,
                            Move::Drop { piece, to: Square { index: to as u8 } },
                        ),
                ),
            decreases 82 - i,
        {
            let to = Square { index: i };
            if self.is_legal_partial_lite(position, Move::Drop { piece, to }) {
                result = bb_or(result, bb_single(to));
            }
            assert(bitboard_squares(result) =~= Set::new(
                |t: int|
                    1 <= t < i + 1 && spec_is_legal(f, Move::Drop { piece, to: Square { index: t as u8 } }),
            ));
            i = i + 1;
        }
        assert(bitboard_squares(result) =~= Set::new(
            |t: int|
                is_square_index(t) && spec_is_legal(f, Move::Drop { piece, to: Square { index: t as u8 } }),
        ));
        result
    }

    /// The state of the game that `position` shows, without its history: the
    /// player to move has lost when it is mated, and a position with more
    /// pieces of a kind than the game has is invalid.
    pub fn status_partial(&self, position: &PartialPosition) -> (r: crate::types::PositionStatus)
        ensures
            r == spec_status_partial(position_fields(*position)),
    {
        let ghost f = position_fields(*position);
        let side = side_to_move(position);
        if let Some(true) = crate::prelegality::is_mate(position) {
            return match side {
                Color::Black => crate::types::PositionStatus::WhiteWins,
                Color::White => crate::types::PositionStatus::BlackWins,
            };
        }
        let mut k: u8 = 1;
        while k <= 7
            invariant
                1 <= k <= 8,
                f == position_fields(*position),
                crate::prelegality::spec_is_mate(f) != Some(true),
                forall|c: int|
                    1 <= c < k ==> #[trigger] piece_total(f, crate::types::kind_from_code(c).unwrap())
                        <= piece_limit(crate::types::kind_from_code(c).unwrap()),
            decreases 8 - k,
        {
            let kind = PieceKind::from_code(k).unwrap();
            let limit: u16 = match kind {
                PieceKind::Pawn => 18,
                PieceKind::Bishop | PieceKind::Rook => 2,
                _ => 4,
            };
            let mut bb = crate::position::piece_kind_bitboard(position, kind);
            if let Some(promoted) = kind.promote() {
                bb = bb_or(bb, crate::position::piece_kind_bitboard(position, promoted));
            }
            proof {
                lemma_bb_finite(bb);
            }
            let on_board = crate::bitboard::bb_count(bb) as u16;
            let in_black = hand_count(position, Piece { kind, color: Color::Black }).unwrap() as u16;
            let in_white = hand_count(position, Piece { kind, color: Color::White }).unwrap() as u16;
            let count = on_board + in_black + in_white;
            assert(count == piece_total(f, kind));
            if count > limit {
                assert(piece_total(f, crate::types::kind_from_code(k as int).unwrap()) > piece_limit(
                    crate::types::kind_from_code(k as int).unwrap(),
                ));
                return crate::types::PositionStatus::Invalid;
            }
            k = k + 1;
        }
        crate::types::PositionStatus::InProgress
    }
}

} // verus!
