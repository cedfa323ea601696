//! Games, held in `shogi_core::Position`: where a game started, the moves made
//! since, and where it stands; and the status of a game, repetition included.
use vstd::prelude::*;
use shogi_core::{PartialPosition, Position};
use crate::checker::{spec_status_partial, LiteLegalityChecker};
use crate::model::{after_move, fields_valid, same_board_hands_side_ply};
use crate::position::{clone_position, make_move, position_fields};
use crate::types::{Move, Piece, PositionStatus, Square};

verus! {

#[verifier::external_type_specification]
#[verifier::external_body]
pub struct ExPosition(shogi_core::Position);

/// What `Position::inner` gives: the fields of the position the game stands in.
pub uninterp spec fn game_current(game: Position) -> Map<int, int>;

/// What `Position::initial_position` gives: the fields of the position the game
/// started from.
pub uninterp spec fn game_initial(game: Position) -> Map<int, int>;

/// What `Position::moves` gives: the moves made since the start, in order.
pub uninterp spec fn game_moves(game: Position) -> Seq<Move>;

/// What `PartialPosition::to_sfen_owned` writes for a position with these
/// fields: its SFEN text (board, player to move, hands and ply).
pub uninterp spec fn sfen_of(f: Map<int, int>) -> Seq<char>;

/// `Position::inner`: the position the game stands in.
#[verifier::external_body]
fn current_position(game: &Position) -> (p: &PartialPosition)
    ensures
        position_fields(*p) == game_current(*game),
{
    game.inner()
}

/// `Position::initial_position`: the position the game started from.
#[verifier::external_body]
fn initial_position(game: &Position) -> (p: &PartialPosition)
    ensures
        position_fields(*p) == game_initial(*game),
{
    game.initial_position()
}

/// `Position::moves`: the moves made since the start, each with its squares on
/// the board (a `shogi_core::Square` always is).
#[verifier::external_body]
fn moves_of(game: &Position) -> (moves: Vec<Move>)
    ensures
        moves@ == game_moves(*game),
        forall|i: int| 0 <= i < moves@.len() ==> (#[trigger] moves@[i]).wf(),
{
    let sq = |s: shogi_core::Square| Square { index: s.index() };
    let mut out = Vec::new();
    for m in game.moves() {
        out.push(match *m {
            shogi_core::Move::Normal { from, to, promote } => Move::Normal { from: sq(from), to: sq(to), promote },
            shogi_core::Move::Drop { piece, to } => Move::Drop {
                piece: Piece::from_code(piece.as_u8()).unwrap(),
                to: sq(to),
            },
        });
    }
    out
}

/// `PartialPosition::ply_set`: sets the ply when it is not zero, and reports
/// whether it did.
#[verifier::external_body]
fn set_ply(position: &mut PartialPosition, ply: u16) -> (ok: bool)
    ensures
        ok == (ply != 0),
        ok ==> position_fields(*final(position)) == position_fields(*old(position)).insert(
            96,
            ply as int,
        ),
        !ok ==> position_fields(*final(position)) == position_fields(*old(position)),
{
    position.ply_set(ply)
}

/// `PartialPosition::to_sfen_owned`: the SFEN text of the position. The text
/// writes out the pieces of every square, both hands, the player to move and
/// the ply, so a position that can be held and has the same text agrees with
/// this one on all of these.
#[verifier::external_body]
fn sfen(position: &PartialPosition) -> (s: String)
    ensures
        s@ == sfen_of(position_fields(*position)),
        forall|g: Map<int, int>|
            fields_valid(g) && #[trigger] sfen_of(g) == s@ ==> same_board_hands_side_ply(
                g,
                position_fields(*position),
            ),
{
    position.to_sfen_owned()
}

/// A position with its ply count set to one, so that positions reached at
/// different times compare equal.
pub open spec fn first_ply(f: Map<int, int>) -> Map<int, int> {
    f.insert(96, 1)
}

/// The position, ply count set to one, after the first `k` of `moves` from
/// `f0`; `None` once one of them cannot be made.
pub open spec fn replay(f0: Map<int, int>, moves: Seq<Move>, k: nat) -> Option<Map<int, int>>
    decreases k,
{
    if k == 0 {
        Some(first_ply(f0))
    } else {
        match replay(f0, moves, (k - 1) as nat) {
            Some(g) => match after_move(g, moves[k - 1]) {
                Some(h) => Some(first_ply(h)),
                None => None,
            },
            None => None,
        }
    }
}

/// The SFEN text of the position after the first `k` moves, ply count set to one.
pub open spec fn history(f0: Map<int, int>, moves: Seq<Move>, k: nat) -> Seq<char> {
    sfen_of(replay(f0, moves, k).unwrap())
}

/// How many of the first `j` positions of the game have the text of the
/// position after move `i + 1`.
pub open spec fn earlier_matches(f0: Map<int, int>, moves: Seq<Move>, i: nat, j: nat) -> nat
    decreases j,
{
    if j == 0 {
        0
    } else {
        earlier_matches(f0, moves, i, (j - 1) as nat) + if history(f0, moves, (j - 1) as nat)
            == history(f0, moves, i + 1) {
            1nat
        } else {
            0nat
        }
    }
}

/// Whether, among the first `n` moves, one leads to a position that appeared
/// three times before it: the fourth appearance.
pub open spec fn repeated_within(f0: Map<int, int>, moves: Seq<Move>, n: nat) -> bool {
    exists|i: nat| i < n && #[trigger] earlier_matches(f0, moves, i, i + 1) >= 3
}

/// The status of a game: that of the position it stands in unless that is "in
/// progress"; then `Invalid` when a move of the record cannot be replayed from
/// the start, `Draw` when a position appeared for the fourth time, and "in
/// progress" otherwise.
pub open spec fn spec_status(current: Map<int, int>, f0: Map<int, int>, moves: Seq<Move>) -> PositionStatus {
    let r = spec_status_partial(current);
    if r != PositionStatus::InProgress {
        r
    } else if replay(f0, moves, moves.len()) is None {
        PositionStatus::Invalid
    } else if repeated_within(f0, moves, moves.len()) {
        PositionStatus::Draw
    } else {
        PositionStatus::InProgress
    }
}

/// How many of the first `n` positions of the game (after 0 to `n - 1` moves)
/// have the text of the position after `k` moves.
pub open spec fn appearances(f0: Map<int, int>, moves: Seq<Move>, k: nat, n: nat) -> nat
    decreases n,
{
    if n == 0 {
        0
    } else {
        appearances(f0, moves, k, (n - 1) as nat) + if history(f0, moves, (n - 1) as nat) == history(
            f0,
            moves,
            k,
        ) {
            1nat
        } else {
            0nat
        }
    }
}

proof fn lemma_earlier_matches_are_appearances(f0: Map<int, int>, moves: Seq<Move>, i: nat, j: nat)
    ensures
        earlier_matches(f0, moves, i, j) == appearances(f0, moves, i + 1, j),
    decreases j,
{
    if j > 0 {
        lemma_earlier_matches_are_appearances(f0, moves, i, (j - 1) as nat);
    }
}

proof fn lemma_appearances_grow(f0: Map<int, int>, moves: Seq<Move>, k: nat, m: nat, n: nat)
    requires
        m <= n,
    ensures
        appearances(f0, moves, k, m) <= appearances(f0, moves, k, n),
    decreases n - m,
{
    if m < n {
        lemma_appearances_grow(f0, moves, k, m, (n - 1) as nat);
    }
}

proof fn lemma_appearances_same_text(f0: Map<int, int>, moves: Seq<Move>, k: nat, t: nat, n: nat)
    requires
        history(f0, moves, k) == history(f0, moves, t),
    ensures
        appearances(f0, moves, k, n) == appearances(f0, moves, t, n),
    decreases n,
{
    if n > 0 {
        lemma_appearances_same_text(f0, moves, k, t, (n - 1) as nat);
    }
}

proof fn lemma_fourth_appearance(f0: Map<int, int>, moves: Seq<Move>, k: nat, m: nat)
    requires
        appearances(f0, moves, k, m) >= 4,
    ensures
        exists|t: nat|
            t < m && #[trigger] appearances(f0, moves, k, t) == 3 && history(f0, moves, t) == history(
                f0,
                moves,
                k,
            ),
    decreases m,
{
    if appearances(f0, moves, k, (m - 1) as nat) >= 4 {
        lemma_fourth_appearance(f0, moves, k, (m - 1) as nat);
        let t = choose|t: nat|
            t < m - 1 && #[trigger] appearances(f0, moves, k, t) == 3 && history(f0, moves, t)
                == history(f0, moves, k);
    } else {
        assert(appearances(f0, moves, k, (m - 1) as nat) == 3);
    }
}

/// A game is drawn by repetition exactly when one of its positions (after 0
/// to `n` moves) appears four times among them.
pub proof fn lemma_draw_is_fourth_appearance(f0: Map<int, int>, moves: Seq<Move>, n: nat)
    ensures
        repeated_within(f0, moves, n) <==> exists|k: nat|
            k <= n && #[trigger] appearances(f0, moves, k, n + 1) >= 4,
{
    if repeated_within(f0, moves, n) {
        let i = choose|i: nat| i < n && #[trigger] earlier_matches(f0, moves, i, i + 1) >= 3;
        lemma_earlier_matches_are_appearances(f0, moves, i, i + 1);
        assert(appearances(f0, moves, i + 1, i + 2) >= 4);
        lemma_appearances_grow(f0, moves, i + 1, i + 2, n + 1);
        assert(appearances(f0, moves, i + 1, n + 1) >= 4);
    }
    if exists|k: nat| k <= n && #[trigger] appearances(f0, moves, k, n + 1) >= 4 {
        let k = choose|k: nat| k <= n && #[trigger] appearances(f0, moves, k, n + 1) >= 4;
        lemma_fourth_appearance(f0, moves, k, n + 1);
        let t = choose|t: nat|
            t < n + 1 && #[trigger] appearances(f0, moves, k, t) == 3 && history(f0, moves, t)
                == history(f0, moves, k);
        assert(t > 0);
        lemma_appearances_same_text(f0, moves, k, t, t);
        let i = (t - 1) as nat;
        lemma_earlier_matches_are_appearances(f0, moves, i, t);
        assert(earlier_matches(f0, moves, i, i + 1) >= 3);
    }
}

/// A move that cannot be replayed stops every later one.
proof fn lemma_replay_stops(f0: Map<int, int>, moves: Seq<Move>, k: nat, n: nat)
    requires
        k <= n,
        replay(f0, moves, k) is None,
    ensures
        replay(f0, moves, n) is None,
    decreases n - k,
{
    if k < n {
        lemma_replay_stops(f0, moves, k + 1, n);
    }
}

impl LiteLegalityChecker {
    /// The status of a game: that of its current position, and then whether a
    /// position has appeared four times (a draw by repetition). The game is
    /// replayed from its initial position, and positions are compared by their
    /// SFEN text with the ply count set to one.
    pub fn status(&self, position: &Position) -> (r: PositionStatus)
        ensures
            r == spec_status(game_current(*position), game_initial(*position), game_moves(*position)),
    {
        let result = self.status_partial(current_position(position));
        if result != PositionStatus::InProgress {
            return result;
        }
        let ghost f0 = game_initial(*position);
        // repetition check, takes O(length^2)-time
        let moves = moves_of(position);
        let ghost ms = moves@;
        let length = moves.len();
        let mut history_texts: Vec<String> = Vec::new();
        let mut current = clone_position(initial_position(position));
        let _ = set_ply(&mut current, 1);
        history_texts.push(sfen(&current));
        let mut repeated = false;
        let mut i: usize = 0;
        while i < length
            invariant
                ms == moves@,
                ms == game_moves(*position),
                f0 == game_initial(*position),
                spec_status_partial(game_current(*position)) == PositionStatus::InProgress,
                length == ms.len(),
                forall|k: int| 0 <= k < ms.len() ==> (#[trigger] ms[k]).wf(),
                i <= length,
                replay(f0, ms, i as nat) == Some(position_fields(current)),
                history_texts@.len() == i + 1,
                forall|k: int| 0 <= k <= i ==> (#[trigger] history_texts@[k])@ == history(f0, ms, k as nat),
                repeated == repeated_within(f0, ms, i as nat),
            decreases length - i,
        {
            let ok = make_move(&mut current, moves[i]);
            if !ok {
                proof {
                    assert(replay(f0, ms, (i + 1) as nat) is None);
                    lemma_replay_stops(f0, ms, (i + 1) as nat, length as nat);
                }
                return PositionStatus::Invalid;
            }
            let _ = set_ply(&mut current, 1);
            history_texts.push(sfen(&current));
            let mut eq: usize = 0;
            let mut j: usize = 0;
            while j < i + 1
                invariant
                    i < length,
                    history_texts@.len() == i + 2,
                    forall|k: int| 0 <= k <= i + 1 ==> (#[trigger] history_texts@[k])@ == history(f0, ms, k as nat),
                    j <= i + 1,
                    eq == earlier_matches(f0, ms, i as nat, j as nat),
                    eq <= j,
                decreases i + 1 - j,
            {
                if history_texts[i + 1] == history_texts[j] {
                    eq = eq + 1;
                }
                j = j + 1;
            }
            if eq >= 3 {
                // The same position appeared 4 times.
                repeated = true;
            }
            proof {
                if repeated_within(f0, ms, (i + 1) as nat) && !repeated_within(f0, ms, i as nat) {
                    let w = choose|w: nat| w < i + 1 && #[trigger] earlier_matches(f0, ms, w, w + 1) >= 3;
                    assert(w == i);
                }
                if eq >= 3 {
                    assert(earlier_matches(f0, ms, i as nat, (i + 1) as nat) >= 3);
                }
                if repeated_within(f0, ms, i as nat) {
                    let w = choose|w: nat| w < i && #[trigger] earlier_matches(f0, ms, w, w + 1) >= 3;
                    assert(w < i + 1);
                }
            }
            i = i + 1;
        }
        if repeated {
            return PositionStatus::Draw;
        }
        PositionStatus::InProgress
    }
}

} // verus!
