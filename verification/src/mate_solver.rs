//! A solver for mate problems (tsume): the attacker checks at every move.
use vstd::prelude::*;
use shogi_core::PartialPosition;
use crate::checker::{spec_is_legal, LiteLegalityChecker};
use crate::checks::{all_checks_partial, spec_is_check_move};
use crate::mate_value::{
    att_len, check_len, def_len, lemma_att_len, lemma_att_stable, lemma_check_keeps_king, lemma_check_len,
    lemma_check_move_wf, lemma_def_len, lemma_def_stable, lemma_len_shape, lemma_no_legal_move_is_mate,
    lemma_reply_len, reply_len,
};
use crate::model::{after_move, f_king, f_piece, f_side};
use crate::position::{clone_position, make_move, piece_code_at, position_fields, side_to_move};
use crate::prelegality::{is_mate, spec_is_mate};
use crate::types::{relative_rank_of, Color, Move};

verus! {

/// The outcome of a search: whether a mate was found, and the line of play
/// found, last move first.
#[derive(Debug, Clone, Default)]
pub struct MateResult {
    pub is_mate: bool,
    pub pv_rev: Vec<Move>,
}

/// How many positions were visited and moves followed in a search.
#[derive(Debug, Clone, Default)]
pub struct SearchStats {
    pub nodes: u64,
    pub edges: u64,
}

/// Whether `line`, written last move first, is a quickest mate that the
/// player to move in `f` delivers: no mate within fewer plies exists, its first
/// move is a check that starts a mate of that length, and the rest is a line
/// that the opponent loses from the position after it, defending longest.
#[verifier::opaque]
pub open spec fn attack_line(f: Map<int, int>, line: Seq<Move>) -> bool
    decreases line.len(),
{
    if line.len() == 0 {
        false
    } else {
        &&& att_len(f, line.len()) == Some(line.len())
        &&& spec_is_check_move(f, line.last())
        &&& check_len(f, line.last(), (line.len() - 1) as nat) == Some(line.len())
        &&& after_move(f, line.last()) matches Some(g) && defend_line(g, line.drop_last())
    }
}

/// Whether `line`, written last move first, is a longest defence of the player
/// to move in `f`: the defence lasts as many plies as the line; with no move
/// left, that player has no legal move; otherwise its first move is a legal
/// reply after which the mate takes that long, and the rest is a quickest mate
/// that the opponent delivers after it.
#[verifier::opaque]
pub open spec fn defend_line(f: Map<int, int>, line: Seq<Move>) -> bool
    decreases line.len(),
{
    &&& def_len(f, line.len()) == Some(line.len())
    &&& if line.len() == 0 {
        forall|mv: Move| !#[trigger] spec_is_legal(f, mv)
    } else {
        &&& spec_is_legal(f, line.last())
        &&& reply_len(f, line.last(), (line.len() - 1) as nat) == Some(line.len())
        &&& after_move(f, line.last()) matches Some(g) && attack_line(g, line.drop_last())
    }
}

/// Whether `line`, written last move first, starts with a check after which
/// the opponent's longest defence follows: a mate, quickest once no quicker one
/// exists.
#[verifier::opaque]
pub open spec fn check_then_defence(f: Map<int, int>, line: Seq<Move>) -> bool {
    &&& line.len() > 0
    &&& spec_is_check_move(f, line.last())
    &&& after_move(f, line.last()) matches Some(g) && defend_line(g, line.drop_last())
}

/// A check after which the opponent's longest defence follows is a quickest
/// mate, when no quicker one exists.
proof fn lemma_attack_line_push(f: Map<int, int>, line: Seq<Move>, mv: Move)
    requires
        spec_is_check_move(f, mv),
        after_move(f, mv) matches Some(g) && defend_line(g, line),
        att_len(f, line.len() + 1) == Some(line.len() + 1),
    ensures
        attack_line(f, line.push(mv)),
{
    reveal(attack_line);
    reveal(defend_line);
    lemma_check_len(f, mv, line.len());
    assert(line.push(mv).drop_last() =~= line);
}

/// A legal reply followed by the opponent's quickest mate is a longest
/// defence, when no longer one exists.
proof fn lemma_defend_line_push(f: Map<int, int>, line: Seq<Move>, mv: Move)
    requires
        spec_is_legal(f, mv),
        after_move(f, mv) matches Some(g) && attack_line(g, line),
        def_len(f, line.len() + 1) == Some(line.len() + 1),
    ensures
        defend_line(f, line.push(mv)),
{
    reveal(attack_line);
    reveal(defend_line);
    lemma_reply_len(f, mv, line.len());
    assert(line.push(mv).drop_last() =~= line);
}

/// With no move left, the line is lost when no move is legal and the player
/// to move is mated.
proof fn lemma_defend_line_empty(f: Map<int, int>)
    requires
        forall|mv: Move| !#[trigger] spec_is_legal(f, mv),
        spec_is_mate(f) == Some(true),
    ensures
        defend_line(f, Seq::empty()),
{
    reveal(defend_line);
}

/// The position after the first `k` moves of `line`, written last move first
/// (so move number `i` is `line[line.len() - 1 - i]`); `None` once one cannot
/// be made.
pub open spec fn play(f: Map<int, int>, line: Seq<Move>, k: nat) -> Option<Map<int, int>>
    decreases k,
{
    if k == 0 {
        Some(f)
    } else {
        match play(f, line, (k - 1) as nat) {
            Some(g) => after_move(g, line[line.len() - k]),
            None => None,
        }
    }
}

/// Playing a line is playing its first move, then the rest.
proof fn lemma_play_shift(f: Map<int, int>, line: Seq<Move>, k: nat)
    requires
        k < line.len(),
        after_move(f, line.last()) is Some,
    ensures
        play(f, line, k + 1) == play(after_move(f, line.last()).unwrap(), line.drop_last(), k),
    decreases k,
{
    reveal_with_fuel(play, 2);
    if k > 0 {
        lemma_play_shift(f, line, (k - 1) as nat);
        assert(line.drop_last()[line.drop_last().len() - k] == line[line.len() - (k + 1)]);
    }
}

/// What holds of a move of a quickest mate with `r` plies left, this move
/// included. The attacker's move is a check that starts a mate of `r` plies,
/// and none quicker exists; it is legal when it moves a piece, and valid when
/// it drops one (a drop is not tested for leaving the attacker's own king in
/// check). The defender's move is legal and delays the mate to `r` plies, the
/// longest defence there is.
pub open spec fn mate_step(q: Map<int, int>, mv: Move, r: nat, attacker: bool) -> bool {
    if attacker {
        &&& spec_is_check_move(q, mv)
        &&& check_len(q, mv, (r - 1) as nat) == Some(r)
        &&& att_len(q, r) == Some(r)
        &&& mv is Normal ==> spec_is_legal(q, mv)
        &&& mv is Drop ==> crate::prelegality::spec_is_valid(q, mv)
    } else {
        &&& spec_is_legal(q, mv)
        &&& reply_len(q, mv, (r - 1) as nat) == Some(r)
        &&& def_len(q, r) == Some(r)
    }
}

/// A mate, played move by move from the first: it has an odd number of moves;
/// each position along it is reached, and its moves are in turn the
/// attacker's quickest checks and the defender's longest legal replies (see
/// `mate_step`); after the last one the defender, whose king is recorded, has
/// no legal move and is mated.
#[verifier::rlimit(100)]
#[verifier::spinoff_prover]
pub proof fn lemma_mate_line_moves(f: Map<int, int>, line: Seq<Move>)
    requires
        attack_line(f, line),
    ensures
        line.len() % 2 == 1,
        forall|k: nat|
            k < line.len() ==> (#[trigger] play(f, line, k) matches Some(q) && mate_step(
                q,
                line[line.len() - 1 - k],
                (line.len() - k) as nat,
                k % 2 == 0,
            )),
        play(f, line, line.len()) matches Some(q) && (forall|mv: Move| !#[trigger] spec_is_legal(q, mv))
            && spec_is_mate(q) == Some(true),
    decreases line.len(),
{
    reveal(attack_line);
    reveal(defend_line);
    let n = line.len();
    let m0 = line.last();
    let g = after_move(f, m0).unwrap();
    let rest = line.drop_last();
    lemma_check_keeps_king(f, m0);
    if m0 is Drop {
        crate::laws::lemma_check_drops_valid(f, m0);
    }
    assert(mate_step(f, m0, n, true));
    assert(play(f, line, 1) == Some(g));
    assert(play(f, line, 0) == Some(f));
    if rest.len() == 0 {
        lemma_no_legal_move_is_mate(g);
    } else {
        let m1 = rest.last();
        let h = after_move(g, m1).unwrap();
        let line2 = rest.drop_last();
        assert(mate_step(g, m1, (n - 1) as nat, false));
        lemma_mate_line_moves(h, line2);
        assert forall|k: nat| k + 2 <= n implies #[trigger] play(f, line, k + 2) == play(h, line2, k) by {
            lemma_play_shift(f, line, (k + 1) as nat);
            lemma_play_shift(g, rest, k);
        }
        assert(play(f, line, 2) == Some(h)) by {
            lemma_play_shift(f, line, 1);
            lemma_play_shift(g, rest, 0);
        }
        assert forall|k: nat| k < n implies (#[trigger] play(f, line, k) matches Some(q) && mate_step(
            q,
            line[n - 1 - k],
            (n - k) as nat,
            k % 2 == 0,
        )) by {
            if k == 0 {
            } else if k == 1 {
            } else {
                let k2 = (k - 2) as nat;
                assert(play(f, line, k2 + 2) == play(h, line2, k2));
                assert(line2[line2.len() - 1 - k2] == line[n - 1 - k]);
                assert((line2.len() - k2) as nat == (n - k) as nat);
                assert((k2 % 2 == 0) == (k % 2 == 0));
                assert(play(h, line2, k2) matches Some(q) && mate_step(
                    q,
                    line2[line2.len() - 1 - k2],
                    (line2.len() - k2) as nat,
                    k2 % 2 == 0,
                ));
            }
        }
        assert(play(f, line, (line2.len() + 2) as nat) == play(h, line2, line2.len()));
    }
}

/// Finds a mate of at most `depth` plies in which the attacker, the player to
/// move, checks at each of its moves. The search visits the attacker's moves
/// cheapest-looking first and, once it has a mate, looks only for shorter ones.
/// The line it returns (last move first) is a quickest mate: each attacker move
/// starts a mate as quick as any, and each defender move is a longest defence
/// (see `attack_line` and `lemma_mate_line_moves`).
pub fn solve_mate_problem(position: &PartialPosition, depth: usize) -> (r: (MateResult, SearchStats))
    ensures
        r.0.is_mate == att_len(position_fields(*position), depth as nat) is Some,
        r.0.is_mate ==> r.0.pv_rev.len() == att_len(position_fields(*position), depth as nat).unwrap(),
        !r.0.is_mate ==> r.0.pv_rev.len() == 0,
        r.0.is_mate ==> attack_line(position_fields(*position), r.0.pv_rev@),
        r.0.is_mate ==> r.0.pv_rev.len() % 2 == 1 && r.0.pv_rev.len() <= depth,
        depth == 0 ==> r.1.nodes == 1 && r.1.edges == 0,
{
    all_mymoves(position, depth)
}

/// How promising a move of the attacker looks (smaller is tried first): drops
/// first, then promotions and moves outside the promotion zone, then moves
/// that could promote but do not.
pub open spec fn mymove_score(side: Color, mv: Move) -> int {
    match mv {
        Move::Normal { from, to, promote } => {
            if !promote && (relative_rank_of(from.index as int, side) <= 3 || relative_rank_of(
                to.index as int,
                side,
            ) <= 3) {
                20
            } else {
                0
            }
        },
        Move::Drop { .. } => -10,
    }
}

/// How promising a move of the defender looks (smaller is tried first):
/// captures first, and promotions before the same move without promotion.
pub open spec fn countermove_score(f: Map<int, int>, mv: Move) -> int {
    match mv {
        Move::Normal { to, promote, .. } => (if f_piece(f, to.index as int) is Some {
            -10int
        } else {
            0int
        }) + (if !promote {
            1int
        } else {
            0int
        }),
        Move::Drop { .. } => 0,
    }
}

/// `<[T]>::sort_unstable_by_key`, keyed by the first component: the pairs are
/// rearranged so that their keys do not decrease. (How pairs with equal keys
/// are ordered is left open.)
#[verifier::external_body]
fn sort_by_score(items: &mut Vec<(i32, Move)>)
    ensures
        final(items)@.to_multiset() == old(items)@.to_multiset(),
        forall|i: int, j: int|
            0 <= i < j < final(items)@.len() ==> final(items)@[i].0 <= final(items)@[j].0,
{
    items.sort_unstable_by_key(|item| item.0)
}

/// The moves of a sequence of (score, move) pairs.
pub open spec fn pair_moves(s: Seq<(i32, Move)>) -> Seq<Move> {
    s.map_values(|p: (i32, Move)| p.1)
}

/// When each pair holds the score of its move, a move occurs in the moves of
/// the pairs as often as its pair occurs among the pairs.
proof fn lemma_pair_moves_count(s: Seq<(i32, Move)>, score: spec_fn(Move) -> int, m: Move)
    requires
        forall|k: int| 0 <= k < s.len() ==> s[k].0 as int == score(#[trigger] s[k].1),
    ensures
        pair_moves(s).to_multiset().count(m) == s.to_multiset().count((score(m) as i32, m)),
    decreases s.len(),
{
    broadcast use vstd::seq_lib::group_to_multiset_ensures;
    broadcast use vstd::multiset::group_multiset_axioms;

    if s.len() == 0 {
        assert(pair_moves(s) =~= Seq::<Move>::empty());
        assert(s =~= Seq::<(i32, Move)>::empty());
    } else {
        let t = s.drop_last();
        let x = s.last();
        assert(s =~= t.push(x));
        assert(pair_moves(s) =~= pair_moves(t).push(x.1));
        assert forall|k: int| 0 <= k < t.len() implies t[k].0 as int == score(#[trigger] t[k].1) by {
            assert(t[k] == s[k]);
        }
        lemma_pair_moves_count(t, score, m);
        assert(x.0 as int == score(s[s.len() - 1].1));
        if x.1 == m {
            assert(x == (score(m) as i32, m));
        }
    }
}

/// Two sequences with the same items, as many times each, hold the same items.
proof fn lemma_same_items(a: Seq<Move>, b: Seq<Move>)
    requires
        a.to_multiset() == b.to_multiset(),
    ensures
        forall|mv: Move| #[trigger] a.contains(mv) <==> b.contains(mv),
{
    broadcast use vstd::seq_lib::group_to_multiset_ensures;

    assert forall|mv: Move| #[trigger] a.contains(mv) <==> b.contains(mv) by {
        let ca = a.to_multiset().count(mv);
        let cb = b.to_multiset().count(mv);
        assert(ca == cb);
        assert(a.contains(mv) <==> ca > 0);
        assert(b.contains(mv) <==> cb > 0);
    }
}

/// Reorders `moves` by `score`: the same moves, as many times each, with
/// scores that do not decrease.
fn order_by_scores(moves: &mut Vec<Move>, scores: Vec<i32>, score: Ghost<spec_fn(Move) -> int>)
    requires
        scores@.len() == old(moves)@.len(),
        forall|i: int| 0 <= i < scores@.len() ==> scores@[i] == score@(old(moves)@[i]),
    ensures
        final(moves)@.to_multiset() == old(moves)@.to_multiset(),
        forall|i: int, j: int|
            0 <= i < j < final(moves)@.len() ==> score@(final(moves)@[i]) <= score@(
                final(moves)@[j],
            ),
{
    broadcast use vstd::seq_lib::group_to_multiset_ensures;

    let ghost start = moves@;
    let n = moves.len();
    let mut items: Vec<(i32, Move)> = Vec::new();
    let mut i: usize = 0;
    while i < n
        invariant
            n == moves@.len(),
            moves@ == start,
            scores@.len() == n,
            forall|k: int| 0 <= k < scores@.len() ==> scores@[k] == score@(start[k]),
            items@.len() == i,
            i <= n,
            forall|k: int| 0 <= k < i ==> #[trigger] items@[k] == (scores@[k], start[k]),
        decreases n - i,
    {
        items.push((scores[i], moves[i]));
        i = i + 1;
    }
    let ghost before = items@;
    sort_by_score(&mut items);
    let ghost after = items@;
    assert(after.len() == before.len()) by {
        assert(after.to_multiset().len() == before.to_multiset().len());
    }
    let mut result: Vec<Move> = Vec::new();
    let mut j: usize = 0;
    while j < n
        invariant
            after == items@,
            after.len() == n,
            result@.len() == j,
            j <= n,
            forall|k: int| 0 <= k < j ==> #[trigger] result@[k] == after[k].1,
        decreases n - j,
    {
        result.push(items[j].1);
        j = j + 1;
    }
    proof {
        assert(result@ =~= pair_moves(after));
        assert(start =~= pair_moves(before));
        assert forall|k: int| 0 <= k < before.len() implies before[k].0 as int == score@(
            #[trigger] before[k].1,
        ) by {
            assert(before[k] == (scores@[k], start[k]));
        }
        assert forall|k: int| 0 <= k < after.len() implies after[k].0 as int == score@(
            #[trigger] after[k].1,
        ) by {
            assert(after.to_multiset().count(after[k]) > 0);
            assert(before.to_multiset().count(after[k]) > 0);
            assert(before.contains(after[k]));
            let m = choose|m: int| 0 <= m < before.len() && before[m] == after[k];
            assert(before[m].0 as int == score@(before[m].1));
        }
        assert forall|m: Move| #[trigger] result@.to_multiset().count(m) == start.to_multiset().count(m) by {
            lemma_pair_moves_count(after, score@, m);
            lemma_pair_moves_count(before, score@, m);
        }
        assert(result@.to_multiset() =~= start.to_multiset());
        assert forall|a: int, b: int| 0 <= a < b < result@.len() implies score@(result@[a]) <= score@(
            result@[b],
        ) by {
            assert(after[a].0 as int == score@(after[a].1));
            assert(after[b].0 as int == score@(after[b].1));
        }
    }
    *moves = result;
}

/// The attacker's moves, cheapest-looking first.
fn order_mymoves(position: &PartialPosition, moves: &mut Vec<Move>)
    requires
        forall|i: int| 0 <= i < old(moves)@.len() ==> (#[trigger] old(moves)@[i]).wf(),
    ensures
        final(moves)@.to_multiset() == old(moves)@.to_multiset(),
        forall|i: int, j: int|
            0 <= i < j < final(moves)@.len() ==> mymove_score(
                f_side(position_fields(*position)),
                final(moves)@[i],
            ) <= mymove_score(f_side(position_fields(*position)), final(moves)@[j]),
{
    let side = side_to_move(position);
    let ghost score = |mv: Move| mymove_score(side, mv);
    let mut scores: Vec<i32> = Vec::new();
    let mut i: usize = 0;
    while i < moves.len()
        invariant
            scores@.len() == i,
            i <= moves@.len(),
            forall|k: int| 0 <= k < moves@.len() ==> (#[trigger] moves@[k]).wf(),
            forall|mv: Move| #[trigger] score(mv) == mymove_score(side, mv),
            forall|k: int| 0 <= k < i ==> scores@[k] == score(moves@[k]),
        decreases moves@.len() - i,
    {
        let s: i32 = match moves[i] {
            Move::Normal { from, to, promote } => {
                if !promote && (from.relative_rank(side) <= 3 || to.relative_rank(side) <= 3) {
                    20
                } else {
                    0
                }
            },
            Move::Drop { .. } => -10,
        };
        assert(s as int == mymove_score(side, moves@[i as int]));
        assert(s as int == score(moves@[i as int]));
        scores.push(s);
        i = i + 1;
    }
    order_by_scores(moves, scores, Ghost(score));
}

/// The defender's moves, captures first.
fn order_countermoves(position: &PartialPosition, moves: &mut Vec<Move>)
    requires
        forall|i: int| 0 <= i < old(moves)@.len() ==> (#[trigger] old(moves)@[i]).wf(),
    ensures
        final(moves)@.to_multiset() == old(moves)@.to_multiset(),
        forall|i: int, j: int|
            0 <= i < j < final(moves)@.len() ==> countermove_score(
                position_fields(*position),
                final(moves)@[i],
            ) <= countermove_score(position_fields(*position), final(moves)@[j]),
{
    let ghost f = position_fields(*position);
    let ghost score = |mv: Move| countermove_score(f, mv);
    let mut scores: Vec<i32> = Vec::new();
    let mut i: usize = 0;
    while i < moves.len()
        invariant
            f == position_fields(*position),
            scores@.len() == i,
            i <= moves@.len(),
            forall|k: int| 0 <= k < moves@.len() ==> (#[trigger] moves@[k]).wf(),
            forall|mv: Move| #[trigger] score(mv) == countermove_score(f, mv),
            forall|k: int| 0 <= k < i ==> scores@[k] == score(moves@[k]),
        decreases moves@.len() - i,
    {
        let s: i32 = match moves[i] {
            Move::Normal { to, promote, .. } => {
                let mut score: i32 = 0;
                // is mv a capture?
                if piece_code_at(position, to) != 0 {
                    score = -10;
                }
                if !promote {
                    score = score + 1;
                }
                score
            },
            Move::Drop { .. } => 0,
        };
        assert(s as int == countermove_score(f, moves@[i as int]));
        assert(s as int == score(moves@[i as int]));
        scores.push(s);
        i = i + 1;
    }
    order_by_scores(moves, scores, Ghost(score));
}

/// A checking move after which the defender is mated is a quickest mate.
proof fn lemma_one_ply_mate(f: Map<int, int>, d: nat, line: Seq<Move>)
    requires
        d > 0,
        line.len() == 1,
        check_len(f, line.last(), (d - 1) as nat) == Some(1nat),
        check_then_defence(f, line),
    ensures
        att_len(f, d) == Some(1nat),
        attack_line(f, line),
{
    let e = (d - 1) as nat;
    lemma_att_len(f, d);
    let m = att_len(f, d).unwrap();
    let w = choose|w: Move| #[trigger] check_len(f, w, e) == Some(m);
    lemma_check_len(f, w, e);
    lemma_att_stable(f, d, 1);
    reveal(check_then_defence);
    lemma_attack_line_push(f, line.drop_last(), line.last());
    assert(line.drop_last().push(line.last()) =~= line);
}

/// The attacker's turn: try the checking moves, and keep the shortest mate.
#[verifier::rlimit(100)]
#[verifier::spinoff_prover]
fn all_mymoves(position: &PartialPosition, depth: usize) -> (r: (MateResult, SearchStats))
    ensures
        r.0.is_mate == att_len(position_fields(*position), depth as nat) is Some,
        r.0.is_mate ==> r.0.pv_rev.len() == att_len(position_fields(*position), depth as nat).unwrap(),
        !r.0.is_mate ==> r.0.pv_rev.len() == 0,
        r.0.is_mate ==> attack_line(position_fields(*position), r.0.pv_rev@),
        r.0.is_mate ==> r.0.pv_rev.len() % 2 == 1 && r.0.pv_rev.len() <= depth,
        depth == 0 ==> r.1.nodes == 1 && r.1.edges == 0,
    decreases depth, 1nat,
{
    let ghost f = position_fields(*position);
    if depth == 0 {
        return (MateResult { is_mate: false, pv_rev: Vec::new() }, SearchStats { nodes: 1, edges: 0 });
    }
    let ghost e = (depth - 1) as nat;
    proof {
        lemma_att_len(f, depth as nat);
    }
    let mut all = all_checks_partial(position);
    proof {
        assert forall|k: int| 0 <= k < all@.len() implies (#[trigger] all@[k]).wf() by {
            assert(all@.contains(all@[k]));
            lemma_check_move_wf(f, all@[k]);
        }
    }
    let ghost unordered = all@;
    order_mymoves(position, &mut all);
    proof {
        lemma_same_items(all@, unordered);
    }
    let mut nodes: u64 = 0;
    let mut edges: u64 = 0;
    let mut fastest: Vec<Move> = Vec::new();
    let mut i: usize = 0;
    while i < all.len()
        invariant
            f == position_fields(*position),
            depth > 0,
            e == depth - 1,
            forall|mv: Move| #[trigger] all@.contains(mv) <==> spec_is_check_move(f, mv),
            i <= all@.len(),
            fastest@.len() == 0 <==> forall|j: int|
                0 <= j < i ==> (#[trigger] check_len(f, all@[j], e)) is None,
            fastest@.len() != 0 ==> exists|j: int|
                0 <= j < i && #[trigger] check_len(f, all@[j], e) == Some(fastest@.len()),
            forall|j: int|
                0 <= j < i ==> (#[trigger] check_len(f, all@[j], e) matches Some(l2) ==> fastest@.len()
                    <= l2),
            fastest@.len() != 0 ==> 3 <= fastest@.len() <= depth && fastest@.len() % 2 == 1
                && check_then_defence(f, fastest@),
        decreases all@.len() - i,
    {
        let mv = all[i];
        assert(all@.contains(mv));
        proof {
            lemma_check_move_wf(f, mv);
            lemma_check_keeps_king(f, mv);
            lemma_check_len(f, mv, e);
        }
        let ghost g = after_move(f, mv).unwrap();
        edges = edges.wrapping_add(1);
        let mut next = clone_position(position);
        let _ = make_move(&mut next, mv);
        let sub_depth = if fastest.len() == 0 {
            depth - 1
        } else {
            fastest.len() - 3
        };
        let (sub, substat) = all_countermoves(&next, sub_depth);
        nodes = nodes.wrapping_add(substat.nodes);
        edges = edges.wrapping_add(substat.edges);
        let ghost was_empty = fastest@.len() == 0;
        let ghost old_len = fastest@.len();
        proof {
            lemma_len_shape(g, e);
            lemma_len_shape(g, sub_depth as nat);
            if !was_empty {
                // A search with fewer plies finds exactly the defences that are
                // short enough to improve on the mate found so far.
                if let Some(l) = def_len(g, sub_depth as nat) {
                    lemma_def_stable(g, sub_depth as nat, e);
                }
                if let Some(l) = def_len(g, e) {
                    if l <= sub_depth {
                        lemma_def_stable(g, e, sub_depth as nat);
                    }
                }
            }
        }
        let mut pv_rev = sub.pv_rev;
        pv_rev.push(mv);
        proof {
            assert(pv_rev@.last() == mv);
            assert(pv_rev@.drop_last() =~= sub.pv_rev@);
            if sub.is_mate {
                assert(check_then_defence(f, pv_rev@)) by {
                    reveal(check_then_defence);
                }
            }
        }
        if sub.is_mate {
            if pv_rev.len() == 1 {
                proof {
                    assert(check_len(f, all@[i as int], e) == Some(1nat));
                    assert(pv_rev@.drop_last() =~= Seq::<Move>::empty());
                    lemma_one_ply_mate(f, depth as nat, pv_rev@);
                }
                return (MateResult { is_mate: true, pv_rev }, SearchStats { nodes, edges });
            }
            if fastest.len() == 0 || fastest.len() > pv_rev.len() {
                fastest = pv_rev;
            }
        }
        proof {
            assert(all@[i as int] == mv);
            assert forall|j: int|
                0 <= j < i + 1 implies (#[trigger] check_len(f, all@[j], e) matches Some(l2)
                ==> fastest@.len() <= l2) by {
                if j == i {
                    if let Some(l2) = check_len(f, all@[j], e) {
                        assert(def_len(g, e) == Some((l2 - 1) as nat));
                    }
                }
            }
            if fastest@.len() != 0 {
                if fastest@.len() != old_len {
                    assert(check_len(f, all@[i as int], e) == Some(fastest@.len()));
                } else {
                    let j = choose|j: int|
                        0 <= j < i && #[trigger] check_len(f, all@[j], e) == Some(fastest@.len());
                    assert(check_len(f, all@[j], e) == Some(fastest@.len()));
                }
            }
        }
        i = i + 1;
    }
    proof {
        if fastest@.len() != 0 {
            let j = choose|j: int| 0 <= j < i && #[trigger] check_len(f, all@[j], e) == Some(fastest@.len());
            assert(check_len(f, all@[j], e) is Some);
            let m = att_len(f, depth as nat).unwrap();
            let w = choose|w: Move| #[trigger] check_len(f, w, e) == Some(m);
            lemma_check_len(f, w, e);
            assert(all@.contains(w));
            let k = choose|k: int| 0 <= k < all@.len() && all@[k] == w;
            assert(check_len(f, all@[k], e) == Some(m));
            assert(att_len(f, depth as nat) == Some(fastest@.len()));
            lemma_len_shape(f, depth as nat);
            lemma_att_stable(f, depth as nat, fastest@.len());
            reveal(check_then_defence);
            lemma_attack_line_push(f, fastest@.drop_last(), fastest@.last());
            assert(fastest@.drop_last().push(fastest@.last()) =~= fastest@);
        } else {
            assert forall|mv: Move| (#[trigger] check_len(f, mv, e)) is None by {
                if check_len(f, mv, e) is Some {
                    lemma_check_len(f, mv, e);
                    assert(all@.contains(mv));
                    let j = choose|j: int| 0 <= j < all@.len() && all@[j] == mv;
                    assert(check_len(f, all@[j], e) is None);
                }
            }
        }
    }
    (MateResult { is_mate: fastest.len() != 0, pv_rev: fastest }, SearchStats { nodes, edges })
}

/// The defender's turn: every legal move must lose; keep the longest line.
#[verifier::rlimit(100)]
#[verifier::spinoff_prover]
fn all_countermoves(position: &PartialPosition, depth: usize) -> (r: (MateResult, SearchStats))
    requires
        f_king(position_fields(*position), f_side(position_fields(*position))) != 0,
    ensures
        r.0.is_mate == def_len(position_fields(*position), depth as nat) is Some,
        r.0.is_mate ==> r.0.pv_rev.len() == def_len(position_fields(*position), depth as nat).unwrap(),
        r.0.pv_rev.len() <= depth,
        r.0.is_mate ==> defend_line(position_fields(*position), r.0.pv_rev@),
        r.0.is_mate ==> r.0.pv_rev.len() % 2 == 0,
        depth == 0 ==> r.0.is_mate == (spec_is_mate(position_fields(*position)) == Some(true))
            && r.0.pv_rev.len() == 0,
        depth > 0 && (forall|mv: Move| !#[trigger] spec_is_legal(position_fields(*position), mv))
            ==> r.0.is_mate && r.0.pv_rev.len() == 0,
        depth == 0 ==> r.1.nodes == 1 && r.1.edges == 0,
    decreases depth, 0nat,
{
    let ghost f = position_fields(*position);
    if depth == 0 {
        let mated = matches!(is_mate(position), Some(true));
        proof {
            if mated {
                crate::laws::lemma_mated_has_no_legal_move(f);
                lemma_defend_line_empty(f);
            }
        }
        return (MateResult { is_mate: mated, pv_rev: Vec::new() }, SearchStats { nodes: 1, edges: 0 });
    }
    let ghost e = (depth - 1) as nat;
    proof {
        lemma_def_len(f, depth as nat);
    }
    let mut all = LiteLegalityChecker.all_legal_moves_partial(position);
    proof {
        assert forall|k: int| 0 <= k < all@.len() implies (#[trigger] all@[k]).wf() by {
            assert(all@.contains(all@[k]));
            crate::prelegality::lemma_valid_wf(f, all@[k]);
        }
    }
    let mut nodes: u64 = 0;
    let mut edges: u64 = 0;
    let mut best: Vec<Move> = Vec::new();
    let ghost unordered = all@;
    order_countermoves(position, &mut all);
    proof {
        lemma_same_items(all@, unordered);
    }
    let mut i: usize = 0;
    while i < all.len()
        invariant
            f == position_fields(*position),
            depth > 0,
            e == depth - 1,
            forall|mv: Move| #[trigger] all@.contains(mv) <==> spec_is_legal(f, mv),
            i <= all@.len(),
            forall|j: int|
                0 <= j < i ==> (#[trigger] reply_len(f, all@[j], e) matches Some(l2) && l2
                    <= best@.len()),
            i > 0 ==> exists|j: int| 0 <= j < i && #[trigger] reply_len(f, all@[j], e) == Some(best@.len()),
            i == 0 ==> best@.len() == 0,
            i > 0 ==> 2 <= best@.len() <= depth,
            i > 0 ==> spec_is_legal(f, best@.last()) && (after_move(f, best@.last()) matches Some(h)
                && attack_line(h, best@.drop_last())),
            f_king(f, f_side(f)) != 0,
        decreases all@.len() - i,
    {
        let mv = all[i];
        assert(all@.contains(mv));
        proof {
            crate::prelegality::lemma_valid_wf(f, mv);
            lemma_reply_len(f, mv, e);
        }
        let ghost h = after_move(f, mv).unwrap();
        edges = edges.wrapping_add(1);
        let mut next = clone_position(position);
        let _ = make_move(&mut next, mv);
        let (sub, substat) = all_mymoves(&next, depth - 1);
        nodes = nodes.wrapping_add(substat.nodes);
        edges = edges.wrapping_add(substat.edges);
        proof {
            lemma_len_shape(h, e);
        }
        let mut pv_rev = sub.pv_rev;
        pv_rev.push(mv);
        proof {
            assert(pv_rev@.last() == mv);
            assert(pv_rev@.drop_last() =~= sub.pv_rev@);
        }
        if !sub.is_mate {
            proof {
                lemma_def_len(f, depth as nat);
                assert(spec_is_legal(f, mv) && reply_len(f, mv, e) is None);
            }
            return (MateResult { is_mate: false, pv_rev }, SearchStats { nodes, edges });
        }
        let ghost old_best = best@;
        if best.len() < pv_rev.len() {
            best = pv_rev;
        }
        proof {
            assert(all@[i as int] == mv);
            assert(reply_len(f, all@[i as int], e) == Some(pv_rev@.len()));
            if best@.len() == old_best.len() && i > 0 {
                let j = choose|j: int| 0 <= j < i && #[trigger] reply_len(f, all@[j], e) == Some(old_best.len());
                assert(reply_len(f, all@[j], e) == Some(best@.len()));
            }
        }
        i = i + 1;
    }
    proof {
        if i == 0 {
            assert forall|mv: Move| !#[trigger] spec_is_legal(f, mv) by {
                if spec_is_legal(f, mv) {
                    assert(all@.contains(mv));
                }
            }
            lemma_no_legal_move_is_mate(f);
            lemma_defend_line_empty(f);
            assert(best@ =~= Seq::<Move>::empty());
        }
        assert forall|mv: Move| spec_is_legal(f, mv) implies (#[trigger] reply_len(f, mv, e) matches Some(l2)
            && l2 <= best@.len()) by {
            assert(all@.contains(mv));
            let j = choose|j: int| 0 <= j < all@.len() && all@[j] == mv;
            assert(reply_len(f, all@[j], e) is Some);
        }
        assert(def_len(f, depth as nat) is Some);
        let m = def_len(f, depth as nat).unwrap();
        if i > 0 {
            let j = choose|j: int| 0 <= j < i && #[trigger] reply_len(f, all@[j], e) == Some(best@.len());
            assert(all@.contains(all@[j]));
            assert(reply_len(f, all@[j], e) == Some(best@.len()));
        }
        if m != 0 {
            let w = choose|w: Move| spec_is_legal(f, w) && #[trigger] reply_len(f, w, e) == Some(m);
            assert(all@.contains(w));
            let k = choose|k: int| 0 <= k < all@.len() && all@[k] == w;
            assert(reply_len(f, all@[k], e) == Some(m));
        }
        lemma_len_shape(f, depth as nat);
        if i > 0 {
            assert(def_len(f, depth as nat) == Some(best@.len()));
            lemma_def_stable(f, depth as nat, best@.len());
            lemma_defend_line_push(f, best@.drop_last(), best@.last());
            assert(best@.drop_last().push(best@.last()) =~= best@);
        }
        if forall|mv: Move| !#[trigger] spec_is_legal(f, mv) {
            if all@.len() > 0 {
                assert(all@.contains(all@[0]));
            }
        }
    }
    (MateResult { is_mate: true, pv_rev: best }, SearchStats { nodes, edges })
}

} // verus!
