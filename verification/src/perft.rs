//! Counting the lines of play of a given length (perft).
use vstd::prelude::*;
use shogi_core::PartialPosition;
use crate::checker::{spec_is_legal, LiteLegalityChecker};
use crate::model::after_move;
use crate::position::{clone_position, make_move, position_fields};
use crate::types::Move;

verus! {

/// The number of lines of play found.
pub struct Stat {
    pub all: u64,
}

/// The legal moves of the player to move.
pub open spec fn legal_moves(f: Map<int, int>) -> Set<Move> {
    Set::new(|mv: Move| spec_is_legal(f, mv))
}

/// The number of lines of `d` legal moves that start in the position `f`: one
/// line of no moves, and otherwise the sum, over the legal moves, of the lines
/// of `d - 1` moves after each.
pub open spec fn perft_count(f: Map<int, int>, d: nat) -> int
    decreases d, 1nat,
{
    if d == 0 {
        1
    } else {
        legal_moves(f).fold(0int, perft_add(f, (d - 1) as nat))
    }
}

/// Adds the lines of `e` moves after `mv` to a count.
pub open spec fn perft_add(f: Map<int, int>, e: nat) -> spec_fn(int, Move) -> int
    decreases e, 3nat,
{
    |acc: int, mv: Move| acc + perft_after(f, mv, e)
}

/// The number of lines of `e` legal moves after `mv`, or none when `mv`
/// cannot be made.
pub open spec fn perft_after(f: Map<int, int>, mv: Move, e: nat) -> int
    decreases e, 2nat,
{
    match after_move(f, mv) {
        Some(g) => perft_count(g, e),
        None => 0,
    }
}

/// The sum of `h` over the items of `s`.
pub open spec fn seq_sum(s: Seq<Move>, h: spec_fn(Move) -> int) -> int
    decreases s.len(),
{
    if s.len() == 0 {
        0
    } else {
        seq_sum(s.drop_last(), h) + h(s.last())
    }
}

/// Summing over a sequence without repeats is folding over its set of items.
proof fn lemma_fold_is_seq_sum(s: Seq<Move>, step: spec_fn(int, Move) -> int, h: spec_fn(Move) -> int)
    requires
        s.no_duplicates(),
        forall|acc: int, mv: Move| #[trigger] step(acc, mv) == acc + h(mv),
    ensures
        s.to_set().finite(),
        s.to_set().fold(0int, step) == seq_sum(s, h),
    decreases s.len(),
{
    broadcast use vstd::seq_lib::group_seq_properties;

    if s.len() == 0 {
        assert(s.to_set() =~= Set::empty());
        vstd::set::fold::lemma_fold_empty(0int, step);
    } else {
        let t = s.drop_last();
        let x = s.last();
        assert(t.no_duplicates()) by {
            assert forall|a: int, b: int| 0 <= a < t.len() && 0 <= b < t.len() && a != b implies t[a]
                != t[b] by {
                assert(t[a] == s[a] && t[b] == s[b]);
            }
        }
        lemma_fold_is_seq_sum(t, step, h);
        assert(!t.to_set().contains(x)) by {
            if t.contains(x) {
                let k = choose|k: int| 0 <= k < t.len() && t[k] == x;
                assert(s[k] == s[s.len() - 1]);
            }
        }
        assert(s.to_set() =~= t.to_set().insert(x)) by {
            assert(s =~= t.push(x));
        }
        assert(vstd::set::fold::is_fun_commutative(step)) by {
            assert forall|a1: Move, a2: Move, b: int| #[trigger] step(step(b, a2), a1) == step(
                step(b, a1),
                a2,
            ) by {
                assert(step(b, a2) == b + h(a2));
                assert(step(b, a1) == b + h(a1));
            }
        }
        vstd::set::fold::lemma_fold_insert(t.to_set(), 0int, step, x);
    }
}

/// A sum of terms that are not negative is at least each of its prefix sums.
proof fn lemma_seq_sum_prefix(s: Seq<Move>, h: spec_fn(Move) -> int, i: int)
    requires
        0 <= i <= s.len(),
        forall|mv: Move| #[trigger] h(mv) >= 0,
    ensures
        0 <= seq_sum(s.subrange(0, i), h) <= seq_sum(s, h),
    decreases s.len(),
{
    if s.len() > 0 {
        if i == s.len() {
            assert(s.subrange(0, i) =~= s);
            lemma_seq_sum_prefix(s.drop_last(), h, 0);
        } else {
            lemma_seq_sum_prefix(s.drop_last(), h, i);
            assert(s.drop_last().subrange(0, i) =~= s.subrange(0, i));
        }
    } else {
        assert(s.subrange(0, i) =~= s);
    }
}

/// With a term of one for each item, the sum is the number of items.
proof fn lemma_seq_sum_ones(s: Seq<Move>, h: spec_fn(Move) -> int)
    requires
        forall|i: int| 0 <= i < s.len() ==> #[trigger] h(s[i]) == 1,
    ensures
        seq_sum(s, h) == s.len(),
    decreases s.len(),
{
    if s.len() > 0 {
        assert(h(s[s.len() - 1]) == 1);
        lemma_seq_sum_ones(s.drop_last(), h);
    }
}

/// There are finitely many legal moves.
pub proof fn lemma_legal_moves_finite(f: Map<int, int>)
    ensures
        legal_moves(f).finite(),
{
    let range = vstd::set_lib::set_int_range(0, crate::prelegality::num_moves());
    vstd::set_lib::lemma_int_range(0, crate::prelegality::num_moves());
    let all = range.map(|i: int| crate::prelegality::move_at(i));
    range.lemma_map_finite(|i: int| crate::prelegality::move_at(i));
    assert forall|mv: Move| legal_moves(f).contains(mv) implies all.contains(mv) by {
        crate::prelegality::lemma_valid_wf(f, mv);
        crate::prelegality::lemma_move_at_order(mv);
        assert(range.contains(crate::prelegality::move_order(mv)));
    }
    vstd::set_lib::lemma_set_subset_finite(all, legal_moves(f));
}

/// Folding terms that are not negative gives a count that is not negative.
proof fn lemma_fold_nonneg(s: Set<Move>, step: spec_fn(int, Move) -> int, h: spec_fn(Move) -> int)
    requires
        s.finite(),
        forall|acc: int, mv: Move| #[trigger] step(acc, mv) == acc + h(mv),
        forall|mv: Move| #[trigger] h(mv) >= 0,
    ensures
        s.fold(0int, step) >= 0,
    decreases s.len(),
{
    if s.len() == 0 {
        assert(s =~= Set::empty());
        vstd::set::fold::lemma_fold_empty(0int, step);
    } else {
        let x = s.choose();
        let t = s.remove(x);
        lemma_fold_nonneg(t, step, h);
        assert(s =~= t.insert(x));
        assert(vstd::set::fold::is_fun_commutative(step)) by {
            assert forall|a1: Move, a2: Move, b: int| #[trigger] step(step(b, a2), a1) == step(
                step(b, a1),
                a2,
            ) by {
                assert(step(b, a2) == b + h(a2));
                assert(step(b, a1) == b + h(a1));
            }
        }
        vstd::set::fold::lemma_fold_insert(t, 0int, step, x);
    }
}

/// Every count of lines of play is at least zero.
pub proof fn lemma_perft_count_nonneg(f: Map<int, int>, d: nat)
    ensures
        perft_count(f, d) >= 0,
    decreases d,
{
    if d > 0 {
        let e = (d - 1) as nat;
        let h = |mv: Move| perft_after(f, mv, e);
        assert forall|mv: Move| #[trigger] h(mv) >= 0 by {
            if let Some(g) = after_move(f, mv) {
                lemma_perft_count_nonneg(g, e);
            }
        }
        lemma_legal_moves_finite(f);
        lemma_fold_nonneg(legal_moves(f), perft_add(f, e), h);
    }
}

/// The lines of `d + 1` moves are counted as the sum, over the legal moves as
/// `all_legal_moves_partial` lists them, of the lines of `d` moves after each.
pub proof fn lemma_perft_sums_over_listed_moves(f: Map<int, int>, d: nat, moves: Seq<Move>)
    requires
        moves.no_duplicates(),
        forall|mv: Move| #[trigger] moves.contains(mv) <==> spec_is_legal(f, mv),
    ensures
        perft_count(f, d + 1) == seq_sum(moves, |mv: Move| perft_after(f, mv, d)),
        forall|mv: Move|
            #[trigger] moves.contains(mv) ==> perft_after(f, mv, d) == perft_count(
                after_move(f, mv).unwrap(),
                d,
            ),
{
    let h = |mv: Move| perft_after(f, mv, d);
    lemma_fold_is_seq_sum(moves, perft_add(f, d), h);
    assert(moves.to_set() =~= legal_moves(f));
    assert((d + 1 - 1) as nat == d);
}

/// There are as many lines of one move as legal moves: as many as
/// `all_legal_moves_partial` lists.
pub proof fn lemma_perft_one_counts_legal_moves(f: Map<int, int>, moves: Seq<Move>)
    requires
        moves.no_duplicates(),
        forall|mv: Move| #[trigger] moves.contains(mv) <==> spec_is_legal(f, mv),
    ensures
        perft_count(f, 1) == moves.len(),
{
    let h = |mv: Move| perft_after(f, mv, 0);
    lemma_fold_is_seq_sum(moves, perft_add(f, 0), h);
    assert(moves.to_set() =~= legal_moves(f));
    assert forall|k: int| 0 <= k < moves.len() implies #[trigger] h(moves[k]) == 1 by {
        assert(moves.contains(moves[k]));
        assert(perft_count(after_move(f, moves[k]).unwrap(), 0) == 1);
    }
    lemma_seq_sum_ones(moves, h);
}

/// A bound on the lines of `d` moves: there are at most as many moves in a
/// position as places in the order of moves, so at most that number to the
/// power `d`.
pub open spec fn lines_bound(d: nat) -> int
    decreases d,
{
    if d == 0 {
        1
    } else {
        crate::prelegality::num_moves() * lines_bound((d - 1) as nat)
    }
}

/// There are at most as many legal moves as places in the order of moves.
proof fn lemma_legal_moves_few(f: Map<int, int>)
    ensures
        legal_moves(f).finite(),
        legal_moves(f).len() <= crate::prelegality::num_moves(),
{
    let range = vstd::set_lib::set_int_range(0, crate::prelegality::num_moves());
    vstd::set_lib::lemma_int_range(0, crate::prelegality::num_moves());
    let all = range.map(|i: int| crate::prelegality::move_at(i));
    vstd::set_lib::lemma_map_size_bound(range, all, |i: int| crate::prelegality::move_at(i));
    assert forall|mv: Move| legal_moves(f).contains(mv) implies all.contains(mv) by {
        crate::prelegality::lemma_valid_wf(f, mv);
        crate::prelegality::lemma_move_at_order(mv);
        assert(range.contains(crate::prelegality::move_order(mv)));
    }
    vstd::set_lib::lemma_len_subset(legal_moves(f), all);
}

/// Folding terms of at most `c` over a set gives at most `c` times its size.
proof fn lemma_fold_at_most(
    s: Set<Move>,
    step: spec_fn(int, Move) -> int,
    h: spec_fn(Move) -> int,
    c: int,
)
    requires
        s.finite(),
        c >= 0,
        forall|acc: int, mv: Move| #[trigger] step(acc, mv) == acc + h(mv),
        forall|mv: Move| #[trigger] h(mv) <= c,
    ensures
        s.fold(0int, step) <= c * s.len(),
    decreases s.len(),
{
    if s.len() == 0 {
        assert(s =~= Set::empty());
        vstd::set::fold::lemma_fold_empty(0int, step);
    } else {
        let x = s.choose();
        let t = s.remove(x);
        lemma_fold_at_most(t, step, h, c);
        assert(s =~= t.insert(x));
        assert(vstd::set::fold::is_fun_commutative(step)) by {
            assert forall|a1: Move, a2: Move, b: int| #[trigger] step(step(b, a2), a1) == step(
                step(b, a1),
                a2,
            ) by {
                assert(step(b, a2) == b + h(a2));
                assert(step(b, a1) == b + h(a1));
            }
        }
        vstd::set::fold::lemma_fold_insert(t, 0int, step, x);
        assert(c * t.len() + c == c * s.len()) by (nonlinear_arith)
            requires
                t.len() + 1 == s.len(),
        ;
    }
}

/// The lines of `d` moves are at most `lines_bound(d)`.
pub proof fn lemma_perft_count_bound(f: Map<int, int>, d: nat)
    ensures
        0 <= perft_count(f, d) <= lines_bound(d),
    decreases d,
{
    lemma_perft_count_nonneg(f, d);
    if d > 0 {
        let e = (d - 1) as nat;
        let h = |mv: Move| perft_after(f, mv, e);
        assert forall|mv: Move| #[trigger] h(mv) <= lines_bound(e) by {
            lemma_perft_count_bound(f, 0);
            if let Some(g) = after_move(f, mv) {
                lemma_perft_count_bound(g, e);
            } else {
                lemma_perft_count_bound(f, e);
            }
        }
        lemma_perft_count_bound(f, e);
        lemma_legal_moves_few(f);
        lemma_fold_at_most(legal_moves(f), perft_add(f, e), h, lines_bound(e));
        let n = legal_moves(f).len();
        let b = lines_bound(e);
        assert(b * n <= crate::prelegality::num_moves() * b) by (nonlinear_arith)
            requires
                b >= 0,
                n <= crate::prelegality::num_moves(),
        ;
    }
}

/// Counts the lines of `depth` legal moves from `pos`.
pub fn perft(pos: PartialPosition, depth: usize) -> (r: Stat)
    requires
        perft_count(position_fields(pos), depth as nat) <= u64::MAX,
    ensures
        r.all == perft_count(position_fields(pos), depth as nat),
    decreases depth,
{
    let ghost f = position_fields(pos);
    if depth == 0 {
        return Stat { all: 1 };
    }
    let all = LiteLegalityChecker.all_legal_moves_partial(&pos);
    let ghost e = (depth - 1) as nat;
    let ghost h = |mv: Move| perft_after(f, mv, e);
    proof {
        assert forall|mv: Move| #[trigger] h(mv) >= 0 by {
            if let Some(g) = after_move(f, mv) {
                lemma_perft_count_nonneg(g, e);
            }
        }
        lemma_fold_is_seq_sum(all@, perft_add(f, e), h);
        assert(all@.to_set() =~= legal_moves(f));
        assert(perft_count(f, depth as nat) == seq_sum(all@, h));
    }
    if depth == 1 {
        proof {
            assert forall|k: int| 0 <= k < all@.len() implies #[trigger] h(all@[k]) == 1 by {
                assert(all@.contains(all@[k]));
                assert(after_move(f, all@[k]) is Some);
                assert(perft_count(after_move(f, all@[k]).unwrap(), 0) == 1);
            }
            lemma_seq_sum_ones(all@, h);
        }
        return Stat { all: all.len() as u64 };
    }
    let mut answer_all: u64 = 0;
    let mut i: usize = 0;
    while i < all.len()
        invariant
            f == position_fields(pos),
            depth > 1,
            e == depth - 1,
            forall|mv: Move| #[trigger] h(mv) >= 0,
            forall|mv: Move| #[trigger] h(mv) == perft_after(f, mv, e),
            forall|mv: Move| #[trigger] all@.contains(mv) <==> spec_is_legal(f, mv),
            seq_sum(all@, h) <= u64::MAX,
            i <= all@.len(),
            answer_all == seq_sum(all@.subrange(0, i as int), h),
        decreases all@.len() - i,
    {
        let mv = all[i];
        assert(all@.contains(mv));
        proof {
            crate::prelegality::lemma_valid_wf(f, mv);
            lemma_seq_sum_prefix(all@, h, i + 1);
            assert(all@.subrange(0, i + 1).drop_last() =~= all@.subrange(0, i as int));
            assert(h(mv) == perft_after(f, mv, e));
        }
        let mut next = clone_position(&pos);
        let _ = make_move(&mut next, mv);
        let sub = perft(next, depth - 1);
        answer_all = answer_all + sub.all;
        i = i + 1;
    }
    proof {
        assert(all@.subrange(0, i as int) =~= all@);
    }
    Stat { all: answer_all }
}

} // verus!
