//! The length of a forced mate: the attacker checks at each of its moves and
//! picks the quickest mate, the defender picks the reply that delays it most.
use vstd::prelude::*;
use crate::checker::spec_is_legal;
use crate::checks::spec_is_check_move;
use crate::model::{after_move, f_king, f_side};
use crate::prelegality::{move_at, num_moves, spec_is_mate};
use crate::types::Move;

verus! {

/// The smaller of two lengths, where `None` (no mate) is longer than any.
pub open spec fn shorter(a: Option<nat>, b: Option<nat>) -> Option<nat> {
    match a {
        None => b,
        Some(x) => match b {
            None => a,
            Some(y) => Some(if x <= y { x } else { y }),
        },
    }
}

/// The larger of two lengths, where `None` (no mate) is longer than any.
pub open spec fn longer(a: Option<nat>, b: Option<nat>) -> Option<nat> {
    match a {
        None => None,
        Some(x) => match b {
            None => None,
            Some(y) => Some(if x >= y { x } else { y }),
        },
    }
}

/// The length of the quickest mate that the checking move `mv` starts, when
/// the defender then has `e` plies left; `None` when `mv` is no check or no
/// such mate exists.
pub open spec fn check_len(f: Map<int, int>, mv: Move, e: nat) -> Option<nat>
    decreases e, 3nat, 0nat,
{
    if spec_is_check_move(f, mv) {
        match after_move(f, mv) {
            Some(g) => match def_len(g, e) {
                Some(l) => Some(l + 1),
                None => None,
            },
            None => None,
        }
    } else {
        None
    }
}

/// The length of the mate that follows the reply `mv`, when the attacker then
/// has `e` plies left; `None` when there is none.
pub open spec fn reply_len(f: Map<int, int>, mv: Move, e: nat) -> Option<nat>
    decreases e, 3nat, 0nat,
{
    match after_move(f, mv) {
        Some(h) => match att_len(h, e) {
            Some(l) => Some(l + 1),
            None => None,
        },
        None => None,
    }
}

/// The length of the quickest mate of at most `d` plies that the player to
/// move in `f` delivers, checking at each of its moves; `None` when there is
/// none.
pub open spec fn att_len(f: Map<int, int>, d: nat) -> Option<nat>
    decreases d, 2nat, 0nat,
{
    if d == 0 {
        None
    } else {
        att_min(f, d, 0)
    }
}

/// The quickest of the mates that the moves at position `i` or later of the
/// order of moves start.
pub open spec fn att_min(f: Map<int, int>, d: nat, i: int) -> Option<nat>
    decreases d, 1nat, (if i < num_moves() {
        num_moves() - i
    } else {
        0
    }) as nat,
{
    if d == 0 || i < 0 || i >= num_moves() {
        None
    } else {
        shorter(check_len(f, move_at(i), (d - 1) as nat), att_min(f, d, i + 1))
    }
}

/// The length of the longest defence of the player to move in `f` against a
/// mate within `d` plies: with no ply left, 0 when it is mated; otherwise 0
/// when it has no legal move, and else the longest of its legal replies;
/// `None` when it escapes.
pub open spec fn def_len(f: Map<int, int>, d: nat) -> Option<nat>
    decreases d, 2nat, 0nat,
{
    if d == 0 {
        if spec_is_mate(f) == Some(true) {
            Some(0)
        } else {
            None
        }
    } else {
        def_max(f, d, 0)
    }
}

/// The longest of the defences that the legal moves at position `i` or later
/// of the order of moves give.
pub open spec fn def_max(f: Map<int, int>, d: nat, i: int) -> Option<nat>
    decreases d, 1nat, (if i < num_moves() {
        num_moves() - i
    } else {
        0
    }) as nat,
{
    if d == 0 || i < 0 || i >= num_moves() {
        Some(0)
    } else {
        longer(
            if spec_is_legal(f, move_at(i)) {
                reply_len(f, move_at(i), (d - 1) as nat)
            } else {
                Some(0)
            },
            def_max(f, d, i + 1),
        )
    }
}

/// A checking move can be played, and its squares are on the board.
pub proof fn lemma_check_move_wf(f: Map<int, int>, mv: Move)
    requires
        spec_is_check_move(f, mv),
    ensures
        mv.wf(),
        spec_is_check_move(f, mv) && after_move(f, mv) is Some,
{
    if mv is Drop {
        crate::laws::lemma_check_drops_valid(f, mv);
    }
    crate::prelegality::lemma_valid_wf(f, mv);
    crate::laws::lemma_check_moves_give_check(f, mv);
}

/// What `check_len` gives.
pub proof fn lemma_check_len(f: Map<int, int>, mv: Move, e: nat)
    ensures
        check_len(f, mv, e) matches Some(l) ==> spec_is_check_move(f, mv) && (after_move(f, mv) matches Some(
            g,
        ) && def_len(g, e) == Some((l - 1) as nat) && l >= 1),
        spec_is_check_move(f, mv) ==> (after_move(f, mv) matches Some(g) ==> (def_len(g, e) matches Some(
            k,
        ) ==> check_len(f, mv, e) == Some(k + 1))),
        spec_is_check_move(f, mv) ==> (after_move(f, mv) matches Some(g) ==> (def_len(g, e) is None
            ==> check_len(f, mv, e) is None)),
{
}

/// What `reply_len` gives.
pub proof fn lemma_reply_len(f: Map<int, int>, mv: Move, e: nat)
    ensures
        reply_len(f, mv, e) matches Some(l) ==> (after_move(f, mv) matches Some(h) && att_len(h, e)
            == Some((l - 1) as nat) && l >= 1),
        after_move(f, mv) matches Some(h) ==> (att_len(h, e) matches Some(k) ==> reply_len(f, mv, e)
            == Some(k + 1)),
        after_move(f, mv) matches Some(h) ==> (att_len(h, e) is None ==> reply_len(f, mv, e) is None),
{
}

#[verifier::rlimit(60)]
#[verifier::spinoff_prover]
proof fn lemma_att_min(f: Map<int, int>, d: nat, i: int)
    requires
        d > 0,
        0 <= i <= num_moves(),
    ensures
        att_min(f, d, i) is None <==> forall|j: int|
            i <= j < num_moves() ==> (#[trigger] check_len(f, move_at(j), (d - 1) as nat)) is None,
        att_min(f, d, i) matches Some(l) ==> (exists|j: int|
            i <= j < num_moves() && #[trigger] check_len(f, move_at(j), (d - 1) as nat) == Some(l)),
        att_min(f, d, i) matches Some(l) ==> forall|j: int|
            i <= j < num_moves() ==> (#[trigger] check_len(f, move_at(j), (d - 1) as nat) matches Some(
                l2,
            ) ==> l <= l2),
    decreases num_moves() - i,
{
    if i < num_moves() {
        lemma_att_min(f, d, i + 1);
        let here = check_len(f, move_at(i), (d - 1) as nat);
        assert(att_min(f, d, i) == shorter(here, att_min(f, d, i + 1)));
    }
}

/// The quickest mate is the quickest of those that the checking moves start:
/// there is none when no checking move starts one, and otherwise some checking
/// move starts it and none starts a quicker one.
pub proof fn lemma_att_len(f: Map<int, int>, d: nat)
    requires
        d > 0,
    ensures
        att_len(f, d) is None <==> forall|mv: Move| (#[trigger] check_len(f, mv, (d - 1) as nat)) is None,
        att_len(f, d) matches Some(l) ==> exists|mv: Move| #[trigger] check_len(f, mv, (d - 1) as nat)
            == Some(l),
        att_len(f, d) matches Some(l) ==> forall|mv: Move|
            (#[trigger] check_len(f, mv, (d - 1) as nat) matches Some(l2) ==> l <= l2),
{
    lemma_att_min(f, d, 0);
    let e = (d - 1) as nat;
    assert forall|mv: Move| (#[trigger] check_len(f, mv, e)) is Some implies exists|j: int|
        0 <= j < num_moves() && move_at(j) == mv by {
        lemma_check_len(f, mv, e);
        lemma_check_move_wf(f, mv);
        crate::prelegality::lemma_move_at_order(mv);
    }
    if att_len(f, d) is None {
        assert forall|mv: Move| (#[trigger] check_len(f, mv, e)) is None by {
            if check_len(f, mv, e) is Some {
                let j = choose|j: int| 0 <= j < num_moves() && move_at(j) == mv;
                assert(check_len(f, move_at(j), e) is None);
            }
        }
    }
    if let Some(l) = att_len(f, d) {
        let j = choose|j: int| 0 <= j < num_moves() && #[trigger] check_len(f, move_at(j), e) == Some(l);
        assert(check_len(f, move_at(j), e) == Some(l));
        assert forall|mv: Move| (#[trigger] check_len(f, mv, e) matches Some(l2) ==> l <= l2) by {
            if check_len(f, mv, e) is Some {
                let k = choose|k: int| 0 <= k < num_moves() && move_at(k) == mv;
                assert(check_len(f, move_at(k), e) is Some);
            }
        }
    }
}

#[verifier::rlimit(60)]
#[verifier::spinoff_prover]
proof fn lemma_def_max(f: Map<int, int>, d: nat, i: int)
    requires
        d > 0,
        0 <= i <= num_moves(),
    ensures
        def_max(f, d, i) is None <==> exists|j: int|
            i <= j < num_moves() && spec_is_legal(f, move_at(j)) && (#[trigger] reply_len(
                f,
                move_at(j),
                (d - 1) as nat,
            )) is None,
        def_max(f, d, i) matches Some(l) ==> forall|j: int|
            i <= j < num_moves() && spec_is_legal(f, move_at(j)) ==> (#[trigger] reply_len(
                f,
                move_at(j),
                (d - 1) as nat,
            ) matches Some(l2) && l2 <= l),
        def_max(f, d, i) matches Some(l) ==> l == 0 || exists|j: int|
            i <= j < num_moves() && spec_is_legal(f, move_at(j)) && #[trigger] reply_len(
                f,
                move_at(j),
                (d - 1) as nat,
            ) == Some(l),
    decreases num_moves() - i,
{
    if i < num_moves() {
        lemma_def_max(f, d, i + 1);
        let mv = move_at(i);
        let e = (d - 1) as nat;
        let here = if spec_is_legal(f, mv) {
            reply_len(f, mv, e)
        } else {
            Some(0nat)
        };
        assert(def_max(f, d, i) == longer(here, def_max(f, d, i + 1)));
        if spec_is_legal(f, mv) {
            assert(here == reply_len(f, move_at(i), e));
        }
    }
}

/// The longest defence is the longest of those that the legal replies give:
/// there is none when some legal reply escapes, and otherwise every legal
/// reply is mated within it, and it is 0 or the length after some reply.
pub proof fn lemma_def_len(f: Map<int, int>, d: nat)
    requires
        d > 0,
    ensures
        def_len(f, d) is None <==> exists|mv: Move|
            spec_is_legal(f, mv) && (#[trigger] reply_len(f, mv, (d - 1) as nat)) is None,
        def_len(f, d) matches Some(l) ==> forall|mv: Move|
            spec_is_legal(f, mv) ==> (#[trigger] reply_len(f, mv, (d - 1) as nat) matches Some(l2)
                && l2 <= l),
        def_len(f, d) matches Some(l) ==> l == 0 || exists|mv: Move|
            spec_is_legal(f, mv) && #[trigger] reply_len(f, mv, (d - 1) as nat) == Some(l),
{
    lemma_def_max(f, d, 0);
    let e = (d - 1) as nat;
    assert forall|mv: Move| spec_is_legal(f, mv) implies exists|j: int|
        0 <= j < num_moves() && move_at(j) == mv by {
        crate::prelegality::lemma_valid_wf(f, mv);
        crate::prelegality::lemma_move_at_order(mv);
    }
    if def_len(f, d) is None {
        let j = choose|j: int|
            0 <= j < num_moves() && spec_is_legal(f, move_at(j)) && (#[trigger] reply_len(
                f,
                move_at(j),
                e,
            )) is None;
        assert(reply_len(f, move_at(j), e) is None);
    } else {
        assert forall|mv: Move|
            spec_is_legal(f, mv) implies (#[trigger] reply_len(f, mv, e)) is Some by {
            let j = choose|j: int| 0 <= j < num_moves() && move_at(j) == mv;
            assert(reply_len(f, move_at(j), e) is Some);
        }
    }
    if let Some(l) = def_len(f, d) {
        assert forall|mv: Move| spec_is_legal(f, mv) implies (#[trigger] reply_len(f, mv, e) matches Some(l2)
            && l2 <= l) by {
            let j = choose|j: int| 0 <= j < num_moves() && move_at(j) == mv;
            assert(reply_len(f, move_at(j), e) is Some);
        }
        if l != 0 {
            let j = choose|j: int|
                0 <= j < num_moves() && spec_is_legal(f, move_at(j)) && #[trigger] reply_len(
                    f,
                    move_at(j),
                    e,
                ) == Some(l);
            assert(reply_len(f, move_at(j), e) == Some(l));
        }
    }
}

/// A mate takes an odd number of plies, at least one and at most the plies
/// allowed; a defence lasts an even number of plies, at most those allowed.
#[verifier::rlimit(100)]
#[verifier::spinoff_prover]
pub proof fn lemma_len_shape(f: Map<int, int>, d: nat)
    ensures
        att_len(f, d) matches Some(l) ==> l % 2 == 1 && 1 <= l <= d,
        def_len(f, d) matches Some(l) ==> l % 2 == 0 && l <= d,
    decreases d,
{
    if d > 0 {
        let e = (d - 1) as nat;
        lemma_att_len(f, d);
        lemma_def_len(f, d);
        if let Some(l) = att_len(f, d) {
            let mv = choose|mv: Move| #[trigger] check_len(f, mv, e) == Some(l);
            lemma_check_len(f, mv, e);
            let g = after_move(f, mv).unwrap();
            lemma_len_shape(g, e);
        }
        if let Some(l) = def_len(f, d) {
            if l != 0 {
                let mv = choose|mv: Move| spec_is_legal(f, mv) && #[trigger] reply_len(f, mv, e) == Some(l);
                lemma_reply_len(f, mv, e);
                let h = after_move(f, mv).unwrap();
                lemma_len_shape(h, e);
            }
        }
    }
}

/// A player whose king is recorded and who has no legal move is mated.
pub proof fn lemma_no_legal_move_is_mate(f: Map<int, int>)
    requires
        f_king(f, f_side(f)) != 0,
        forall|mv: Move| !#[trigger] spec_is_legal(f, mv),
    ensures
        spec_is_mate(f) == Some(true),
{
    crate::prelegality::lemma_is_mate_forall(f);
    assert forall|mv: Move| #[trigger] crate::prelegality::spec_is_valid(f, mv) implies crate::prelegality::fails_to_escape(
        f,
        mv,
    ) by {
        crate::prelegality::lemma_valid_wf(f, mv);
        crate::prelegality::lemma_no_error_after_some(f, mv);
        assert(!spec_is_legal(f, mv));
    }
}

/// After a checking move, the square of the king of the player to move is
/// recorded.
pub proof fn lemma_check_keeps_king(f: Map<int, int>, mv: Move)
    requires
        spec_is_check_move(f, mv),
    ensures
        after_move(f, mv) matches Some(g) && f_king(g, f_side(g)) != 0,
{
    lemma_check_move_wf(f, mv);
    let g = after_move(f, mv).unwrap();
    let c = f_side(f).spec_flip();
    assert(f_side(g) == c);
    assert(f_king(f, c) != 0);
}

/// The length of a defence does not depend on the plies allowed, once they
/// are at least that length.
#[verifier::spinoff_prover]
pub proof fn lemma_def_stable(g: Map<int, int>, d1: nat, d2: nat)
    requires
        f_king(g, f_side(g)) != 0,
        def_len(g, d1) matches Some(l) && l <= d2,
    ensures
        def_len(g, d2) == def_len(g, d1),
    decreases d1 + d2, 0nat,
{
    let l = def_len(g, d1).unwrap();
    lemma_len_shape(g, d1);
    if l == 0 {
        // No legal move, whatever the plies allowed.
        if d1 == 0 {
            crate::laws::lemma_mated_has_no_legal_move(g);
        } else {
            lemma_def_len(g, d1);
            assert forall|mv: Move| !#[trigger] spec_is_legal(g, mv) by {
                if spec_is_legal(g, mv) {
                    let r = reply_len(g, mv, (d1 - 1) as nat);
                    lemma_reply_len(g, mv, (d1 - 1) as nat);
                    let h = after_move(g, mv).unwrap();
                    lemma_len_shape(h, (d1 - 1) as nat);
                    assert(r is Some && r.unwrap() <= 0);
                }
            }
        }
        if d2 == 0 {
            lemma_no_legal_move_is_mate(g);
        } else {
            lemma_def_len(g, d2);
            assert(!exists|mv: Move| spec_is_legal(g, mv) && (#[trigger] reply_len(g, mv, (d2 - 1) as nat)) is None);
        }
    } else {
        let e1 = (d1 - 1) as nat;
        let e2 = (d2 - 1) as nat;
        lemma_def_len(g, d1);
        lemma_def_len(g, d2);
        assert forall|mv: Move| spec_is_legal(g, mv) implies #[trigger] reply_len(g, mv, e2) == reply_len(
            g,
            mv,
            e1,
        ) by {
            assert(reply_len(g, mv, e1) is Some);
            lemma_reply_len(g, mv, e1);
            lemma_reply_len(g, mv, e2);
            let h = after_move(g, mv).unwrap();
            lemma_att_stable(h, e1, e2);
        }
        let mv1 = choose|mv: Move| spec_is_legal(g, mv) && #[trigger] reply_len(g, mv, e1) == Some(l);
        assert(reply_len(g, mv1, e2) == Some(l));
        assert(def_len(g, d2) is Some);
        let m = def_len(g, d2).unwrap();
        if m != 0 {
            let mv2 = choose|mv: Move| spec_is_legal(g, mv) && #[trigger] reply_len(g, mv, e2) == Some(m);
            assert(reply_len(g, mv2, e1) == Some(m));
        }
    }
}

/// The length of the quickest mate does not depend on the plies allowed, once
/// they are at least that length.
#[verifier::rlimit(100)]
#[verifier::spinoff_prover]
pub proof fn lemma_att_stable(f: Map<int, int>, d1: nat, d2: nat)
    requires
        att_len(f, d1) matches Some(l) && l <= d2,
    ensures
        att_len(f, d2) == att_len(f, d1),
    decreases d1 + d2, 0nat,
{
    let l = att_len(f, d1).unwrap();
    lemma_len_shape(f, d1);
    let e1 = (d1 - 1) as nat;
    let e2 = (d2 - 1) as nat;
    lemma_att_len(f, d1);
    lemma_att_len(f, d2);
    let mv1 = choose|mv: Move| #[trigger] check_len(f, mv, e1) == Some(l);
    lemma_check_len(f, mv1, e1);
    lemma_check_len(f, mv1, e2);
    lemma_check_keeps_king(f, mv1);
    let g1 = after_move(f, mv1).unwrap();
    lemma_def_stable(g1, e1, e2);
    assert(check_len(f, mv1, e2) == Some(l));
    let m = att_len(f, d2).unwrap();
    lemma_len_shape(f, d2);
    let mv2 = choose|mv: Move| #[trigger] check_len(f, mv, e2) == Some(m);
    lemma_check_len(f, mv2, e1);
    lemma_check_len(f, mv2, e2);
    lemma_check_keeps_king(f, mv2);
    let g2 = after_move(f, mv2).unwrap();
    lemma_def_stable(g2, e2, e1);
    assert(check_len(f, mv2, e1) == Some(m));
}

} // verus!
