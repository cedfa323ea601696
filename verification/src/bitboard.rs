//! Sets of squares, held in `shogi_core::Bitboard`.
//!
//! A bitboard is a collection of squares; its contents are named by
//! `bitboard_squares`, a set of square indices (1 to 81). Each operation that
//! the library uses is a wrapper whose contract states what it does to that set.
use vstd::prelude::*;
use shogi_core::Bitboard;
use crate::types::{is_square_index, Square};

verus! {

#[verifier::external_type_specification]
#[verifier::external_body]
pub struct ExBitboard(shogi_core::Bitboard);

/// The indices of the squares that a `shogi_core::Bitboard` holds.
pub uninterp spec fn bitboard_squares(b: Bitboard) -> Set<int>;

/// All 81 square indices.
pub open spec fn all_squares() -> Set<int> {
    Set::new(|i: int| is_square_index(i))
}

/// Whether the squares of `b` are squares of the board.
pub open spec fn bb_wf(b: Bitboard) -> bool {
    bitboard_squares(b).subset_of(all_squares())
}

/// Short for `bitboard_squares`.
pub open spec fn bb(b: Bitboard) -> Set<int> {
    bitboard_squares(b)
}

/// There are 81 squares.
pub proof fn lemma_all_squares_finite()
    ensures
        all_squares().finite(),
        all_squares().len() == 81,
{
    assert(all_squares() =~= vstd::set_lib::set_int_range(1, 82));
    vstd::set_lib::lemma_int_range(1, 82);
}

/// A bitboard holds finitely many squares, at most 81.
pub proof fn lemma_bb_finite(b: Bitboard)
    requires
        bb_wf(b),
    ensures
        bb(b).finite(),
        bb(b).len() <= 81,
{
    lemma_all_squares_finite();
    vstd::set_lib::lemma_len_subset(bb(b), all_squares());
}

/// `Bitboard::empty`: the empty set.
#[verifier::external_body]
pub(crate) fn bb_empty() -> (b: Bitboard)
    ensures
        bitboard_squares(b) == Set::<int>::empty(),
        bb_wf(b),
{
    Bitboard::empty()
}

/// `Bitboard::single`: the set holding one square.
#[verifier::external_body]
pub(crate) fn bb_single(square: Square) -> (b: Bitboard)
    requires
        square.wf(),
    ensures
        bitboard_squares(b) == Set::<int>::empty().insert(square.index as int),
        bb_wf(b),
{
    Bitboard::single(shogi_core::Square::from_u8(square.index).unwrap())
}

/// `Bitboard::or`: the union.
#[verifier::external_body]
pub(crate) fn bb_or(a: Bitboard, b: Bitboard) -> (c: Bitboard)
    ensures
        bitboard_squares(c) == bitboard_squares(a).union(bitboard_squares(b)),
        bb_wf(a) && bb_wf(b) ==> bb_wf(c),
{
    a.or(b)
}

/// `Bitboard::and`: the intersection.
#[verifier::external_body]
pub(crate) fn bb_and(a: Bitboard, b: Bitboard) -> (c: Bitboard)
    ensures
        bitboard_squares(c) == bitboard_squares(a).intersect(bitboard_squares(b)),
        bb_wf(a) || bb_wf(b) ==> bb_wf(c),
{
    a.and(b)
}

/// `Bitboard::andnot`: the squares of `b` that are not in `a`.
#[verifier::external_body]
pub(crate) fn bb_andnot(a: Bitboard, b: Bitboard) -> (c: Bitboard)
    ensures
        bitboard_squares(c) == bitboard_squares(b).difference(bitboard_squares(a)),
        bb_wf(b) ==> bb_wf(c),
{
    a.andnot(b)
}

/// `!` on a bitboard: the squares of the board that are not in `a`.
#[verifier::external_body]
pub(crate) fn bb_not(a: Bitboard) -> (c: Bitboard)
    ensures
        bitboard_squares(c) == all_squares().difference(bitboard_squares(a)),
        bb_wf(c),
{
    !a
}

/// `Bitboard::contains`.
#[verifier::external_body]
pub(crate) fn bb_contains(b: Bitboard, square: Square) -> (r: bool)
    requires
        square.wf(),
    ensures
        r == bitboard_squares(b).contains(square.index as int),
{
    b.contains(shogi_core::Square::from_u8(square.index).unwrap())
}

/// `Bitboard::is_empty`.
#[verifier::external_body]
pub(crate) fn bb_is_empty(b: Bitboard) -> (r: bool)
    requires
        bb_wf(b),
    ensures
        r == (bitboard_squares(b) == Set::<int>::empty()),
{
    b.is_empty()
}

/// `Bitboard::count`: the number of squares.
#[verifier::external_body]
pub(crate) fn bb_count(b: Bitboard) -> (n: u8)
    requires
        bb_wf(b),
    ensures
        n == bitboard_squares(b).len(),
{
    b.count()
}

/// `Bitboard::pop`: takes one square out of the set, if there is one.
/// Which square comes out is left open by `shogi_core`'s documentation.
#[verifier::external_body]
pub(crate) fn bb_pop(b: &mut Bitboard) -> (r: Option<Square>)
    requires
        bb_wf(*old(b)),
    ensures
        r.is_none() <==> bitboard_squares(*old(b)) == Set::<int>::empty(),
        r matches Some(s) ==> s.wf() && bitboard_squares(*old(b)).contains(s.index as int) && bitboard_squares(*final(b)) == bitboard_squares(
            *old(b),
        ).remove(s.index as int),
        r.is_none() ==> bitboard_squares(*final(b)) == bitboard_squares(*old(b)),
        bb_wf(*final(b)),
{
    match b.pop() {
        Some(s) => Some(Square { index: s.index() }),
        None => None,
    }
}

} // verus!
