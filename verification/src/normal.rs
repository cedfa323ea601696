//! How pieces move on the board.
//!
//! `reaches(occ, piece, from, to)` says that `piece`, standing on `from`, can
//! move to `to` when the squares in `occ` are occupied (whatever stands on `to`
//! itself). Step moves are given by their displacement; sliding moves follow a
//! ray until the first occupied square, which they include.
use vstd::prelude::*;
use shogi_core::{Bitboard, PartialPosition};
use crate::bitboard::{
    bb_contains, bb_empty, bb_or, bb_single, bb_wf, bitboard_squares, lemma_bb_finite,
};
use crate::model::f_occupied;
use crate::position::{occupied_bitboard, piece_code_at, position_fields};
use crate::types::{
    file_of, is_square_index, lemma_index_coords, lemma_square_index_coords, on_board, rank_of,
    square_index, Color, Piece, PieceKind, Square,
};

verus! {

pub open spec fn abs(x: int) -> int {
    if x < 0 {
        -x
    } else {
        x
    }
}

/// How far forward a rank displacement `dr` goes for `c` (Black moves towards rank 1).
pub open spec fn ahead(c: Color, dr: int) -> int {
    match c {
        Color::Black => -dr,
        Color::White => dr,
    }
}

/// One step of a king in any of the eight directions.
pub open spec fn king_step(df: int, dr: int) -> bool {
    abs(df) <= 1 && abs(dr) <= 1 && (df != 0 || dr != 0)
}

/// Whether a piece of kind `k` and color `c` can step by file `df` and rank `dr`
/// (the moves that do not slide).
pub open spec fn step_target(k: PieceKind, c: Color, df: int, dr: int) -> bool {
    let a = ahead(c, dr);
    match k {
        PieceKind::Pawn => df == 0 && a == 1,
        PieceKind::Knight => abs(df) == 1 && a == 2,
        PieceKind::Silver => (a == 1 && abs(df) <= 1) || (a == -1 && abs(df) == 1),
        PieceKind::Gold | PieceKind::ProPawn | PieceKind::ProLance | PieceKind::ProKnight
        | PieceKind::ProSilver => (a == 1 && abs(df) <= 1) || (a == 0 && abs(df) == 1) || (a
            == -1 && df == 0),
        PieceKind::King | PieceKind::ProBishop | PieceKind::ProRook => king_step(df, dr),
        _ => false,
    }
}

/// `n` steps in the direction of sign `s` (-1, 0 or 1).
pub open spec fn offset(n: int, s: int) -> int {
    if s == 0 {
        0
    } else if s > 0 {
        n
    } else {
        -n
    }
}

/// Whether the square `n` steps from `from` in direction (`sf`, `sr`) is on the board.
pub open spec fn ray_on_board(from: int, sf: int, sr: int, n: int) -> bool {
    on_board(file_of(from) + offset(n, sf), rank_of(from) + offset(n, sr))
}

/// The square `n` steps from `from` in direction (`sf`, `sr`).
pub open spec fn ray_square(from: int, sf: int, sr: int, n: int) -> int {
    square_index(file_of(from) + offset(n, sf), rank_of(from) + offset(n, sr))
}

/// Whether the squares strictly between `from` and `n` steps away are vacant.
pub open spec fn ray_clear(occ: Set<int>, from: int, sf: int, sr: int, n: int) -> bool {
    forall|j: int| 1 <= j < n ==> !occ.contains(#[trigger] ray_square(from, sf, sr, j))
}

/// Whether a piece sliding from `from` in direction (`sf`, `sr`) reaches `to`.
pub open spec fn on_ray(occ: Set<int>, from: int, to: int, sf: int, sr: int) -> bool {
    exists|n: int|
        1 <= n && ray_on_board(from, sf, sr, n) && #[trigger] ray_square(from, sf, sr, n) == to
            && ray_clear(occ, from, sf, sr, n)
}

/// The squares that a piece sliding from `from` in direction (`sf`, `sr`) reaches.
pub open spec fn ray_set(occ: Set<int>, from: int, sf: int, sr: int) -> Set<int> {
    Set::new(|to: int| on_ray(occ, from, to, sf, sr))
}

/// The rank direction of a step forward for `c`.
pub open spec fn forward(c: Color) -> int {
    match c {
        Color::Black => -1,
        Color::White => 1,
    }
}

pub open spec fn diagonal_slide(occ: Set<int>, from: int, to: int) -> bool {
    on_ray(occ, from, to, 1, 1) || on_ray(occ, from, to, 1, -1) || on_ray(occ, from, to, -1, 1)
        || on_ray(occ, from, to, -1, -1)
}

pub open spec fn orthogonal_slide(occ: Set<int>, from: int, to: int) -> bool {
    on_ray(occ, from, to, 1, 0) || on_ray(occ, from, to, -1, 0) || on_ray(occ, from, to, 0, 1)
        || on_ray(occ, from, to, 0, -1)
}

/// Whether a piece of kind `k` and color `c` slides from `from` to `to`.
pub open spec fn slides_to(occ: Set<int>, k: PieceKind, c: Color, from: int, to: int) -> bool {
    match k {
        PieceKind::Lance => on_ray(occ, from, to, 0, forward(c)),
        PieceKind::Bishop | PieceKind::ProBishop => diagonal_slide(occ, from, to),
        PieceKind::Rook | PieceKind::ProRook => orthogonal_slide(occ, from, to),
        _ => false,
    }
}

/// File displacement from square `from` to square `to`.
pub open spec fn dfile(from: int, to: int) -> int {
    file_of(to) - file_of(from)
}

/// Rank displacement from square `from` to square `to`.
pub open spec fn drank(from: int, to: int) -> int {
    rank_of(to) - rank_of(from)
}

/// Whether `piece` on `from` can move to `to` when the squares in `occ` are occupied.
pub open spec fn reaches(occ: Set<int>, piece: Piece, from: int, to: int) -> bool {
    &&& is_square_index(from)
    &&& is_square_index(to)
    &&& from != to
    &&& step_target(piece.kind, piece.color, dfile(from, to), drank(from, to)) || slides_to(
        occ,
        piece.kind,
        piece.color,
        from,
        to,
    )
}

/// The squares that `piece` on `from` reaches.
pub open spec fn reach_set(occ: Set<int>, piece: Piece, from: int) -> Set<int> {
    Set::new(|to: int| reaches(occ, piece, from, to))
}

/// The squares that `piece` on `from` reaches by a step.
pub open spec fn step_set(piece: Piece, from: int) -> Set<int> {
    Set::new(
        |to: int|
            is_square_index(to) && to != from && step_target(
                piece.kind,
                piece.color,
                dfile(from, to),
                drank(from, to),
            ),
    )
}

/// Whether a piece of kind `k` and color `c` can step by (`df`, `dr`).
pub(crate) fn is_step(k: PieceKind, c: Color, df: i8, dr: i8) -> (b: bool)
    requires
        -8 <= df <= 8,
        -8 <= dr <= 8,
    ensures
        b == step_target(k, c, df as int, dr as int),
{
    let a: i8 = match c {
        Color::Black => -dr,
        Color::White => dr,
    };
    let adf: i8 = if df < 0 {
        -df
    } else {
        df
    };
    let adr: i8 = if dr < 0 {
        -dr
    } else {
        dr
    };
    match k {
        PieceKind::Pawn => df == 0 && a == 1,
        PieceKind::Knight => adf == 1 && a == 2,
        PieceKind::Silver => (a == 1 && adf <= 1) || (a == -1 && adf == 1),
        PieceKind::Gold | PieceKind::ProPawn | PieceKind::ProLance | PieceKind::ProKnight
        | PieceKind::ProSilver => (a == 1 && adf <= 1) || (a == 0 && adf == 1) || (a == -1 && df
            == 0),
        PieceKind::King | PieceKind::ProBishop | PieceKind::ProRook => adf <= 1 && adr <= 1 && (
        df != 0 || dr != 0),
        _ => false,
    }
}

/// The squares that `piece` on `from` reaches by a step.
fn step_bitboard(piece: Piece, from: Square) -> (b: Bitboard)
    requires
        from.wf(),
    ensures
        bitboard_squares(b) == step_set(piece, from.index as int),
        bb_wf(b),
{
    let ghost fi = from.index as int;
    let ff = from.file() as i8;
    let fr = from.rank() as i8;
    let mut result = bb_empty();
    let mut i: u8 = 1;
    while i <= 81
        invariant
            1 <= i <= 82,
            fi == from.index,
            from.wf(),
            ff == file_of(fi),
            fr == rank_of(fi),
            1 <= ff <= 9,
            1 <= fr <= 9,
            bitboard_squares(result) == Set::new(
                |to: int|
                    1 <= to < i && to != fi && step_target(
                        piece.kind,
                        piece.color,
                        dfile(fi, to),
                        drank(fi, to),
                    ),
            ),
            bb_wf(result),
        decreases 82 - i,
    {
        let to = Square { index: i };
        let tf = to.file() as i8;
        let tr = to.rank() as i8;
        if i != from.index && is_step(piece.kind, piece.color, tf - ff, tr - fr) {
            result = bb_or(result, bb_single(to));
        }
        assert(bitboard_squares(result) =~= Set::new(
            |to: int|
                1 <= to < i + 1 && to != fi && step_target(
                    piece.kind,
                    piece.color,
                    dfile(fi, to),
                    drank(fi, to),
                ),
        ));
        i = i + 1;
    }
    assert(bitboard_squares(result) =~= step_set(piece, fi));
    result
}

/// Along a ray, the board is convex: between two squares on the board, every
/// square of the ray is on the board.
pub proof fn lemma_ray_convex(from: int, sf: int, sr: int, m: int, n: int)
    requires
        is_square_index(from),
        1 <= n <= m,
        ray_on_board(from, sf, sr, m),
        -1 <= sf <= 1,
        -1 <= sr <= 1,
    ensures
        ray_on_board(from, sf, sr, n),
{
    lemma_index_coords(from);
}

/// The squares that a piece sliding from `from` in direction (`sf`, `sr`) reaches.
fn ray_bitboard(occupied: Bitboard, from: Square, sf: i8, sr: i8) -> (b: Bitboard)
    requires
        from.wf(),
        -1 <= sf <= 1,
        -1 <= sr <= 1,
        sf != 0 || sr != 0,
    ensures
        bitboard_squares(b) == ray_set(
            bitboard_squares(occupied),
            from.index as int,
            sf as int,
            sr as int,
        ),
        bb_wf(b),
{
    let ghost fi = from.index as int;
    let ghost occ = bitboard_squares(occupied);
    let ghost s_f = sf as int;
    let ghost s_r = sr as int;
    proof {
        lemma_index_coords(fi);
    }
    let f0 = from.file() as i8;
    let r0 = from.rank() as i8;
    let mut result = bb_empty();
    let mut n: i8 = 1;
    let mut f: i8 = f0 + sf;
    let mut r: i8 = r0 + sr;
    while 1 <= f && f <= 9 && 1 <= r && r <= 9
        invariant
            1 <= n <= 9,
            fi == from.index,
            is_square_index(fi),
            occ == bitboard_squares(occupied),
            s_f == sf,
            s_r == sr,
            -1 <= sf <= 1,
            -1 <= sr <= 1,
            sf != 0 || sr != 0,
            f0 == file_of(fi),
            r0 == rank_of(fi),
            f == f0 + offset(n as int, s_f),
            r == r0 + offset(n as int, s_r),
            forall|j: int|
                1 <= j < n ==> ray_on_board(fi, s_f, s_r, j) && !occ.contains(
                    #[trigger] ray_square(fi, s_f, s_r, j),
                ),
            bitboard_squares(result) == Set::new(
                |to: int| exists|j: int| 1 <= j < n && #[trigger] ray_square(fi, s_f, s_r, j) == to,
            ),
            bb_wf(result),
        decreases 9 - n,
    {
        proof {
            lemma_square_index_coords(f as int, r as int);
        }
        let sq = Square::new(f as u8, r as u8).unwrap();
        assert(sq.index == ray_square(fi, s_f, s_r, n as int));
        result = bb_or(result, bb_single(sq));
        assert(bitboard_squares(result) =~= Set::new(
            |to: int| exists|j: int| 1 <= j < n + 1 && #[trigger] ray_square(fi, s_f, s_r, j) == to,
        )) by {
            assert forall|to: int|
                bitboard_squares(result).contains(to) implies exists|j: int|
                1 <= j < n + 1 && #[trigger] ray_square(fi, s_f, s_r, j) == to by {
                if to == sq.index {
                    assert(ray_square(fi, s_f, s_r, n as int) == to);
                }
            }
        }
        if bb_contains(occupied, sq) {
            assert(bitboard_squares(result) =~= ray_set(occ, fi, s_f, s_r)) by {
                assert forall|to: int| #[trigger]
                    bitboard_squares(result).contains(to) implies on_ray(
                    occ,
                    fi,
                    to,
                    s_f,
                    s_r,
                ) by {
                    let j = choose|j: int| 1 <= j < n + 1 && #[trigger] ray_square(fi, s_f, s_r, j) == to;
                    assert(ray_on_board(fi, s_f, s_r, j));
                    assert(ray_clear(occ, fi, s_f, s_r, j));
                }
                assert forall|to: int| on_ray(occ, fi, to, s_f, s_r) implies #[trigger]
                    bitboard_squares(result).contains(to) by {
                    let m = choose|m: int|
                        1 <= m && ray_on_board(fi, s_f, s_r, m) && #[trigger] ray_square(
                            fi,
                            s_f,
                            s_r,
                            m,
                        ) == to && ray_clear(occ, fi, s_f, s_r, m);
                    if m > n {
                        assert(!occ.contains(ray_square(fi, s_f, s_r, n as int)));
                    }
                    assert(ray_square(fi, s_f, s_r, m) == to);
                }
            }
            return result;
        }
        n = n + 1;
        f = f + sf;
        r = r + sr;
    }
    assert(bitboard_squares(result) =~= ray_set(occ, fi, s_f, s_r)) by {
        assert forall|to: int| #[trigger]
            bitboard_squares(result).contains(to) implies on_ray(occ, fi, to, s_f, s_r) by {
            let j = choose|j: int| 1 <= j < n && #[trigger] ray_square(fi, s_f, s_r, j) == to;
            assert(ray_on_board(fi, s_f, s_r, j));
            assert(ray_clear(occ, fi, s_f, s_r, j));
        }
        assert forall|to: int| on_ray(occ, fi, to, s_f, s_r) implies #[trigger]
            bitboard_squares(result).contains(to) by {
            let m = choose|m: int|
                1 <= m && ray_on_board(fi, s_f, s_r, m) && #[trigger] ray_square(fi, s_f, s_r, m)
                    == to && ray_clear(occ, fi, s_f, s_r, m);
            if m >= n {
                lemma_ray_convex(fi, s_f, s_r, m, n as int);
            }
            assert(ray_square(fi, s_f, s_r, m) == to);
        }
    }
    result
}


/// A square that a ray reaches is a square of the board other than its start.
pub proof fn lemma_on_ray_square(occ: Set<int>, from: int, sf: int, sr: int)
    requires
        is_square_index(from),
        -1 <= sf <= 1,
        -1 <= sr <= 1,
        sf != 0 || sr != 0,
    ensures
        forall|to: int|
            #[trigger] on_ray(occ, from, to, sf, sr) ==> is_square_index(to) && to != from,
{
    lemma_index_coords(from);
    assert forall|to: int| #[trigger] on_ray(occ, from, to, sf, sr) implies is_square_index(to)
        && to != from by {
        let n = choose|n: int|
            1 <= n && ray_on_board(from, sf, sr, n) && #[trigger] ray_square(from, sf, sr, n) == to
                && ray_clear(occ, from, sf, sr, n);
        let tf = file_of(from) + offset(n, sf);
        let tr = rank_of(from) + offset(n, sr);
        lemma_square_index_coords(tf, tr);
    }
}

/// The squares reachable along the four diagonals.
fn diagonal_bitboard(occupied: Bitboard, from: Square) -> (b: Bitboard)
    requires
        from.wf(),
    ensures
        bitboard_squares(b) == Set::new(
            |to: int| diagonal_slide(bitboard_squares(occupied), from.index as int, to),
        ),
        bb_wf(b),
{
    let a = ray_bitboard(occupied, from, 1, 1);
    let b = ray_bitboard(occupied, from, 1, -1);
    let c = ray_bitboard(occupied, from, -1, 1);
    let d = ray_bitboard(occupied, from, -1, -1);
    let r = bb_or(bb_or(a, b), bb_or(c, d));
    assert(bitboard_squares(r) =~= Set::new(
        |to: int| diagonal_slide(bitboard_squares(occupied), from.index as int, to),
    ));
    r
}

/// The squares reachable along the four orthogonal lines.
fn orthogonal_bitboard(occupied: Bitboard, from: Square) -> (b: Bitboard)
    requires
        from.wf(),
    ensures
        bitboard_squares(b) == Set::new(
            |to: int| orthogonal_slide(bitboard_squares(occupied), from.index as int, to),
        ),
        bb_wf(b),
{
    let a = ray_bitboard(occupied, from, 1, 0);
    let b = ray_bitboard(occupied, from, -1, 0);
    let c = ray_bitboard(occupied, from, 0, 1);
    let d = ray_bitboard(occupied, from, 0, -1);
    let r = bb_or(bb_or(a, b), bb_or(c, d));
    assert(bitboard_squares(r) =~= Set::new(
        |to: int| orthogonal_slide(bitboard_squares(occupied), from.index as int, to),
    ));
    r
}

/// The squares that `piece` on `from` reaches when the squares of `occupied`
/// are occupied.
pub(crate) fn attacks(occupied: Bitboard, piece: Piece, from: Square) -> (b: Bitboard)
    requires
        from.wf(),
    ensures
        bitboard_squares(b) == reach_set(bitboard_squares(occupied), piece, from.index as int),
        bb_wf(b),
{
    let ghost occ = bitboard_squares(occupied);
    let ghost fi = from.index as int;
    proof {
        lemma_on_ray_square(occ, fi, 1, 1);
        lemma_on_ray_square(occ, fi, 1, -1);
        lemma_on_ray_square(occ, fi, -1, 1);
        lemma_on_ray_square(occ, fi, -1, -1);
        lemma_on_ray_square(occ, fi, 1, 0);
        lemma_on_ray_square(occ, fi, -1, 0);
        lemma_on_ray_square(occ, fi, 0, 1);
        lemma_on_ray_square(occ, fi, 0, -1);
    }
    let result = match piece.kind {
        PieceKind::Lance => {
            let fw: i8 = match piece.color {
                Color::Black => -1,
                Color::White => 1,
            };
            ray_bitboard(occupied, from, 0, fw)
        },
        PieceKind::Bishop => diagonal_bitboard(occupied, from),
        PieceKind::ProBishop => bb_or(step_bitboard(piece, from), diagonal_bitboard(occupied, from)),
        PieceKind::Rook => orthogonal_bitboard(occupied, from),
        PieceKind::ProRook => bb_or(step_bitboard(piece, from), orthogonal_bitboard(occupied, from)),
        _ => step_bitboard(piece, from),
    };
    assert(bitboard_squares(result) =~= reach_set(occ, piece, fi));
    result
}


pub open spec fn max(a: int, b: int) -> int {
    if a > b {
        a
    } else {
        b
    }
}

/// A ray from `from` reaches `to` exactly when `to` lies on the ray, at the
/// distance of the larger coordinate difference, with the squares between vacant.
pub proof fn lemma_on_ray_iff(occ: Set<int>, from: int, to: int, a: int, b: int)
    requires
        is_square_index(from),
        is_square_index(to),
        -1 <= a <= 1,
        -1 <= b <= 1,
        a != 0 || b != 0,
    ensures
        on_ray(occ, from, to, a, b) <==> ({
            let df = dfile(from, to);
            let dr = drank(from, to);
            let n = max(abs(df), abs(dr));
            &&& n >= 1
            &&& df == offset(n, a)
            &&& dr == offset(n, b)
            &&& ray_clear(occ, from, a, b, n)
        }),
{
    lemma_index_coords(from);
    lemma_index_coords(to);
    let df = dfile(from, to);
    let dr = drank(from, to);
    let n = max(abs(df), abs(dr));
    if on_ray(occ, from, to, a, b) {
        let m = choose|m: int|
            1 <= m && ray_on_board(from, a, b, m) && #[trigger] ray_square(from, a, b, m) == to
                && ray_clear(occ, from, a, b, m);
        lemma_square_index_coords(file_of(from) + offset(m, a), rank_of(from) + offset(m, b));
        assert(n == m);
    }
    if n >= 1 && df == offset(n, a) && dr == offset(n, b) && ray_clear(occ, from, a, b, n) {
        assert(ray_on_board(from, a, b, n));
        assert(ray_square(from, a, b, n) == to);
    }
}

/// Whether the squares between `from` and `n` steps away in direction (`sf`,
/// `sr`) are vacant in `position`.
fn ray_is_clear(position: &PartialPosition, from: Square, sf: i8, sr: i8, n: i8) -> (b: bool)
    requires
        from.wf(),
        -1 <= sf <= 1,
        -1 <= sr <= 1,
        1 <= n <= 8,
        ray_on_board(from.index as int, sf as int, sr as int, n as int),
    ensures
        b == ray_clear(
            f_occupied(position_fields(*position)),
            from.index as int,
            sf as int,
            sr as int,
            n as int,
        ),
{
    let ghost fi = from.index as int;
    let ghost occ = f_occupied(position_fields(*position));
    proof {
        lemma_index_coords(fi);
    }
    let f0 = from.file() as i8;
    let r0 = from.rank() as i8;
    let mut j: i8 = 1;
    while j < n
        invariant
            1 <= j <= n,
            n <= 8,
            fi == from.index,
            is_square_index(fi),
            f0 == file_of(fi),
            r0 == rank_of(fi),
            -1 <= sf <= 1,
            -1 <= sr <= 1,
            ray_on_board(fi, sf as int, sr as int, n as int),
            occ == f_occupied(position_fields(*position)),
            forall|i: int| 1 <= i < j ==> !occ.contains(#[trigger] ray_square(fi, sf as int, sr as int, i)),
        decreases n - j,
    {
        proof {
            lemma_ray_convex(fi, sf as int, sr as int, n as int, j as int);
        }
        let f = f0 + if sf > 0 { j } else if sf < 0 { -j } else { 0 };
        let r = r0 + if sr > 0 { j } else if sr < 0 { -j } else { 0 };
        proof {
            lemma_square_index_coords(f as int, r as int);
        }
        let sq = Square::new(f as u8, r as u8).unwrap();
        assert(sq.index == ray_square(fi, sf as int, sr as int, j as int));
        let code = piece_code_at(position, sq);
        if code != 0 {
            assert(occ.contains(ray_square(fi, sf as int, sr as int, j as int)));
            return false;
        }
        j = j + 1;
    }
    true
}

/// Whether `piece` on `from` can move to `to` in `position` (whatever stands on `to`).
pub(crate) fn check(position: &PartialPosition, piece: Piece, from: Square, to: Square) -> (b: bool)
    requires
        from.wf(),
        to.wf(),
    ensures
        b == reaches(
            f_occupied(position_fields(*position)),
            piece,
            from.index as int,
            to.index as int,
        ),
{
    let ghost occ = f_occupied(position_fields(*position));
    let ghost fi = from.index as int;
    let ghost ti = to.index as int;
    if from.index == to.index {
        return false;
    }
    let df = to.file() as i8 - from.file() as i8;
    let dr = to.rank() as i8 - from.rank() as i8;
    if is_step(piece.kind, piece.color, df, dr) {
        return true;
    }
    proof {
        lemma_on_ray_iff(occ, fi, ti, 1, 1);
        lemma_on_ray_iff(occ, fi, ti, 1, -1);
        lemma_on_ray_iff(occ, fi, ti, -1, 1);
        lemma_on_ray_iff(occ, fi, ti, -1, -1);
        lemma_on_ray_iff(occ, fi, ti, 1, 0);
        lemma_on_ray_iff(occ, fi, ti, -1, 0);
        lemma_on_ray_iff(occ, fi, ti, 0, 1);
        lemma_on_ray_iff(occ, fi, ti, 0, -1);
        lemma_index_coords(fi);
        lemma_index_coords(ti);
    }
    let sf: i8 = if df > 0 {
        1
    } else if df < 0 {
        -1
    } else {
        0
    };
    let sr: i8 = if dr > 0 {
        1
    } else if dr < 0 {
        -1
    } else {
        0
    };
    let adf: i8 = if df < 0 {
        -df
    } else {
        df
    };
    let adr: i8 = if dr < 0 {
        -dr
    } else {
        dr
    };
    let fw: i8 = match piece.color {
        Color::Black => -1,
        Color::White => 1,
    };
    let aligned = match piece.kind {
        PieceKind::Lance => df == 0 && sr == fw,
        PieceKind::Bishop | PieceKind::ProBishop => adf == adr,
        PieceKind::Rook | PieceKind::ProRook => df == 0 || dr == 0,
        _ => false,
    };
    if !aligned {
        return false;
    }
    let n = if adf > adr {
        adf
    } else {
        adr
    };
    assert(ray_on_board(fi, sf as int, sr as int, n as int));
    ray_is_clear(position, from, sf, sr, n)
}


/// A ray read backwards is the opposite ray, with the same squares between.
pub proof fn lemma_ray_symmetric(occ: Set<int>, a: int, b: int, sf: int, sr: int)
    requires
        is_square_index(a),
        is_square_index(b),
        -1 <= sf <= 1,
        -1 <= sr <= 1,
        sf != 0 || sr != 0,
    ensures
        on_ray(occ, a, b, sf, sr) == on_ray(occ, b, a, -sf, -sr),
{
    lemma_on_ray_iff(occ, a, b, sf, sr);
    lemma_on_ray_iff(occ, b, a, -sf, -sr);
    lemma_index_coords(a);
    lemma_index_coords(b);
    let df = dfile(a, b);
    let dr = drank(a, b);
    let n = max(abs(df), abs(dr));
    if n >= 1 && df == offset(n, sf) && dr == offset(n, sr) {
        assert forall|j: int| 1 <= j < n implies #[trigger] ray_square(b, -sf, -sr, j)
            == ray_square(a, sf, sr, n - j) by {}
        if ray_clear(occ, a, sf, sr, n) {
            assert forall|j: int| 1 <= j < n implies !occ.contains(
                #[trigger] ray_square(b, -sf, -sr, j),
            ) by {
                assert(ray_square(b, -sf, -sr, j) == ray_square(a, sf, sr, n - j));
            }
        }
        if ray_clear(occ, b, -sf, -sr, n) {
            assert forall|j: int| 1 <= j < n implies !occ.contains(
                #[trigger] ray_square(a, sf, sr, j),
            ) by {
                assert(ray_square(b, -sf, -sr, n - j) == ray_square(a, sf, sr, j));
            }
        }
    }
}

/// A piece on `a` reaches `b` exactly when the same piece of the other player
/// on `b` reaches `a`.
pub proof fn lemma_reaches_symmetric(occ: Set<int>, p: Piece, a: int, b: int)
    ensures
        reaches(occ, p, a, b) == reaches(
            occ,
            Piece { kind: p.kind, color: p.color.spec_flip() },
            b,
            a,
        ),
{
    if is_square_index(a) && is_square_index(b) {
        lemma_ray_symmetric(occ, a, b, 1, 1);
        lemma_ray_symmetric(occ, a, b, 1, -1);
        lemma_ray_symmetric(occ, a, b, -1, 1);
        lemma_ray_symmetric(occ, a, b, -1, -1);
        lemma_ray_symmetric(occ, a, b, 1, 0);
        lemma_ray_symmetric(occ, a, b, -1, 0);
        lemma_ray_symmetric(occ, a, b, 0, 1);
        lemma_ray_symmetric(occ, a, b, 0, -1);
    }
}

/// The squares next to `square`.
pub(crate) fn king(square: Square) -> (b: Bitboard)
    requires
        square.wf(),
    ensures
        forall|occ: Set<int>|
            bitboard_squares(b) == reach_set(
                occ,
                Piece { kind: PieceKind::King, color: Color::Black },
                square.index as int,
            ),
        bb_wf(b),
{
    let b = step_bitboard(Piece { kind: PieceKind::King, color: Color::Black }, square);
    assert forall|occ: Set<int>|
        bitboard_squares(b) == reach_set(
            occ,
            Piece { kind: PieceKind::King, color: Color::Black },
            square.index as int,
        ) by {
        assert(bitboard_squares(b) =~= reach_set(
            occ,
            Piece { kind: PieceKind::King, color: Color::Black },
            square.index as int,
        ));
    }
    b
}

/// The squares that a piece on `square` reaches when the squares of `occupied`
/// are occupied (whatever stands on `square`).
pub(crate) fn from_candidates_without_assertion(occupied: Bitboard, piece: Piece, square: Square) -> (b:
    Bitboard)
    requires
        square.wf(),
    ensures
        bitboard_squares(b) == reach_set(bitboard_squares(occupied), piece, square.index as int),
        bb_wf(b),
{
    attacks(occupied, piece, square)
}

/// The squares that the piece on `from` in `position` reaches.
pub(crate) fn from_candidates(position: &PartialPosition, piece: Piece, from: Square) -> (b:
    Bitboard)
    requires
        from.wf(),
    ensures
        bitboard_squares(b) == reach_set(
            f_occupied(position_fields(*position)),
            piece,
            from.index as int,
        ),
        bb_wf(b),
{
    let occupied = occupied_bitboard(position);
    attacks(occupied, piece, from)
}

/// The squares that a knight of `color` on `square` reaches.
pub(crate) fn knight(color: Color, square: Square) -> (b: Bitboard)
    requires
        square.wf(),
    ensures
        forall|occ: Set<int>|
            bitboard_squares(b) == reach_set(
                occ,
                Piece { kind: PieceKind::Knight, color },
                square.index as int,
            ),
        bb_wf(b),
{
    let b = step_bitboard(Piece { kind: PieceKind::Knight, color }, square);
    assert forall|occ: Set<int>|
        bitboard_squares(b) == reach_set(
            occ,
            Piece { kind: PieceKind::Knight, color },
            square.index as int,
        ) by {
        assert(bitboard_squares(b) =~= reach_set(
            occ,
            Piece { kind: PieceKind::Knight, color },
            square.index as int,
        ));
    }
    b
}

/// The squares that a lance of `color` on `square` reaches.
pub(crate) fn lance_range(color: Color, square: Square, occupied: Bitboard) -> (b: Bitboard)
    requires
        square.wf(),
    ensures
        bitboard_squares(b) == reach_set(
            bitboard_squares(occupied),
            Piece { kind: PieceKind::Lance, color },
            square.index as int,
        ),
        bb_wf(b),
{
    attacks(occupied, Piece { kind: PieceKind::Lance, color }, square)
}

/// The squares that a bishop on `square` reaches.
pub(crate) fn bishop_range(square: Square, occupied: Bitboard) -> (b: Bitboard)
    requires
        square.wf(),
    ensures
        bitboard_squares(b) == Set::new(
            |to: int| diagonal_slide(bitboard_squares(occupied), square.index as int, to),
        ),
        bb_wf(b),
{
    diagonal_bitboard(occupied, square)
}

/// The squares that a rook on `square` reaches.
pub(crate) fn rook_range(square: Square, occupied: Bitboard) -> (b: Bitboard)
    requires
        square.wf(),
    ensures
        bitboard_squares(b) == Set::new(
            |to: int| orthogonal_slide(bitboard_squares(occupied), square.index as int, to),
        ),
        bb_wf(b),
{
    orthogonal_bitboard(occupied, square)
}

} // verus!
