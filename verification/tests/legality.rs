use shogi_core::{PartialPosition, ToUsi};
use shogi_legality_lite::mate_solver::solve_mate_problem;
use shogi_legality_lite::perft::perft;
use shogi_legality_lite::prelegality::is_valid;
use shogi_legality_lite::types::{Color, Move, Piece, PieceKind, PositionStatus, Square};
use shogi_legality_lite::{all_checks_partial, LiteLegalityChecker};
use shogi_usi_parser::FromUsi;

fn sq(file: u8, rank: u8) -> Square {
    Square::new(file, rank).unwrap()
}

fn core_square(s: Square) -> shogi_core::Square {
    shogi_core::Square::from_u8(s.index).unwrap()
}

fn core_move(mv: Move) -> shogi_core::Move {
    match mv {
        Move::Normal { from, to, promote } => shogi_core::Move::Normal {
            from: core_square(from),
            to: core_square(to),
            promote,
        },
        Move::Drop { piece, to } => {
            let kind = shogi_core::PieceKind::from_u8(piece.piece_kind().to_code()).unwrap();
            let color = match piece.color() {
                Color::Black => shogi_core::Color::Black,
                Color::White => shogi_core::Color::White,
            };
            shogi_core::Move::Drop {
                piece: shogi_core::Piece::new(kind, color),
                to: core_square(to),
            }
        }
    }
}

fn normal(from: Square, to: Square, promote: bool) -> shogi_core::Move {
    shogi_core::Move::Normal {
        from: core_square(from),
        to: core_square(to),
        promote,
    }
}

#[test]
fn all_legal_moves_partial_works() {
    let position = PartialPosition::startpos();
    let first_moves = LiteLegalityChecker.all_legal_moves_partial(&position);
    assert_eq!(first_moves.len(), 30);
}

#[test]
fn status_works() {
    let position = shogi_core::Position::startpos();
    let result = LiteLegalityChecker.status(&position);
    assert_eq!(result, PositionStatus::InProgress);

    let moves_a = [
        normal(sq(5, 9), sq(5, 8), false),
        normal(sq(5, 1), sq(5, 2), false),
        normal(sq(5, 8), sq(5, 9), false),
        normal(sq(5, 2), sq(5, 1), false),
    ];

    // Slightly different from moves_a
    let moves_b = [
        normal(sq(5, 9), sq(4, 8), false),
        normal(sq(5, 1), sq(6, 2), false),
        normal(sq(4, 8), sq(5, 9), false),
        normal(sq(6, 2), sq(5, 1), false),
    ];
    let mut moves = vec![];
    for _ in 0..3 {
        moves.extend_from_slice(&moves_a);
    }
    let mut position = shogi_core::Position::startpos();
    for mv in moves {
        position.make_move(mv).unwrap();
    }
    let result = LiteLegalityChecker.status(&position);
    assert_eq!(result, PositionStatus::Draw);

    // Even if exactly the same sequence of moves are not made three times, it is considered repetition.
    let mut moves = vec![];
    moves.extend_from_slice(&moves_a);
    moves.extend_from_slice(&moves_b);
    moves.extend_from_slice(&moves_a);
    let mut position = shogi_core::Position::startpos();
    for mv in moves {
        position.make_move(mv).unwrap();
    }
    let result = LiteLegalityChecker.status(&position);
    assert_eq!(result, PositionStatus::Draw);
}

#[test]
fn status_partial_works() {
    let position = PartialPosition::startpos();
    let result = LiteLegalityChecker.status_partial(&position);
    assert_eq!(result, PositionStatus::InProgress);
    // One of the shortest mate sequences
    let moves = [
        normal(sq(2, 7), sq(2, 6), false),
        normal(sq(5, 1), sq(4, 2), false),
        normal(sq(2, 6), sq(2, 5), false),
        normal(sq(4, 2), sq(3, 2), false),
        normal(sq(2, 5), sq(2, 4), false),
        normal(sq(8, 2), sq(4, 2), false),
        normal(sq(2, 4), sq(2, 3), true),
    ];
    let mut position = PartialPosition::startpos();
    for mv in moves {
        position.make_move(mv).unwrap();
    }
    let result = LiteLegalityChecker.status_partial(&position);
    assert_eq!(result, PositionStatus::BlackWins);
}

#[test]
fn all_checks_partial_works_0() {
    let position =
        PartialPosition::from_usi("sfen 3g1ks2/6g2/4S4/7B1/9/9/9/9/9 b G2rbg2s4n4l18p 1").unwrap();
    let checks = all_checks_partial(&position);
    assert_eq!(checks.len(), 9);
    assert_eq!(checks.iter().filter(|mv| mv.is_drop()).count(), 3);
}

#[test]
fn all_checks_partial_works_1() {
    let position =
        PartialPosition::from_usi("sfen 5kgnl/9/4+B1pp1/8p/9/9/9/9/9 b 2S2rb3g2s3n3l15p 1")
            .unwrap();
    let checks = all_checks_partial(&position);
    assert_eq!(checks.len(), 7);
    assert_eq!(checks.iter().filter(|mv| mv.is_drop()).count(), 3);
}

#[test]
fn all_checks_partial_works_2() {
    let position =
        PartialPosition::from_usi("sfen 7nk/9/6PB1/6NP1/9/9/9/9/9 b P2rb4g4s2n4l15p 1").unwrap();
    let checks = all_checks_partial(&position);
    assert_eq!(checks.len(), 2);
    assert_eq!(checks.iter().filter(|mv| mv.is_drop()).count(), 0);
}

#[test]
fn solve_mate_problem_works_0() {
    let position =
        PartialPosition::from_usi("sfen 3g1ks2/6g2/4S4/7B1/9/9/9/9/9 b G2rbg2s4n4l18p 1").unwrap();
    let (result, _stat) = solve_mate_problem(&position, 5);
    assert!(result.is_mate);
}

#[test]
fn solve_mate_problem_works_1() {
    let position =
        PartialPosition::from_usi("sfen 5kgnl/9/4+B1pp1/8p/9/9/9/9/9 b 2S2rb3g2s3n3l15p 1")
            .unwrap();
    let (result, _stat) = solve_mate_problem(&position, 9);
    assert!(result.is_mate);
    let mut pv = result.pv_rev;
    pv.reverse();
    assert_eq!(core_move(pv[0]).to_usi_owned(), "S*5b");
    assert_eq!(core_move(pv[1]).to_usi_owned(), "4a3b");
}

#[test]
fn perft_result_matches() {
    // Table is retrieved from https://qiita.com/ak11/items/8bd5f2bb0f5b014143c8.
    let table_all: [u64; 9] = [
        1,
        30,
        900,
        25470,
        719731,
        19861490,
        547581517,
        15086269607,
        416062133009,
    ];
    for (depth, &expected) in table_all[..4].iter().enumerate() {
        let pos = PartialPosition::startpos();
        let result = perft(pos, depth);
        assert_eq!(result.all, expected);
    }
}

#[test]
fn drop_pawn_0() {
    let position =
        PartialPosition::from_usi("sfen 7l1/7pk/7n1/8R/7N1/9/9/9/9 w r2b4g4s2n3l17p 1").unwrap();
    let mv = Move::Drop {
        piece: Piece::new(PieceKind::Pawn, Color::White),
        to: sq(1, 3),
    };
    assert!(is_valid(&position, mv));
}
