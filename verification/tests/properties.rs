use shogi_core::PartialPosition;
use shogi_legality_lite::mate_solver::solve_mate_problem;
use shogi_legality_lite::perft::perft;
use shogi_legality_lite::prelegality::{
    all_valid_moves, is_mate, is_valid, is_valid_with_error, will_king_be_captured,
};
use shogi_legality_lite::types::{
    Color, IllegalMoveKind, Move, Piece, PieceKind, PositionStatus, Square,
};
use shogi_legality_lite::{
    all_checks_partial, all_drop_checks_partial, is_in_check_partial_lite, LiteLegalityChecker,
};
use shogi_usi_parser::FromUsi;

const MATE5: &str = "sfen 3g1ks2/6g2/4S4/7B1/9/9/9/9/9 b G2rbg2s4n4l18p 1";

fn sq(file: u8, rank: u8) -> Square {
    Square::new(file, rank).unwrap()
}

fn core_square(s: Square) -> shogi_core::Square {
    shogi_core::Square::from_u8(s.index).unwrap()
}

fn core_move(mv: Move) -> shogi_core::Move {
    match mv {
        Move::Normal { from, to, promote } => shogi_core::Move::Normal {
            from: core_square(from),
            to: core_square(to),
            promote,
        },
        Move::Drop { piece, to } => {
            let kind = shogi_core::PieceKind::from_u8(piece.piece_kind().to_code()).unwrap();
            let color = match piece.color() {
                Color::Black => shogi_core::Color::Black,
                Color::White => shogi_core::Color::White,
            };
            shogi_core::Move::Drop {
                piece: shogi_core::Piece::new(kind, color),
                to: core_square(to),
            }
        }
    }
}

fn position(sfen: &str) -> PartialPosition {
    PartialPosition::from_usi(sfen).unwrap()
}

fn normal(from: Square, to: Square, promote: bool) -> shogi_core::Move {
    shogi_core::Move::Normal {
        from: core_square(from),
        to: core_square(to),
        promote,
    }
}

/// The moves of one of the shortest games, in which black mates.
fn shortest_mate() -> Vec<shogi_core::Move> {
    vec![
        normal(sq(2, 7), sq(2, 6), false),
        normal(sq(5, 1), sq(4, 2), false),
        normal(sq(2, 6), sq(2, 5), false),
        normal(sq(4, 2), sq(3, 2), false),
        normal(sq(2, 5), sq(2, 4), false),
        normal(sq(8, 2), sq(4, 2), false),
        normal(sq(2, 4), sq(2, 3), true),
    ]
}

fn after(position: &PartialPosition, mv: Move) -> PartialPosition {
    let mut next = position.clone();
    next.make_move(core_move(mv)).unwrap();
    next
}

/// Every normal move between two squares, and every drop of a piece of the
/// player to move.
fn candidate_moves(position: &PartialPosition) -> Vec<Move> {
    let mut result = Vec::new();
    for from in 1..=81u8 {
        for to in 1..=81u8 {
            for promote in [false, true] {
                result.push(Move::Normal {
                    from: Square { index: from },
                    to: Square { index: to },
                    promote,
                });
            }
        }
    }
    let color = match position.side_to_move() {
        shogi_core::Color::Black => Color::Black,
        shogi_core::Color::White => Color::White,
    };
    for kind in [
        PieceKind::Pawn,
        PieceKind::Lance,
        PieceKind::Knight,
        PieceKind::Silver,
        PieceKind::Gold,
        PieceKind::Bishop,
        PieceKind::Rook,
    ] {
        for to in 1..=81u8 {
            result.push(Move::Drop {
                piece: Piece::new(kind, color),
                to: Square { index: to },
            });
        }
    }
    result
}

#[test]
fn legal_moves_can_be_made() {
    for sfen in [
        "sfen lnsgkgsnl/1r5b1/ppppppppp/9/9/9/PPPPPPPPP/1B5R1/LNSGKGSNL b - 1",
        MATE5,
    ] {
        let pos = position(sfen);
        let moves = LiteLegalityChecker.all_legal_moves_partial(&pos);
        assert!(!moves.is_empty());
        for mv in moves {
            let mut next = pos.clone();
            assert!(next.make_move(core_move(mv)).is_some());
            assert!(LiteLegalityChecker.is_legal_partial(&pos, mv).is_ok());
        }
    }
}

#[test]
fn legality_checks_agree() {
    let pos = position(MATE5);
    let listed = LiteLegalityChecker.all_legal_moves_partial(&pos);
    let mut legal = 0;
    for mv in candidate_moves(&pos) {
        let lite = LiteLegalityChecker.is_legal_partial_lite(&pos, mv);
        assert_eq!(lite, LiteLegalityChecker.is_legal_partial(&pos, mv).is_ok());
        assert_eq!(lite, listed.contains(&mv));
        assert_eq!(is_valid(&pos, mv), is_valid_with_error(&pos, mv).is_ok());
        if lite {
            legal += 1;
        }
    }
    assert_eq!(legal, listed.len());
}

#[test]
fn won_position_has_no_legal_moves() {
    let mut pos = PartialPosition::startpos();
    for mv in shortest_mate() {
        pos.make_move(mv).unwrap();
    }
    assert_eq!(is_mate(&pos), Some(true));
    assert_eq!(LiteLegalityChecker.status_partial(&pos), PositionStatus::BlackWins);
    assert!(LiteLegalityChecker.all_legal_moves_partial(&pos).is_empty());
    for mv in candidate_moves(&pos) {
        assert!(!LiteLegalityChecker.is_legal_partial_lite(&pos, mv));
    }
}

#[test]
fn status_partial_reports_no_draw_where_status_does() {
    let mut game = shogi_core::Position::startpos();
    let king_moves = [(5, 9, 5, 8), (5, 1, 5, 2), (5, 8, 5, 9), (5, 2, 5, 1)];
    for _ in 0..3 {
        for (ff, fr, tf, tr) in king_moves {
            let mv = shogi_core::Move::Normal {
                from: core_square(sq(ff, fr)),
                to: core_square(sq(tf, tr)),
                promote: false,
            };
            game.make_move(mv).unwrap();
        }
    }
    assert_eq!(LiteLegalityChecker.status(&game), PositionStatus::Draw);
    assert_eq!(
        LiteLegalityChecker.status_partial(game.inner()),
        PositionStatus::InProgress
    );
}

#[test]
fn status_counts_the_fourth_appearance() {
    // Two rounds of king moves bring the start position back twice: three
    // appearances, which is no draw yet.
    let mut game = shogi_core::Position::startpos();
    let king_moves = [(5, 9, 5, 8), (5, 1, 5, 2), (5, 8, 5, 9), (5, 2, 5, 1)];
    for _ in 0..2 {
        for (ff, fr, tf, tr) in king_moves {
            let mv = shogi_core::Move::Normal {
                from: core_square(sq(ff, fr)),
                to: core_square(sq(tf, tr)),
                promote: false,
            };
            game.make_move(mv).unwrap();
        }
    }
    assert_eq!(LiteLegalityChecker.status(&game), PositionStatus::InProgress);
}

#[test]
fn status_of_a_won_game_is_that_of_its_position() {
    let mut game = shogi_core::Position::startpos();
    for mv in shortest_mate() {
        game.make_move(mv).unwrap();
    }
    assert_eq!(LiteLegalityChecker.status(&game), PositionStatus::BlackWins);
}

#[test]
fn perft_of_one_ply_counts_legal_moves() {
    for sfen in [
        MATE5,
        "sfen 5kgnl/9/4+B1pp1/8p/9/9/9/9/9 b 2S2rb3g2s3n3l15p 1",
        "sfen 7l1/7pk/7n1/8R/7N1/9/9/9/9 w r2b4g4s2n3l17p 1",
    ] {
        let pos = position(sfen);
        let n = LiteLegalityChecker.all_legal_moves_partial(&pos).len() as u64;
        assert_eq!(perft(pos, 1).all, n);
    }
}

#[test]
fn perft_of_two_plies_sums_over_legal_moves() {
    let pos = position(MATE5);
    let mut sum = 0;
    for mv in LiteLegalityChecker.all_legal_moves_partial(&pos) {
        sum += perft(after(&pos, mv), 1).all;
    }
    assert_eq!(perft(pos, 2).all, sum);
}

#[test]
fn mate_line_is_checks_and_legal_replies() {
    let pos = position(MATE5);
    let (result, stats) = solve_mate_problem(&pos, 5);
    assert!(result.is_mate);
    assert!(stats.nodes > 0);
    assert!(stats.edges > 0);
    let mut line = result.pv_rev.clone();
    line.reverse();
    assert!(line.len() <= 5);
    assert_eq!(line.len() % 2, 1);
    let mut current = pos;
    for (i, mv) in line.iter().enumerate() {
        if i % 2 == 0 {
            assert!(all_checks_partial(&current).contains(mv));
        } else {
            assert!(LiteLegalityChecker.is_legal_partial_lite(&current, *mv));
        }
        current = after(&current, *mv);
    }
    assert!(LiteLegalityChecker.all_legal_moves_partial(&current).is_empty());
}

#[test]
fn no_mate_is_found_too_shallow() {
    let pos = position("sfen 5kgnl/9/4+B1pp1/8p/9/9/9/9/9 b 2S2rb3g2s3n3l15p 1");
    let (result, _) = solve_mate_problem(&pos, 7);
    assert!(!result.is_mate);
    let (result, _) = solve_mate_problem(&pos, 0);
    assert!(!result.is_mate);
    assert!(result.pv_rev.is_empty());
}

#[test]
fn checking_moves_give_check() {
    for sfen in [
        MATE5,
        "sfen 5kgnl/9/4+B1pp1/8p/9/9/9/9/9 b 2S2rb3g2s3n3l15p 1",
        "sfen 7nk/9/6PB1/6NP1/9/9/9/9/9 b P2rb4g4s2n4l15p 1",
    ] {
        let pos = position(sfen);
        assert!(!is_in_check_partial_lite(&pos));
        for mv in all_checks_partial(&pos) {
            assert!(is_in_check_partial_lite(&after(&pos, mv)));
        }
        // Every legal normal move that checks is listed.
        let checks = all_checks_partial(&pos);
        for mv in LiteLegalityChecker.all_legal_moves_partial(&pos) {
            if !mv.is_drop() && is_in_check_partial_lite(&after(&pos, mv)) {
                assert!(checks.contains(&mv));
            }
        }
    }
}

#[test]
fn drop_checks_agree_with_all_checks() {
    let pos = position(MATE5);
    let checks = all_checks_partial(&pos);
    let gold = all_drop_checks_partial(&pos, PieceKind::Gold);
    let gold_drops = checks
        .iter()
        .filter(|mv| matches!(mv, Move::Drop { piece, .. } if piece.piece_kind() == PieceKind::Gold))
        .count();
    assert_eq!(gold.count() as usize, gold_drops);
    assert_eq!(gold_drops, 3);
    // Black has no pawn in hand here.
    assert!(all_drop_checks_partial(&pos, PieceKind::Pawn).is_empty());
}

#[test]
fn pawn_drop_check_is_the_square_before_the_king() {
    let pos = position("sfen 4k4/9/9/9/9/9/9/9/4K4 b P 1");
    let bb = all_drop_checks_partial(&pos, PieceKind::Pawn);
    assert_eq!(bb.count(), 1);
    assert!(bb.contains(core_square(sq(5, 2))));
}

#[test]
fn detailed_errors() {
    // A pawn dropped on a file that holds one already.
    let pos = position("sfen 4k4/9/9/9/9/9/4P4/9/4K4 b P 1");
    let drop_pawn = |to: Square| Move::Drop {
        piece: Piece::new(PieceKind::Pawn, Color::Black),
        to,
    };
    assert_eq!(
        is_valid_with_error(&pos, drop_pawn(sq(5, 5))),
        Err(IllegalMoveKind::TwoPawns)
    );
    // A pawn dropped where it could never move.
    assert_eq!(
        is_valid_with_error(&pos, drop_pawn(sq(1, 1))),
        Err(IllegalMoveKind::DropStuck)
    );
    assert_eq!(is_valid_with_error(&pos, drop_pawn(sq(1, 2))), Ok(()));
    // A piece that is not in hand.
    let drop_gold = Move::Drop {
        piece: Piece::new(PieceKind::Gold, Color::Black),
        to: sq(1, 5),
    };
    assert_eq!(
        is_valid_with_error(&pos, drop_gold),
        Err(IllegalMoveKind::IncorrectMove)
    );
    // A move from an empty square.
    let from_empty = Move::Normal {
        from: sq(1, 5),
        to: sq(1, 4),
        promote: false,
    };
    assert_eq!(
        is_valid_with_error(&pos, from_empty),
        Err(IllegalMoveKind::IncorrectMove)
    );
    assert!(!is_valid(&pos, from_empty));

    // A pawn that moves to the last rank without promoting.
    let pos = position("sfen k8/4P4/9/9/9/9/9/9/4K4 b - 1");
    let to_last = |promote: bool| Move::Normal {
        from: sq(5, 2),
        to: sq(5, 1),
        promote,
    };
    assert_eq!(
        is_valid_with_error(&pos, to_last(false)),
        Err(IllegalMoveKind::NormalStuck)
    );
    assert_eq!(is_valid_with_error(&pos, to_last(true)), Ok(()));

    // A king that walks into the file of a rook.
    let pos = position("sfen 3rk4/9/9/9/9/9/9/9/4K4 b - 1");
    let into_check = Move::Normal {
        from: sq(5, 9),
        to: sq(6, 9),
        promote: false,
    };
    assert_eq!(is_valid_with_error(&pos, into_check), Ok(()));
    assert_eq!(
        LiteLegalityChecker.is_legal_partial(&pos, into_check),
        Err(IllegalMoveKind::IgnoredCheck)
    );
    assert!(!LiteLegalityChecker.is_legal_partial_lite(&pos, into_check));

    // A pawn dropped to mate.
    let pos = position("sfen 7lk/7p1/8G/9/9/9/9/9/4K4 b P 1");
    let mate_drop = drop_pawn(sq(1, 2));
    assert_eq!(
        is_valid_with_error(&pos, mate_drop),
        Err(IllegalMoveKind::DropPawnMate)
    );
    assert!(!is_valid(&pos, mate_drop));
}

#[test]
fn status_partial_finds_too_many_pieces() {
    let pos = position("sfen 4k4/9/9/9/9/9/9/9/R3K3R b R 1");
    assert_eq!(LiteLegalityChecker.status_partial(&pos), PositionStatus::Invalid);
    let pos = position("sfen 4k4/9/9/9/9/9/9/9/R3K4 b R 1");
    assert_eq!(LiteLegalityChecker.status_partial(&pos), PositionStatus::InProgress);
}

#[test]
fn kings_missing() {
    // No black king: no mate can be decided for black.
    let pos = position("sfen 4k4/9/9/9/9/9/9/9/9 b - 1");
    assert_eq!(is_mate(&pos), None);
    // No white king to capture.
    let pos = position("sfen 9/9/9/9/9/9/9/9/4K4 b - 1");
    assert_eq!(will_king_be_captured(&pos), None);
    // Black can capture the white king.
    let pos = position("sfen 4k4/4R4/9/9/9/9/9/9/4K4 b - 1");
    assert_eq!(will_king_be_captured(&pos), Some(true));
    let pos = position("sfen 4k4/9/9/9/9/9/9/9/4K4 b - 1");
    assert_eq!(will_king_be_captured(&pos), Some(false));
}

#[test]
fn candidate_bitboards() {
    let pos = PartialPosition::startpos();
    let rook = LiteLegalityChecker.normal_from_candidates(&pos, sq(2, 8));
    assert_eq!(rook.count(), 6);
    let pawn = LiteLegalityChecker.normal_from_candidates(&pos, sq(7, 7));
    assert_eq!(pawn.count(), 1);
    assert!(pawn.contains(core_square(sq(7, 6))));
    // A square of the opponent.
    assert!(LiteLegalityChecker
        .normal_from_candidates(&pos, sq(3, 3))
        .is_empty());
    let black_pawn = Piece::new(PieceKind::Pawn, Color::Black);
    let to_7f = LiteLegalityChecker.normal_to_candidates(&pos, sq(7, 6), black_pawn);
    assert_eq!(to_7f.count(), 1);
    assert!(to_7f.contains(core_square(sq(7, 7))));
    // No pawn in hand at the start.
    assert!(LiteLegalityChecker.drop_candidates(&pos, black_pawn).is_empty());
    // With a pawn in hand, files without a black pawn, ranks 2 to 9, vacant squares.
    let pos = position("sfen 4k4/9/9/9/9/9/4P4/9/4K4 b P 1");
    let drops = LiteLegalityChecker.drop_candidates(&pos, black_pawn);
    assert_eq!(drops.count(), 8 * 8);
}

#[test]
fn valid_moves_at_the_start() {
    let pos = PartialPosition::startpos();
    let valid = all_valid_moves(&pos);
    assert_eq!(valid.len(), 30);
    for mv in valid {
        assert!(is_valid(&pos, mv));
    }
}

#[test]
fn pawn_drop_without_opposing_king() {
    // With no white king, no drop-pawn-mate can happen: both checks accept
    // the drop.
    let pos = position("sfen 9/9/9/9/9/9/9/9/4K4 b P 1");
    let mv = Move::Drop {
        piece: Piece::new(PieceKind::Pawn, Color::Black),
        to: sq(1, 5),
    };
    assert!(is_valid(&pos, mv));
    assert_eq!(is_valid_with_error(&pos, mv), Ok(()));
    assert!(LiteLegalityChecker.is_legal_partial_lite(&pos, mv));
    assert_eq!(LiteLegalityChecker.is_legal_partial(&pos, mv), Ok(()));
    // The same with the position of a drop by white next to its king, where
    // black has no king.
    let pos = position("sfen 7l1/7pk/7n1/8R/7N1/9/9/9/9 w r2b4g4s2n3l17p 1");
    let mv = Move::Drop {
        piece: Piece::new(PieceKind::Pawn, Color::White),
        to: sq(1, 3),
    };
    assert_eq!(is_valid_with_error(&pos, mv), Ok(()));
}

#[test]
fn invalid_position_still_has_legal_moves() {
    // Three rooks: the position is invalid, yet moves in it are legal.
    let pos = position("sfen 4k4/9/9/9/9/9/9/9/R3K3R b R 1");
    assert_eq!(LiteLegalityChecker.status_partial(&pos), PositionStatus::Invalid);
    assert!(!LiteLegalityChecker.all_legal_moves_partial(&pos).is_empty());
}

#[test]
fn piece_codes_round_trip() {
    for color in [Color::Black, Color::White] {
        for code in 1..=14u8 {
            let kind = PieceKind::from_code(code).unwrap();
            let piece = Piece::new(kind, color);
            assert_eq!(Piece::from_code(piece.to_code()), Some(piece));
        }
    }
    assert_eq!(Piece::from_code(0), None);
    assert_eq!(Piece::from_code(15), None);
}

#[test]
fn mate_solver_finds_the_shortest_mate() {
    let pos = position(MATE5);
    let (shallow, _) = solve_mate_problem(&pos, 3);
    assert!(!shallow.is_mate);
    assert!(shallow.pv_rev.is_empty());
    for depth in [5, 7, 9] {
        let (result, _) = solve_mate_problem(&pos, depth);
        assert!(result.is_mate);
        assert_eq!(result.pv_rev.len(), 5);
    }
    let pos = position("sfen 5kgnl/9/4+B1pp1/8p/9/9/9/9/9 b 2S2rb3g2s3n3l15p 1");
    let (result, _) = solve_mate_problem(&pos, 11);
    assert!(result.is_mate);
    assert_eq!(result.pv_rev.len(), 9);
}

#[test]
fn mate_solver_counts_one_node_at_depth_zero() {
    let pos = position(MATE5);
    let (result, stats) = solve_mate_problem(&pos, 0);
    assert!(!result.is_mate);
    assert_eq!(stats.nodes, 1);
    assert_eq!(stats.edges, 0);
}

#[test]
fn mate_line_follows_quickest_checks_and_longest_replies() {
    let pos = position(MATE5);
    let (result, _) = solve_mate_problem(&pos, 9);
    let mut line = result.pv_rev.clone();
    line.reverse();
    let mut current = pos;
    for (i, mv) in line.iter().enumerate() {
        let left = line.len() - i;
        if i % 2 == 0 {
            // No check mates quicker than the rest of the line.
            let (sub, _) = solve_mate_problem(&current, left);
            assert_eq!(sub.pv_rev.len(), left);
            if left > 2 {
                let (quicker, _) = solve_mate_problem(&current, left - 2);
                assert!(!quicker.is_mate);
            }
        } else {
            // No legal reply escapes within the rest of the line.
            for reply in LiteLegalityChecker.all_legal_moves_partial(&current) {
                let (sub, _) = solve_mate_problem(&after(&current, reply), left - 1);
                assert!(sub.is_mate);
            }
        }
        current = after(&current, *mv);
    }
}

#[test]
fn mating_drop_need_not_answer_a_check() {
    // Black's king is in check from the rook on 5a; dropping the gold on 1b
    // mates white but leaves the check, so the solver's line holds a drop that
    // is not legal.
    let pos = position("sfen 4r2lk/7p1/8G/9/9/9/9/9/4K4 b G 1");
    assert!(is_in_check_partial_lite(&pos));
    let (result, _) = solve_mate_problem(&pos, 1);
    assert!(result.is_mate);
    assert_eq!(result.pv_rev.len(), 1);
    let mv = result.pv_rev[0];
    assert!(mv.is_drop());
    assert!(is_valid(&pos, mv));
    assert!(!LiteLegalityChecker.is_legal_partial_lite(&pos, mv));
}
