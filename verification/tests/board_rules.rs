use hyperchess::board::hfen::{parse_ep_square, parse_hfen};
use hyperchess::board::movegen::legality::attacked_squares;
use hyperchess::board::perft::perft;
use hyperchess::board::Board;
use hyperchess::core_types::masks::START_HFEN;
use hyperchess::core_types::piece::Piece;
use hyperchess::core_types::piece_type::PieceType;
use hyperchess::core_types::player::Player;
use hyperchess::core_types::sq::{no_sq, SQ};

/// Counts the legal moves of pieces of one type.
fn count_moves_for_piece(board: &Board, pt: PieceType) -> usize {
    let moves = board.generate_moves();
    moves.iter().filter(|m| board.piece_at(m.get_src()).type_of() == pt).count()
}

/// Counts the legal moves from one square.
fn count_moves_from(board: &Board, src: SQ) -> usize {
    let moves = board.generate_moves();
    moves.iter().filter(|m| m.get_src() == src).count()
}

// ── HFEN ────────────────────────────────────────────────────────────────────

#[test]
fn test_parse_start_hfen() {
    let hfen = START_HFEN;
    let data = parse_hfen(hfen).unwrap();
    assert_eq!(data.turn, Player::White);
    assert_eq!(data.castling, "-");
    assert_eq!(data.ep, "-");
    // Count pieces: 12+12 = 24 per side = 48 total
    assert_eq!(data.pieces.len(), 48);
    assert_eq!(data.pieces[0].2, 'a');
}

#[test]
fn test_parse_empty_ranks() {
    let hfen = "12/12/12/12/12/12/12/12/12/12/12/12 w - - 0 1";
    let data = parse_hfen(hfen).unwrap();
    assert_eq!(data.pieces.len(), 0);
}

#[test]
fn test_parse_multi_digit() {
    let hfen = "12/12/12/12/12/12/12/12/12/12/12/12 w - - 0 1";
    let data = parse_hfen(hfen).unwrap();
    assert!(data.pieces.is_empty());
}

#[test]
fn test_promotion_round_trip_identity_mode() {
    let hfen = "12/M11/6g5/12/12/12/12/12/12/12/6G5/12 w - - 0 1";
    let mut board = Board::from_hfen(hfen).expect("test HFEN should parse");

    let promo = board
        .generate_moves()
        .iter()
        .copied()
        .find(|m| m.is_promo() && m.promo_piece() == PieceType::Q)
        .expect("queen promotion should be legal");
    board.apply_move(promo);

    let out = board.get_hfen();
    assert!(out.starts_with("M:Q11/"), "expected an inline 'M:Q' pair on a12, got: {out}");
    assert_eq!(out.split_whitespace().count(), 6, "inline pairs must not add extra fields: {out}");

    let reparsed = Board::from_hfen(&out).expect("promoted HFEN-I should parse");
    let a12 = SQ::make(0, 11);
    assert_eq!(reparsed.piece_at(a12), Piece::WhiteQueen);
    assert_eq!(reparsed.piece_identity_at(a12), Some('M'));
    assert_eq!(reparsed.get_hfen(), out);
    assert_eq!(reparsed.state.zobrist, board.state.zobrist);
    assert_eq!(reparsed.generate_moves().len(), board.generate_moves().len());
}

#[test]
fn test_promotion_round_trip_all_types() {
    let hfen = "12/M11/6g5/12/12/12/12/12/12/12/6G5/12 w - - 0 1";
    let base = Board::from_hfen(hfen).expect("test HFEN should parse");
    let promos: Vec<_> =
        base.generate_moves().iter().copied().filter(|m| m.is_promo() && !m.is_capture()).collect();
    assert!(!promos.is_empty());
    for m in promos {
        let mut board = base.clone();
        board.apply_move(m);
        let out = board.get_hfen();
        let reparsed = Board::from_hfen(&out).expect("promoted HFEN-I should parse");
        let a12 = SQ::make(0, 11);
        assert_eq!(
            reparsed.piece_at(a12).player_piece_lossy().1,
            m.promo_piece(),
            "promotion to {:?} did not round-trip: {out}",
            m.promo_piece()
        );
        assert_eq!(reparsed.piece_identity_at(a12), Some('M'));
        assert_eq!(reparsed.get_hfen(), out);
    }
    assert!(base.generate_moves().iter().any(|m| m.is_promo() && m.promo_piece() == PieceType::Q));
}

#[test]
fn test_multi_promotion_inline_pairs_round_trip() {
    let hfen = "M:Q10N:E/6g5/2o9/12/12/12/12/12/12/2O9/6G5/m:q10x:h w - - 3 40";
    let board = Board::from_hfen(hfen).expect("multi-promotion HFEN-I should parse");

    assert_eq!(board.piece_at(SQ::make(0, 11)), Piece::WhiteQueen);
    assert_eq!(board.piece_at(SQ::make(11, 11)), Piece::WhiteEagle);
    assert_eq!(board.piece_at(SQ::make(0, 0)), Piece::BlackQueen);
    assert_eq!(board.piece_at(SQ::make(11, 0)), Piece::BlackHawk);

    assert_eq!(board.piece_identity_at(SQ::make(0, 11)), Some('M'));
    assert_eq!(board.piece_identity_at(SQ::make(11, 11)), Some('N'));
    assert_eq!(board.piece_identity_at(SQ::make(0, 0)), Some('m'));
    assert_eq!(board.piece_identity_at(SQ::make(11, 0)), Some('x'));

    assert_eq!(board.piece_at(SQ::make(2, 2)), Piece::WhitePawn);
    assert_eq!(board.piece_at(SQ::make(2, 9)), Piece::BlackPawn);

    assert_eq!(board.get_hfen(), hfen);
}

#[test]
fn test_inline_pair_rejects_malformed() {
    assert!(Board::from_hfen("M:q11/6g5/12/12/12/12/12/12/12/12/6G5/12 w - - 0 1").is_err());
    assert!(Board::from_hfen("M:Z11/6g5/12/12/12/12/12/12/12/12/6G5/12 w - - 0 1").is_err());
    assert!(Board::from_hfen("11M:/6g5/12/12/12/12/12/12/12/12/6G5/12 w - - 0 1").is_err());
}

#[test]
fn test_promotion_round_trip_legacy_mode() {
    let hfen = "12/P11/6k5/12/12/12/12/12/12/12/6K5/12 w - - 0 1";
    let mut board = Board::from_hfen(hfen).expect("test HFEN should parse");
    let promo = board
        .generate_moves()
        .iter()
        .copied()
        .find(|m| m.is_promo() && m.promo_piece() == PieceType::Q)
        .expect("queen promotion should be legal");
    board.apply_move(promo);
    let out = board.get_hfen();
    assert_eq!(out.split_whitespace().count(), 6, "legacy HFEN should not need an override field: {out}");
    let reparsed = Board::from_hfen(&out).expect("legacy HFEN should parse");
    assert_eq!(reparsed.piece_at(SQ::make(0, 11)), Piece::WhiteQueen);
    assert_eq!(reparsed.get_hfen(), out);
}

#[test]
fn test_ep_parse() {
    assert_eq!(parse_ep_square("-"), no_sq());
    assert_eq!(parse_ep_square("e4"), SQ::make(4, 3));
    assert_eq!(parse_ep_square("l12"), SQ::make(11, 11));
}

#[test]
fn hfen_errors_on_bad_fields() {
    assert!(parse_hfen("12/12/12").is_err());
    assert!(parse_hfen("12/12/12/12/12/12/12/12/12/12/12/12 x - -").is_err());
    assert!(parse_hfen("11/12/12/12/12/12/12/12/12/12/12/12 w - -").is_err());
    // Well formed, but the side to move has no king.
    assert!(parse_hfen("12/12/12/12/12/12/12/12/12/12/12/12 w - -").is_ok());
    assert!(Board::from_hfen("12/12/12/12/12/12/12/12/12/12/12/12 w - -").is_err());
}

#[test]
fn hfen_counters_default_when_missing() {
    let data = parse_hfen("12/12/12/12/12/12/12/12/12/12/6K5/12 w - -").unwrap();
    assert_eq!(data.rule50, 0);
    assert_eq!(data.fullmove, 1);
    let data = parse_hfen("12/12/12/12/12/12/12/12/12/12/6K5/12 b - - 7 9").unwrap();
    assert_eq!(data.turn, Player::Black);
    assert_eq!(data.rule50, 7);
    assert_eq!(data.fullmove, 9);
}

#[test]
fn pretty_print_draws_ranks_and_hfen() {
    let board = Board::start_pos();
    let text = board.pretty_print();
    assert!(text.starts_with("12 . . . . . . . . . . . . \n11 a b c d e f g h i j k l \n"));
    assert!(text.contains(" 1 . . . . . . . . . . . . \n   a b c d e f g h i j k l\n"));
    assert!(text.ends_with(&format!("Turn: White | HFEN: {}\n", board.get_hfen())));
}

// ── Board ───────────────────────────────────────────────────────────────────

#[test]
fn test_start_position() {
    let board = Board::start_pos();
    assert_eq!(board.turn(), Player::White);

    assert_eq!(board.king_sq(Player::White), SQ(18));
    assert_eq!(board.piece_at(SQ(18)).type_of(), PieceType::K);

    assert_eq!(board.king_sq(Player::Black), SQ(126));

    for file in 0..12u8 {
        let sq = SQ::make(file, 2);
        assert_eq!(board.piece_at(sq).type_of(), PieceType::P);
    }

    for file in 0..12u8 {
        let sq = SQ::make(file, 9);
        assert_eq!(board.piece_at(sq).type_of(), PieceType::P);
    }

    for file in 0..12u8 {
        assert_eq!(board.piece_at(SQ::make(file, 0)), Piece::Empty);
        assert_eq!(board.piece_at(SQ::make(file, 11)), Piece::Empty);
    }
}

#[test]
fn test_hfen_round_trip() {
    let board = Board::start_pos();
    let hfen = board.get_hfen();
    let board2 = Board::from_hfen(&hfen).unwrap();
    let hfen2 = board2.get_hfen();
    assert_eq!(hfen, hfen2);
}

#[test]
fn start_position_writes_the_start_text() {
    assert_eq!(Board::start_pos().get_hfen(), START_HFEN);
}

#[test]
fn test_apply_undo_move() {
    let mut board = Board::start_pos();
    let original_hfen = board.get_hfen();
    let moves = board.generate_moves();
    assert!(!moves.is_empty());

    let m = moves.get(0);
    board.apply_move(m);
    assert_eq!(board.turn(), Player::Black);

    board.undo_move();
    assert_eq!(board.turn(), Player::White);
    assert_eq!(board.get_hfen(), original_hfen);
}

#[test]
fn null_move_flips_side_and_restores() {
    let mut board = Board::start_pos();
    let before = board.get_hfen();
    board.apply_null_move();
    assert_eq!(board.turn(), Player::Black);
    board.undo_null_move();
    assert_eq!(board.get_hfen(), before);
}

#[test]
fn incremental_hash_matches_recomputed_after_moves() {
    let mut board = Board::start_pos();
    for uci in ["a3a4", "a10a9", "d2c4", "d11c9"] {
        let m = board.generate_moves().iter().copied().find(|m| m.stringify() == uci).unwrap();
        board.apply_move(m);
        assert_eq!(board.state.zobrist, board.compute_zobrist());
    }
}

#[test]
fn test_zobrist_consistency() {
    // Incremental hash matches full recomputation along a pseudo-random game.
    let mut board = Board::start_pos();
    let mut seed: u64 = 0x2545_f491_4f6c_dd1d;
    for _ in 0..50 {
        let moves = board.generate_moves();
        if moves.is_empty() {
            break;
        }
        seed ^= seed << 13;
        seed ^= seed >> 7;
        seed ^= seed << 17;
        let idx = (seed % moves.len() as u64) as usize;
        board.apply_move(moves.get(idx));

        let incremental = board.state.zobrist;
        let recomputed = board.compute_zobrist();
        assert_eq!(incremental, recomputed, "HFEN: {}", board.get_hfen());
    }
}

#[test]
fn test_random_games_terminate() {
    // Ten pseudo-random games: every generated move keeps the mover's king
    // safe, and each game ends by the rules or at the move limit.
    let mut seed: u64 = 0x9e37_79b9_7f4a_7c15;
    for game_num in 0..10 {
        let mut board = Board::start_pos();
        let mut move_count = 0u32;
        let max_moves = 500;

        while !board.is_game_over() && move_count < max_moves {
            let moves = board.generate_moves();
            if moves.is_empty() {
                break;
            }

            for m in moves.iter() {
                let mut test = board.clone();
                test.apply_move(*m);
                let us = if board.turn() == Player::White { Player::White } else { Player::Black };
                assert!(
                    !test.is_attacked(us),
                    "Game {}, move {}: Generated move {} is illegal",
                    game_num,
                    move_count,
                    m.stringify()
                );
            }

            seed ^= seed << 13;
            seed ^= seed >> 7;
            seed ^= seed << 17;
            let idx = (seed % moves.len() as u64) as usize;
            let m = moves.get(idx);
            board.apply_move(m);
            move_count += 1;
        }

        let result = board.game_result();
        if move_count < max_moves {
            assert!(
                result != 0 || board.is_game_over(),
                "Game {} ended at move {} but result is ongoing",
                game_num,
                move_count
            );
        }
        println!("Game {}: {} moves, result={}", game_num, move_count, result);
    }
}

// ── Move generation ─────────────────────────────────────────────────────────

#[test]
fn test_pawn_moves_start() {
    let board = Board::start_pos();
    assert_eq!(count_moves_for_piece(&board, PieceType::P), 24);
}

#[test]
fn test_knight_moves_start() {
    let board = Board::start_pos();
    assert_eq!(count_moves_from(&board, SQ::make(3, 1)), 4); // d2
    assert_eq!(count_moves_from(&board, SQ::make(8, 1)), 4); // i2
}

#[test]
fn test_knight_center_open_board() {
    let hfen = "12/12/12/12/12/K4N6/12/12/12/12/5k6/12 w - - 0 1";
    let board = Board::from_hfen(hfen).unwrap();
    let n_sq = SQ::make(5, 6); // f7
    let count = count_moves_from(&board, n_sq);
    assert_eq!(count, 8, "Knight on f7 open board should have 8 moves");
}

#[test]
fn test_knight_corner() {
    let hfen = "12/12/12/12/12/12/12/12/12/12/K11/N11 w - - 0 1";
    let board = Board::from_hfen(hfen).unwrap();
    let count = count_moves_from(&board, SQ::make(0, 0)); // a1
    assert_eq!(count, 2, "Knight on a1 should have 2 moves");
}

#[test]
fn test_king_moves_open_board() {
    let hfen = "12/12/12/12/12/5K6/12/12/12/12/5k6/12 w - - 0 1";
    let board = Board::from_hfen(hfen).unwrap();
    let count = count_moves_from(&board, SQ::make(5, 6)); // f7
    assert_eq!(count, 8, "King on f7 open board should have 8 moves");
}

#[test]
fn test_eagle_jumping_counts() {
    let hfen = "12/12/12/12/12/12/12/12/12/12/K3E7/12 w - - 0 1";
    let board = Board::from_hfen(hfen).unwrap();
    let eagle = SQ::make(4, 1); // e2
    let count = count_moves_from(&board, eagle);
    assert!(count > 0, "Eagle should have moves");
}

#[test]
fn test_pawn_promotion_white() {
    let hfen = "12/4P7/12/12/12/12/12/12/12/12/K11/11k w - - 0 1";
    let board = Board::from_hfen(hfen).unwrap();
    let pawn = SQ::make(4, 10); // e11
    let count = count_moves_from(&board, pawn);
    assert_eq!(count, 6, "White pawn on row 11 should have 6 promotion moves to row 12");
}

#[test]
fn test_pawn_promotion_black() {
    let hfen = "11K/12/12/12/12/12/12/12/12/12/4p7/11k b - - 0 1";
    let board = Board::from_hfen(hfen).unwrap();
    let pawn = SQ::make(4, 1); // e2
    let count = count_moves_from(&board, pawn);
    assert_eq!(count, 6, "Black pawn on row 2 should have 6 promotion moves to row 1");
}

#[test]
fn test_pawn_en_passant() {
    let hfen = "12/12/12/12/3pP7/12/12/12/12/12/K11/11k w - d9 0 1";
    let board = Board::from_hfen(hfen).unwrap();
    let moves = board.generate_moves();
    let ep_moves: Vec<_> = moves.iter().filter(|m| m.is_en_passant()).collect();
    assert_eq!(ep_moves.len(), 1, "Should have exactly 1 EP capture");
    assert_eq!(ep_moves[0].get_src(), SQ::make(4, 7));
    assert_eq!(ep_moves[0].get_dest(), SQ::make(3, 8));
}

#[test]
fn test_castling_clear_path() {
    let hfen = "12/12/12/12/12/12/12/12/12/12/6K2R2/11k w K - 0 1";
    let board = Board::from_hfen(hfen).unwrap();
    let moves = board.generate_moves();
    let castle_moves: Vec<_> = moves.iter().filter(|m| m.is_castle()).collect();
    assert!(!castle_moves.is_empty(), "Should be able to castle king-side");
}

#[test]
fn test_castling_blocked() {
    let hfen = "12/12/12/12/12/12/12/12/12/12/6KB1R2/11k w K - 0 1";
    let board = Board::from_hfen(hfen).unwrap();
    let moves = board.generate_moves();
    let castle_moves: Vec<_> = moves.iter().filter(|m| m.is_castle()).collect();
    assert_eq!(castle_moves.len(), 0, "Should not be able to castle (blocked)");
}

#[test]
fn test_kingside_castle_executes_correctly() {
    let hfen = "12/12/12/12/12/12/12/12/12/12/6K2R2/11k w K - 0 1";
    let mut board = Board::from_hfen(hfen).unwrap();
    let castle_mv = board
        .generate_moves()
        .iter()
        .find(|m| m.is_king_castle())
        .copied()
        .expect("Kingside castle must be legal");
    assert_eq!(castle_mv.stringify(), "g2i2", "Kingside castle must move king g2→i2");
    board.apply_move(castle_mv);
    let fen2 = board.get_hfen();
    assert!(fen2.contains("7RK"), "King/Rook should be on i2/h2 after kingside castle");
    let cr_field = fen2.split_whitespace().nth(2).unwrap_or("");
    assert!(!cr_field.contains('K'), "White king-side castling right must be revoked");
}

#[test]
fn test_queenside_castle_executes_correctly() {
    let hfen = "12/12/12/12/12/12/12/12/12/12/2R3K5/11k w Q - 0 1";
    let mut board = Board::from_hfen(hfen).unwrap();
    let castle_mv = board
        .generate_moves()
        .iter()
        .find(|m| m.is_queen_castle())
        .copied()
        .expect("Queenside castle must be legal");
    assert_eq!(castle_mv.stringify(), "g2e2", "Queenside castle must move king g2→e2");
    board.apply_move(castle_mv);
    let fen2 = board.get_hfen();
    let cr_field = fen2.split_whitespace().nth(2).unwrap_or("");
    assert!(!cr_field.contains('Q'), "White queen-side castling right must be revoked");
}

#[test]
fn test_check_blocks_all_illegal() {
    let hfen = "12/12/12/12/12/12/12/12/12/12/6K5/6r4k w - - 0 1";
    let board = Board::from_hfen(hfen).unwrap();
    assert!(board.in_check(), "White king should be in check from rook on g1");
    let moves = board.generate_moves();
    for m in moves.iter() {
        let mut test = board.clone();
        test.apply_move(*m);
        assert!(!test.is_attacked(Player::White), "Move {:?} leaves king in check", m);
    }
}

#[test]
fn test_stalemate_detection() {
    let hfen = "12/12/12/12/12/12/12/12/12/1r10/PK10/r10k w - - 0 1";
    let board = Board::from_hfen(hfen).unwrap();
    if board.generate_moves().is_empty() && !board.in_check() {
        assert_eq!(board.game_result(), 3, "Should be stalemate (draw)");
    }
}

#[test]
fn test_all_moves_legal() {
    let mut board = Board::start_pos();
    let moves = board.generate_moves();
    for m in moves.iter() {
        board.apply_move(*m);
        assert!(!board.is_attacked(Player::White), "Generated move {:?} is illegal (leaves White king in check)", m);
        board.undo_move();
    }
}

#[test]
fn test_symmetry_start_pos() {
    let mut board = Board::start_pos();
    let white_moves = board.generate_moves();
    let white_count = white_moves.len();

    board.apply_move(white_moves.get(0));
    let black_count = board.generate_moves().len();
    board.undo_move();

    assert!(white_count > 50 && white_count < 120, "White move count {} seems wrong", white_count);
    assert!(black_count > 50 && black_count < 120, "Black move count {} seems wrong", black_count);
}

#[test]
fn test_attacked_squares_available() {
    let board = Board::start_pos();
    let _ = attacked_squares(&board, Player::White);
}

// ── Perft ───────────────────────────────────────────────────────────────────

#[test]
fn test_perft_depth_0() {
    let mut board = Board::start_pos();
    assert_eq!(perft(&mut board, 0), 1);
}

#[test]
fn test_perft_depth_1_start() {
    let mut board = Board::start_pos();
    let nodes = perft(&mut board, 1);
    assert_eq!(nodes, 62, "Perft(1) from start position");
}

#[test]
fn test_perft_depth_2_start() {
    let mut board = Board::start_pos();
    let nodes = perft(&mut board, 2);
    assert!(nodes > 0, "Perft(2) should be positive, got {}", nodes);
}

#[test]
fn test_perft_depth_1_fen_roundtrip() {
    let mut board = Board::start_pos();
    let fen_before = board.get_hfen();

    let moves = board.generate_moves();
    for m in moves.iter() {
        board.apply_move(*m);
        board.undo_move();
        assert_eq!(board.get_hfen(), fen_before, "HFEN mismatch after apply+undo of {:?}", m);
    }
}

#[test]
fn test_perft_depth_2_fen_roundtrip() {
    let mut board = Board::start_pos();
    let fen_before = board.get_hfen();

    let moves = board.generate_moves();
    for m1 in moves.iter() {
        board.apply_move(*m1);
        let fen_after_m1 = board.get_hfen();

        let moves2 = board.generate_moves();
        for m2 in moves2.iter() {
            board.apply_move(*m2);
            board.undo_move();
            assert_eq!(board.get_hfen(), fen_after_m1, "HFEN mismatch after apply+undo of {:?} {:?}", m1, m2);
        }

        board.undo_move();
        assert_eq!(board.get_hfen(), fen_before, "HFEN mismatch after depth-2 roundtrip starting with {:?}", m1);
    }
}

// ── Draw rules ──────────────────────────────────────────────────────────────

#[test]
fn repetition_thresholds_use_prior_only_history() {
    let mut b = Board::start_pos();
    let z = b.state.zobrist;
    assert_eq!(b.repetition_count(), 0);
    assert!(!b.is_game_over());

    b.history.push(z);
    assert!(!b.is_game_over());
    assert_eq!(b.termination_reason(), "ongoing");

    b.history.push(z);
    assert!(b.is_game_over());
    assert_eq!(b.termination_reason(), "threefold_repetition");
    assert_eq!(b.game_result(), 3);

    b.history.push(z);
    b.history.push(z);
    assert_eq!(b.termination_reason(), "fivefold_repetition");
}

#[test]
fn threefold_by_actual_knight_shuffle() {
    let mut b = Board::start_pos();
    let shuffle = ["d2c4", "d11c9", "c4d2", "c9d11"];
    for _ in 0..2 {
        for uci in shuffle {
            assert!(!b.is_game_over(), "game ended early at {uci}: {}", b.termination_reason());
            let m = b
                .generate_moves()
                .iter()
                .copied()
                .find(|m| m.stringify() == uci)
                .unwrap_or_else(|| panic!("move {uci} not legal"));
            b.apply_move(m);
        }
    }
    assert_eq!(b.repetition_count(), 2);
    assert!(b.is_game_over());
    assert_eq!(b.termination_reason(), "threefold_repetition");
}

#[test]
fn material_adjudication_at_move_limit() {
    let up_rook = "12/12/12/12/12/6g5/12/12/12/12/6G5/2C9";
    let b = Board::from_hfen(&format!("{up_rook} w - - 0 1")).unwrap();
    assert_eq!(b.material_diff(), 500);
    assert_eq!(b.adjudicate_material(), 1);
    assert_eq!(b.game_result(), 0);
    assert_eq!(b.game_result_adjudicated(false), 0);
    assert_eq!(b.game_result_adjudicated(true), 1);

    let b = Board::from_hfen(&format!("{up_rook} w - - 224 120")).unwrap();
    assert_eq!(b.game_result(), 3);
    assert_eq!(b.termination_reason(), "move_limit");
    assert_eq!(b.game_result_adjudicated(false), 1);

    let b = Board::from_hfen("12/12/12/12/12/6g5/2f9/12/12/12/6G5/12 w - - 0 1").unwrap();
    assert_eq!(b.material_diff(), -900);
    assert_eq!(b.game_result_adjudicated(true), 2);

    let b = Board::start_pos();
    assert_eq!(b.material_diff(), 0);
    assert_eq!(b.game_result_adjudicated(true), 3);

    let b = Board::from_hfen("12/12/12/12/12/6g5/12/12/12/12/6G5/12 w - - 0 1").unwrap();
    assert_eq!(b.termination_reason(), "insufficient_material");
    assert_eq!(b.game_result_adjudicated(true), 3);
}

#[test]
fn checkmate_ends_the_game_for_the_mated_side() {
    // Black king h12 boxed in by a white queen on h11 guarded by the king on h10.
    let b = Board::from_hfen("7k4/7Q4/7K4/12/12/12/12/12/12/12/12/12 b - - 0 1").unwrap();
    assert!(b.in_check());
    assert!(b.generate_moves().is_empty());
    assert!(b.is_game_over());
    assert_eq!(b.game_result(), 1);
    assert_eq!(b.termination_reason(), "checkmate");
}
