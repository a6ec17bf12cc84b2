use hyperchess::board::Board;
use hyperchess::cli::export::{
    esc, game_record_of, game_stats_header, get_material_value, nnue_result, push_nnue_entry, result_token,
};
use hyperchess::cli::game::{export_base, final_result_message, label_for, result_message, EngineConfig, GpuBackend};
use hyperchess::cli::render::piece_glyph;
use hyperchess::core_types::masks::START_HFEN;
use hyperchess::core_types::piece::Piece;
use hyperchess::core_types::player::Player;
use hyperchess::core_types::sq::SQ;
use hyperchess::eval::{blend, center_bonus, fifth_file_bonus, king_safety_score, normalize_phase, raw_psqt, TOTAL_PHASE};
use hyperchess::uci::client::{parse_pv, parse_pv_move, parse_score};
use hyperchess::uci::server::GoArgs;
use hyperchess::uci::server_util::{parse_fen_and_moves, parse_go, parse_square, parse_uci_move};

// ── Export naming ───────────────────────────────────────────────────────────

#[test]
fn test_export_base_is_unique_for_games_finishing_in_same_second() {
    let timestamp = "20260713_050000";
    let first = export_base("games/dataset_v1/raw", timestamp, 1001);
    let second = export_base("games/dataset_v1/raw", timestamp, 1002);

    assert_ne!(first, second);
    assert!(first.ends_with("_00000000000003e9"));
    assert!(second.ends_with("_00000000000003ea"));
}

#[test]
fn export_base_layout() {
    assert_eq!(export_base("out", "t", 255), "out/t_00000000000000ff");
}

#[test]
fn engine_labels() {
    let cfg = EngineConfig::new("AlphaBeta", 4, 800, 16, 2);
    assert_eq!(cfg.label(&GpuBackend::NoGpu), "AlphaBeta(d4)");
    let cfg = EngineConfig::new("cuda_mcts", 4, 800, 16, 2);
    assert_eq!(cfg.label(&GpuBackend::Cuda("dev".to_string())), "GPU-MCTS(800)");
    assert_eq!(cfg.label(&GpuBackend::NoGpu), "CPU-MCTS(800)");
    assert_eq!(label_for("random", &GpuBackend::NoGpu, 1, 2), "Random");
    assert_eq!(label_for("stockfish_like", &GpuBackend::NoGpu, 1, 7), "CPU-Aggressive(d7)");
    assert_eq!(label_for("something", &GpuBackend::NoGpu, 1, 7), "something");
    let cfg = EngineConfig::new("Guided_ID", 6, 1, 1, 1);
    assert_eq!(cfg.label(&GpuBackend::NoGpu), "CPU-GID(d6)");
}

#[test]
fn glyphs_and_escaping() {
    assert_eq!(piece_glyph(Piece::WhiteKing), Some('k'));
    assert_eq!(piece_glyph(Piece::BlackHawk), Some('e'));
    assert_eq!(piece_glyph(Piece::Empty), None);
    assert_eq!(esc("a\"b\\c"), "a\\\"b\\\\c");
}

#[test]
fn material_counts_of_recorded_positions() {
    // Start position: per side 12 pawns + 2 eagles + 2 hawks + 2 rooks +
    // 2 knights + 2 bishops + queen (+ king 0).
    let per_side = 12 * 100 + 2 * 700 + 2 * 550 + 2 * 500 + 2 * 320 + 2 * 330 + 900;
    assert_eq!(get_material_value(START_HFEN, "White"), per_side);
    assert_eq!(get_material_value(START_HFEN, "Black"), per_side);
    assert_eq!(get_material_value(START_HFEN, "Red"), 0);
    // A promoted pawn counts as its new type.
    assert_eq!(get_material_value("M:Q11/12/12/12/12/12/12/12/12/12/6G5/12 w - - 0 1", "White"), 900);
    // Legacy letters count by type.
    assert_eq!(get_material_value("12/12/12/12/12/12/12/12/12/12/6K5/R11 w - - 0 1", "White"), 500);
}

// ── UCI engine output ───────────────────────────────────────────────────────

#[test]
fn test_parse_score() {
    let line = "info depth 5 seldepth 6 multipv 1 score cp 42 nodes 1234 pv a1b2 c3d4";
    assert_eq!(parse_score(line), Some(42));
}

#[test]
fn test_parse_score_negative() {
    let line = "info depth 3 score cp -150 nodes 100 pv g2g4";
    assert_eq!(parse_score(line), Some(-150));
}

#[test]
fn test_parse_pv() {
    let line = "info depth 5 score cp 10 nodes 500 pv e2e4 e7e5 g1f3";
    let pv = parse_pv(line).unwrap();
    assert_eq!(pv, vec!["e2e4", "e7e5", "g1f3"]);
}

#[test]
fn test_parse_pv_move() {
    let line = "info multipv 1 score cp 30 pv g3g5 h3h5";
    assert_eq!(parse_pv_move(line), Some("g3g5".to_string()));
}

#[test]
fn test_parse_score_no_cp() {
    let line = "info depth 5 score mate 3 pv a1b2";
    assert_eq!(parse_score(line), None);
}

#[test]
fn engine_output_edge_cases() {
    assert_eq!(parse_score("info score cp"), None);
    assert_eq!(parse_score("info score cp x"), None);
    assert_eq!(parse_pv("info depth 1"), None);
    assert_eq!(parse_pv_move("info pv "), None);
    assert_eq!(parse_pv_move("info x pv "), None);
}

// ── UCI commands ────────────────────────────────────────────────────────────

#[test]
fn test_parse_square_a1() {
    let (sq, rest) = parse_square("a1").unwrap();
    assert_eq!(sq, SQ::make(0, 0), "a1 should be (file=0, rank=0)");
    assert_eq!(rest, "");
}

#[test]
fn test_parse_square_l12() {
    let (sq, rest) = parse_square("l12").unwrap();
    assert_eq!(sq, SQ::make(11, 11), "l12 should be (file=11, rank=11)");
    assert_eq!(rest, "");
}

#[test]
fn test_parse_square_g3() {
    let (sq, rest) = parse_square("g3q").unwrap();
    assert_eq!(sq, SQ::make(6, 2), "g3 should be (file=6, rank=2)");
    assert_eq!(rest, "q");
}

#[test]
fn parse_square_rejects_bad_names() {
    assert!(parse_square("").is_none());
    assert!(parse_square("m1").is_none());
    assert!(parse_square("a0").is_none());
    assert!(parse_square("a13").is_none());
    assert!(parse_square("a").is_none());
    let (sq, _) = parse_square("B2").unwrap();
    assert_eq!(sq, SQ::make(1, 1));
}

#[test]
fn test_parse_uci_move_start_pos() {
    let board = Board::start_pos();
    let mv = parse_uci_move(&board, "a3a4");
    assert!(mv.is_some(), "a3a4 should be a legal pawn push");
}

#[test]
fn test_parse_fen_and_moves_startpos() {
    let board = parse_fen_and_moves(&["startpos"]).unwrap();
    assert_eq!(board.get_hfen(), Board::start_pos().get_hfen());
}

#[test]
fn test_parse_fen_startpos_with_move() {
    let board = parse_fen_and_moves(&["startpos", "moves", "a3a4"]).unwrap();
    assert_eq!(board.turn(), Player::Black);
}

#[test]
fn parse_fen_and_moves_reads_fen_tokens() {
    let board = parse_fen_and_moves(&["fen", "12/M11/6g5/12/12/12/12/12/12/12/6G5/12", "w", "-", "-", "0", "1", "moves", "a11a12q"]).unwrap();
    assert_eq!(board.turn(), Player::Black);
    assert!(board.get_hfen().starts_with("M:Q11/"));
    assert!(parse_fen_and_moves(&["fen", "bad"]).is_none());
    // An illegal move is skipped.
    let board = parse_fen_and_moves(&["startpos", "moves", "a1a2"]).unwrap();
    assert_eq!(board.turn(), Player::White);
}

#[test]
fn test_parse_go_depth() {
    let args = parse_go(&["depth", "7"]);
    assert_eq!(args.depth, 7);
    assert!(!args.infinite);
}

#[test]
fn test_parse_go_movetime() {
    let args = parse_go(&["movetime", "5000"]);
    assert_eq!(args.movetime_ms, 5000);
}

#[test]
fn test_parse_go_infinite() {
    let args = parse_go(&["infinite"]);
    assert!(args.infinite);
}

#[test]
fn test_parse_go_perft() {
    let args = parse_go(&["perft", "3"]);
    assert_eq!(args.perft_depth, Some(3));
}

#[test]
fn parse_go_defaults() {
    let args = parse_go(&[]);
    assert_eq!(args, GoArgs::default());
    assert_eq!(args.depth, 5);
    let args = parse_go(&["depth", "x", "movetime"]);
    assert_eq!(args.depth, 5);
    assert_eq!(args.movetime_ms, 1000);
    let args = parse_go(&["perft"]);
    assert_eq!(args.perft_depth, Some(1));
}

#[test]
fn test_parse_uci_move_with_identity_prefix() {
    let board = Board::start_pos();
    let mv_plain = parse_uci_move(&board, "a3a4");
    let mv_hpgn = parse_uci_move(&board, "M:a3a4");
    assert!(mv_plain.is_some(), "plain UCI should parse");
    assert!(mv_hpgn.is_some(), "HPGN-I should parse");
    assert_eq!(mv_plain, mv_hpgn, "both formats should yield the same move");
}

#[test]
fn test_parse_uci_move_hpgn_i_promotion() {
    let fen = "12/M11/6g5/12/12/12/12/12/12/12/6G5/12 w - - 0 1";
    let board = Board::from_hfen(fen).expect("valid FEN");
    let mv_plain = parse_uci_move(&board, "a11a12q");
    let mv_hpgn = parse_uci_move(&board, "R:a11a12q");
    assert!(mv_plain.is_some(), "plain UCI promotion should parse");
    assert!(mv_hpgn.is_some(), "HPGN-I promotion should parse");
    assert_eq!(mv_plain, mv_hpgn, "both promotion formats should yield same move");
}

#[test]
fn test_parse_uci_move_hpgn_i_castling() {
    let board = Board::start_pos();
    let mv_plain = parse_uci_move(&board, "g3h3");
    let mv_hpgn = parse_uci_move(&board, "G:g3h3");
    if mv_plain.is_some() {
        assert_eq!(mv_plain, mv_hpgn, "both castling-format moves should be identical");
    }
}

#[test]
fn test_parse_fen_and_moves_with_hpgn_i() {
    let board = parse_fen_and_moves(&["startpos", "moves", "M:a3a4", "m:a10a9"]).expect("valid sequence");
    assert_eq!(board.turn(), Player::White);
}

#[test]
fn test_parse_uci_move_strip_identity() {
    let board = Board::start_pos();
    let mv1 = parse_uci_move(&board, "X:a3a4");
    let mv2 = parse_uci_move(&board, "a3a4");
    assert_eq!(mv1, mv2, "identity prefix should be transparent to parsing");
}

#[test]
fn test_parse_uci_move_malformed_hpgn_i() {
    let board = Board::start_pos();
    let mv = parse_uci_move(&board, "M:a3:a4");
    assert!(mv.is_none(), "malformed HPGN-I should fail to parse");
}

// ── Evaluation ──────────────────────────────────────────────────────────────

#[test]
fn center_bonus_peaks_at_center_and_zeros_at_corners() {
    assert_eq!(center_bonus(5, 5), 20);
    assert_eq!(center_bonus(6, 6), 20);
    assert_eq!(center_bonus(5, 6), 20);
    assert_eq!(center_bonus(0, 0), 0);
    assert_eq!(center_bonus(11, 11), 0);
    assert_eq!(center_bonus(0, 11), 0);
    assert_eq!(center_bonus(11, 0), 0);
}

#[test]
fn fifth_file_bonus_only_central_files() {
    for f in 4..=7 {
        assert_eq!(fifth_file_bonus(f), 5, "file {f} is central");
    }
    for f in [0, 1, 2, 3, 8, 9, 10, 11] {
        assert_eq!(fifth_file_bonus(f), 0, "file {f} is not central");
    }
}

#[test]
fn king_safety_rewards_back_rank_corners() {
    assert_eq!(king_safety_score(0, 0), 30);
    assert_eq!(king_safety_score(0, 9), 30);
    assert_eq!(king_safety_score(2, 5), 5);
    assert_eq!(king_safety_score(5, 5), -55);
}

#[test]
fn raw_psqt_matches_hand_computed() {
    assert_eq!(raw_psqt(1, 2, 5), (17, 20));
    assert_eq!(raw_psqt(2, 5, 5), (40, 20));
    assert_eq!(raw_psqt(6, 0, 0), (30, 0));
    assert_eq!(raw_psqt(9, 5, 5), (0, 0));
}

#[test]
fn phase_endpoints() {
    assert_eq!(normalize_phase(TOTAL_PHASE), 256);
    assert_eq!(normalize_phase(0), 0);
    assert!(normalize_phase(TOTAL_PHASE / 2) > 0);
    assert!(normalize_phase(TOTAL_PHASE / 2) < 256);
}

#[test]
fn blend_interpolates_mg_eg() {
    assert_eq!(blend(100, 50, 256), 100);
    assert_eq!(blend(100, 50, 0), 50);
    assert_eq!(blend(100, 50, 128), 75);
}

#[test]
fn eval_rounds_toward_zero() {
    // Off-board coordinates give negative bonuses, halved toward zero.
    assert_eq!(raw_psqt(5, 0, 0), (0, 0));
    assert_eq!(raw_psqt(1, -1, 0), (-6, 5));
    assert_eq!(blend(-101, 0, 128), -50);
    assert_eq!(normalize_phase(100), 256);
    assert_eq!(normalize_phase(-1), -5);
}

#[test]
fn result_messages_map_to_tokens_and_training_results() {
    assert_eq!(result_token("Checkmate — White wins"), "1-0");
    assert_eq!(result_token("Black wins on time"), "0-1");
    assert_eq!(result_token("Draw by stalemate"), "1/2-1/2");
    assert_eq!(nnue_result("Checkmate — White wins"), 1);
    assert_eq!(nnue_result("Black wins"), -1);
    assert_eq!(nnue_result("Draw"), 0);
}

#[test]
fn game_record_of_a_finished_game() {
    let moves = vec!["M:a3a4".to_string(), "a10a9".to_string()];
    let rec = game_record_of("alphabeta", "mcts", "2026.01.02", "White wins", &moves);
    assert_eq!(rec.event, "HyperChess CUDA Engine Selfplay");
    assert_eq!(rec.site, "HyperChess");
    assert_eq!(rec.date, "2026.01.02");
    assert_eq!(rec.result, "1-0");
    assert_eq!(rec.moves, moves);
}

#[test]
fn nnue_entry_lines() {
    let mut buf: Vec<char> = Vec::new();
    push_nnue_entry(&mut buf, "H", "a3a4", -35, 7, -1);
    let text: String = buf.into_iter().collect();
    assert_eq!(text, "fen H\nmove a3a4\nscore -35\nply 7\nresult -1\ne\n");
}

#[test]
fn result_messages_of_finished_games() {
    assert_eq!(result_message(1, 1, "checkmate"), "White wins");
    assert_eq!(result_message(2, 0, "move_limit"), "Black wins by material adjudication (move limit)");
    assert_eq!(result_message(3, 3, "stalemate"), "Draw by stalemate");
    assert_eq!(result_message(3, 0, ""), "Draw by move limit (material equal)");
    let board = Board::start_pos();
    assert_eq!(final_result_message(&board, false), "Ongoing");
    assert_eq!(final_result_message(&board, true), "Draw by move limit (material equal)");
}

#[test]
fn game_stats_header_lines() {
    let h = game_stats_header(
        "2026-01-02 03:04:05",
        "AlphaBeta",
        "cuda_mcts",
        4,
        4,
        800,
        800,
        Some(7),
        None,
        42,
        "White wins",
        5,
        &None,
    );
    let lines: Vec<&str> = h.lines().collect();
    assert_eq!(lines[4], "Date/Time  : 2026-01-02 03:04:05");
    assert_eq!(lines[5], "White      : AlphaBeta");
    assert_eq!(lines[6], "Black      : cuda_mcts");
    assert_eq!(lines[7], "White Depth: 4");
    assert_eq!(lines[8], "Black Sims : 800");
    assert_eq!(lines[9], "White Skill: 7 / 20");
    assert_eq!(lines[10], "Game Seed  : 42");
    assert_eq!(lines[11], "Result     : White wins");
    assert_eq!(lines[12], "Total Moves: 5 plies (3 full moves)");
    assert_eq!(lines[13], "GPU        : not used (CPU-only build)");
    assert!(h.ends_with("\n\n"));
    let h = game_stats_header("d", "ab", "id", 3, 3, 1, 1, None, None, 0, "Draw", 0, &Some("RTX".to_string()));
    assert!(h.contains("Depth      : 3\n"));
    assert!(h.contains("Total Moves: 0 plies (0 full moves)\n"));
    assert!(h.contains("GPU        : RTX\n"));
}
