use hyperchess::board::Board;
use hyperchess::core_types::masks::START_HFEN;
use hyperchess::game_replay::replay_game;
use hyperchess::notation::{move_to_hpgn_i, parse_hfen_i, serialize_hfen_i, GameRecord};

// ── Game records ────────────────────────────────────────────────────────────

#[test]
fn hpgni_round_trip_preserves_tags_and_moves() {
    let mut rec = GameRecord::new("Alice", "Bob");
    rec.result = "1-0".to_string();
    rec.push_move("M:a3a4");
    rec.push_move("m:a10a9");

    let text = rec.to_hpgni();
    let parsed = GameRecord::from_hpgni(&text).unwrap();

    assert_eq!(parsed.white, "Alice");
    assert_eq!(parsed.black, "Bob");
    assert_eq!(parsed.result, "1-0");
    assert_eq!(parsed.start_hfen, rec.start_hfen);
    assert_eq!(parsed.moves, vec!["M:a3a4", "m:a10a9"]);
}

#[test]
fn positions_replays_moves_into_hfen_i() {
    let mut rec = GameRecord::new("W", "B");
    assert_eq!(rec.start_hfen, START_HFEN);
    rec.push_move("a3a4");

    let positions = rec.positions().unwrap();
    assert_eq!(positions.len(), 2);
    assert_eq!(positions[0], rec.start_hfen);
    assert_ne!(positions[1], positions[0]);

    let final_fen = rec.final_hfen().unwrap();
    assert_eq!(final_fen, positions[1]);
}

#[test]
fn positions_rejects_illegal_move() {
    let mut rec = GameRecord::new("W", "B");
    rec.push_move("a1a2"); // a1 is empty at the start
    assert!(rec.positions().is_err());
}

#[test]
fn move_to_hpgn_i_reads_identity_before_applying() {
    let board = Board::from_hfen(START_HFEN).unwrap();
    let m = board.generate_moves().iter().find(|m| m.stringify() == "a3a4").copied().unwrap();
    let hpgn_i = move_to_hpgn_i(&board, m);
    assert!(hpgn_i.ends_with(":a3a4") || hpgn_i == "a3a4");
}

#[test]
fn hpgni_text_layout() {
    let mut rec = GameRecord::new("A \"quoted\" name", "B\\C");
    rec.push_move("M:a3a4");
    rec.push_move("m:a10a9");
    rec.push_move("N:b3b4");
    let text = rec.to_hpgni();
    assert!(text.starts_with("[Event \"HyperChess\"]\n[Site \"-\"]\n[Date \"-\"]\n"));
    assert!(text.contains("[White \"A \\\"quoted\\\" name\"]\n[Black \"B\\\\C\"]\n"));
    assert!(text.ends_with("\n\n1. M:a3a4 m:a10a9 2. N:b3b4 *\n"));
    let back = GameRecord::from_hpgni(&text).unwrap();
    assert_eq!(back.moves, vec!["M:a3a4", "m:a10a9", "N:b3b4"]);
    assert_eq!(back.result, "*");
}

#[test]
fn hpgni_reading_defaults_and_result_tokens() {
    let rec = GameRecord::from_hpgni("1. a3a4 a10a9\n2. b3b4 0-1\n").unwrap();
    assert_eq!(rec.event, "HyperChess");
    assert_eq!(rec.white, "?");
    assert_eq!(rec.black, "?");
    assert_eq!(rec.result, "0-1");
    assert_eq!(rec.start_hfen, START_HFEN);
    assert_eq!(rec.moves, vec!["a3a4", "a10a9", "b3b4"]);
    let tagged = GameRecord::from_hpgni("[Result \"1/2-1/2\"]\n[Unknown x]\n[Site]\n").unwrap();
    assert_eq!(tagged.result, "1/2-1/2");
    assert_eq!(tagged.site, "-");
}

#[test]
fn hfeni_lists_every_position() {
    let mut rec = GameRecord::new("W", "B");
    rec.push_move("M:a3a4");
    let text = rec.to_hfeni().unwrap();
    let lines: Vec<&str> = text.lines().collect();
    assert_eq!(lines.len(), 2);
    assert_eq!(lines[0], START_HFEN);
    assert!(text.ends_with('\n'));
    let mut bad = GameRecord::new("W", "B");
    bad.start_hfen = "garbage".to_string();
    assert!(bad.to_hfeni().is_err());
    assert!(bad.final_hfen().is_err());
}

#[test]
fn hfen_i_free_functions_round_trip() {
    let board = parse_hfen_i(START_HFEN).unwrap();
    assert_eq!(serialize_hfen_i(&board), START_HFEN);
    assert!(parse_hfen_i("12/12").is_err());
}

// ── Replay ──────────────────────────────────────────────────────────────────

#[test]
fn test_replay_single_quiet_move() {
    let moves = vec!["a3a4"];
    let result = replay_game(START_HFEN, &moves, None).expect("replay should succeed");
    assert_eq!(result.moves_applied, 1);
}

#[test]
fn test_replay_promotion_identity_persistence() {
    let start = "12/M11/6g5/12/12/12/12/12/12/12/6G5/12 w - - 0 1";
    let moves = vec!["a11a12q"];

    let result = replay_game(start, &moves, None).expect("replay should succeed");
    assert_eq!(result.moves_applied, 1);
    assert!(
        result.final_hfen.starts_with("M:Q11/"),
        "promotion should write identity:type pair, got: {}",
        result.final_hfen
    );
}

#[test]
fn test_replay_multi_move_game() {
    let moves = vec!["a3a4", "a10a9", "a4a5"];
    let result = replay_game(START_HFEN, &moves, None).expect("replay should succeed");
    assert_eq!(result.moves_applied, 3);
}

#[test]
fn test_replay_illegal_move_rejected() {
    let moves = vec!["a1a2"];
    let result = replay_game(START_HFEN, &moves, None);
    assert!(result.is_err(), "illegal move should fail");
}

#[test]
fn test_replay_final_hfen_match() {
    let moves = vec!["a3a4"];

    let mut temp_board = Board::from_hfen(START_HFEN).unwrap();
    let move_to_apply = temp_board.generate_moves().iter().find(|m| m.stringify() == "a3a4").copied().unwrap();
    temp_board.apply_move(move_to_apply);
    let expected = temp_board.get_hfen();

    let result = replay_game(START_HFEN, &moves, Some(&expected)).expect("replay should succeed");
    assert!(result.final_matches_expected, "final HFEN should match expected");
}

#[test]
fn replay_reports_a_mismatching_final_position() {
    let moves = vec!["a3a4"];
    let result = replay_game(START_HFEN, &moves, Some(START_HFEN)).unwrap();
    assert!(!result.final_matches_expected);
    assert!(replay_game("not an hfen", &moves, None).is_err());
}
