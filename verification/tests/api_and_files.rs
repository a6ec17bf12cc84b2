use hyperchess::api::handlers::{fen_validate, health, legal_moves};
use hyperchess::api::types::{FenValidateRequest, LegalMovesRequest};
use hyperchess::board::perft::{perft, perft_divide};
use hyperchess::board::Board;
use hyperchess::cli::export::game_record_text;
use hyperchess::core_types::piece_type::PieceType;
use hyperchess::core_types::player::Player;
use hyperchess::core_types::sq::SQ;
use hyperchess::helper::psqt::{init_psqt, psqt_value};
use hyperchess::core_types::masks::START_HFEN;
use hyperchess::notation::{hfeni_position_lines, GameRecord};
use hyperchess::uci::server_util::{has_undefined_move_token, uci_text_undefined};

#[test]
fn health_answers_ok() {
    assert_eq!(health().status, "ok");
}

#[test]
fn fen_validate_accepts_start_and_refuses_garbage() {
    let ok = fen_validate(&FenValidateRequest { fen: START_HFEN.to_string() });
    assert!(ok.valid);
    assert!(ok.error.is_none());
    let bad = fen_validate(&FenValidateRequest { fen: "not a position".to_string() });
    assert!(!bad.valid);
    assert!(bad.error.is_some());
}

#[test]
fn legal_moves_lists_the_generator_moves() {
    let resp = legal_moves(&LegalMovesRequest { fen: START_HFEN.to_string() }).unwrap();
    let board = Board::start_pos();
    let expected: Vec<String> = board.generate_moves().iter().map(|m| m.stringify()).collect();
    assert_eq!(resp.moves, expected);
    assert!(resp.moves.contains(&"a3a4".to_string()));
    assert!(legal_moves(&LegalMovesRequest { fen: "12/12 w".to_string() }).is_err());
}

const START_FEN: &str =
    "12/abcdefghijkl/mnopqrstuvwx/12/12/12/12/12/12/MNOPQRSTUVWX/ABCDEFGHIJKL/12 w - - 0 1";

#[test]
fn health_returns_ok() {
    let json = health();
    assert_eq!(json.status, "ok");
}

#[test]
fn fen_validate_accepts_a_real_position() {
    let json = fen_validate(&FenValidateRequest { fen: START_FEN.to_string() });
    assert_eq!(json.valid, true);
}

#[test]
fn fen_validate_rejects_garbage() {
    let json = fen_validate(&FenValidateRequest { fen: "not a fen".to_string() });
    assert_eq!(json.valid, false);
    assert!(json.error.is_some());
}

#[test]
fn legal_moves_from_start_position_matches_perft_1() {
    let json = legal_moves(&LegalMovesRequest { fen: START_FEN.to_string() }).unwrap();
    assert_eq!(json.moves.len(), 62, "legal move count from start must match perft(1)");
}

#[test]
fn legal_moves_rejects_invalid_fen_with_400() {
    let err = legal_moves(&LegalMovesRequest { fen: "garbage".to_string() }).unwrap_err();
    assert!(!err.error.is_empty());
}

#[test]
fn hfeni_lines_drop_blank_lines_and_line_endings() {
    let text = "first\r\n\nsecond\n\r\nthird";
    assert_eq!(hfeni_position_lines(text), vec!["first", "second", "third"]);
    assert_eq!(hfeni_position_lines("only\n"), vec!["only"]);
    assert!(hfeni_position_lines("").is_empty());
}

#[test]
fn perft_divide_splits_perft_by_first_move() {
    let mut board = Board::start_pos();
    let before = board.get_hfen();
    let split = perft_divide(&mut board, 2);
    assert_eq!(board.get_hfen(), before);
    let total: u64 = split.iter().map(|(_, n)| *n).sum();
    assert_eq!(total, perft(&mut board, 2));
    assert_eq!(split.len() as u64, perft(&mut board, 1));
    let ones = perft_divide(&mut board, 1);
    assert!(ones.iter().all(|(_, n)| *n == 1));
}

#[test]
fn undefined_move_texts_are_detected() {
    assert!(!uci_text_undefined("a3a4"));
    assert!(!uci_text_undefined("M:a3a4"));
    // A file letter's low byte inside a multi-byte first character.
    assert!(uci_text_undefined("\u{161}3a4x"));
    assert!(!uci_text_undefined("\u{161}3"));
    assert!(has_undefined_move_token(&["startpos", "moves", "a3a4", "\u{161}3a4x"]));
    assert!(!has_undefined_move_token(&["startpos", "x", "moves", "\u{161}3a4x"]));
    assert!(!has_undefined_move_token(&["startpos", "moves", "a3a4"]));
}

#[test]
fn hpgni_round_trip_keeps_plain_records() {
    let mut rec = GameRecord::new("White Player", "Black Player");
    rec.event = "Club Night".to_string();
    rec.result = "0-1".to_string();
    rec.push_move("M:a3a4");
    rec.push_move("m:a10a9");
    rec.push_move("b3b5");
    let back = GameRecord::from_hpgni(&rec.to_hpgni()).unwrap();
    assert_eq!(back.event, rec.event);
    assert_eq!(back.site, rec.site);
    assert_eq!(back.date, rec.date);
    assert_eq!(back.white, rec.white);
    assert_eq!(back.black, rec.black);
    assert_eq!(back.result, rec.result);
    assert_eq!(back.start_hfen, rec.start_hfen);
    assert_eq!(back.moves, rec.moves);
}

#[test]
fn en_passant_capture_of_a_checking_pawn_is_not_listed() {
    // Black's pawn has just double-pushed f10-f8, checking the king on g7;
    // the en passant capture e8xf9 would take it but is not listed.
    let board = Board::from_hfen("k11/12/12/12/4Pp6/6K5/12/12/12/12/12/12 w - f9 0 1").unwrap();
    let texts: Vec<String> = board.generate_moves().iter().map(|m| m.stringify()).collect();
    assert!(!texts.contains(&"e8f9".to_string()));
    assert!(texts.contains(&"g7f8".to_string()));
}

#[test]
fn start_position_has_no_duplicate_moves() {
    let board = Board::start_pos();
    let moves = board.generate_moves();
    let mut texts: Vec<String> = moves.iter().map(|m| m.stringify()).collect();
    let n = texts.len();
    texts.sort();
    texts.dedup();
    assert_eq!(texts.len(), n);
}

#[test]
fn psqt_values_mirror_for_black() {
    init_psqt();
    let f6 = SQ::make(5, 5);
    let f7 = SQ::make(5, 6);
    let n = psqt_value(PieceType::N, f6, Player::White);
    assert_eq!((n.mg, n.eg), (40, 20));
    let bn = psqt_value(PieceType::N, f7, Player::Black);
    assert_eq!((bn.mg, bn.eg), (40, 20));
    let p = psqt_value(PieceType::P, SQ::make(0, 2), Player::White);
    assert_eq!((p.mg, p.eg), (12, 20));
    let e = psqt_value(PieceType::Empty, f6, Player::White);
    assert_eq!((e.mg, e.eg), (0, 0));
}

#[test]
fn game_record_text_lists_moves_and_final_position() {
    let board = Board::start_pos();
    let history = vec![
        ("a3a4".to_string(), "h1".to_string()),
        ("a10a9".to_string(), "h2".to_string()),
        ("b3b4".to_string(), "h3".to_string()),
    ];
    let text = game_record_text(&board, &history, "*", "Alice", "Bob");
    let expected = format!(
        "=== HyperChess Game Record ===\nWhite: Alice\nBlack: Bob\nResult: *\nMoves: 3\n\nMove History:\n1. W a3a4 | h1\n1. B a10a9 | h2\n2. W b3b4 | h3\n\nFinal Position:\n{}\nHFEN: {}\n",
        board.pretty_print(),
        board.get_hfen()
    );
    assert_eq!(text, expected);
}

#[test]
fn perft_two_is_the_sum_of_perft_one_below_each_move() {
    let mut board = Board::start_pos();
    let total = perft(&mut board, 2);
    let mut sum = 0u64;
    for m in board.generate_moves().iter() {
        let mut child = board.clone();
        child.apply_move(*m);
        sum += perft(&mut child, 1);
    }
    assert_eq!(total, sum);
}

#[test]
fn listed_moves_play_and_take_back() {
    let board = Board::start_pos();
    let hfen = board.get_hfen();
    for m in board.generate_moves().iter() {
        let mut b = board.clone();
        b.apply_move(*m);
        assert_eq!(b.state.zobrist, b.compute_zobrist());
        b.undo_move();
        assert_eq!(b.get_hfen(), hfen);
        assert_eq!(b.state.zobrist, board.state.zobrist);
        assert_eq!(b.history, board.history);
    }
}

#[test]
fn positions_stay_in_play_along_a_game() {
    let mut board = Board::start_pos();
    assert!(board.is_in_play());
    let mut seed: u64 = 0x1234_5678_9abc_def1;
    for _ in 0..120 {
        let moves = board.generate_moves();
        if moves.is_empty() {
            break;
        }
        seed ^= seed << 13;
        seed ^= seed >> 7;
        seed ^= seed << 17;
        let m = moves.get((seed % moves.len() as u64) as usize);
        board.apply_move(m);
        assert!(board.is_in_play());
    }
}
