use hyperchess::board::Board;
use hyperchess::core_types::bitboard::BitBoard;
use hyperchess::core_types::piece_move::HyperMove;
use hyperchess::core_types::sq::SQ;
use hyperchess::helper::jumping::{eagle_attacks, hawk_attacks};
use hyperchess::helper::sliding::{bishop_attacks, queen_attacks, rook_attacks};
use hyperchess::io::hsan_export::hypermove_to_hsan;
use hyperchess::io::hsan_parse::{hsan_to_hypermove, parse_hsan, select_hsan_move, CheckMarker};

// ── Eagle / Hawk ────────────────────────────────────────────────────────────

#[test]
fn eagle_max_4_squares() {
    let sq = SQ::make(0, 0); // a1
    let attacks = eagle_attacks(sq, BitBoard::empty());
    assert!(attacks.test_bit(SQ::make(0, 1)));
    assert!(attacks.test_bit(SQ::make(0, 2)));
    assert!(attacks.test_bit(SQ::make(0, 3)));
    assert!(attacks.test_bit(SQ::make(0, 4)));
    assert!(!attacks.test_bit(SQ::make(0, 5)));
}

#[test]
fn eagle_on_corner_attacks_8_squares() {
    let sq = SQ::make(0, 0);
    assert_eq!(eagle_attacks(sq, BitBoard::empty()).count_bits(), 8);
}

#[test]
fn eagle_jumps_over_pieces() {
    let sq = SQ::make(0, 0);
    let mut occ = BitBoard::empty();
    occ.set_bit(SQ::make(0, 1));
    let attacks = eagle_attacks(sq, occ);
    assert!(attacks.test_bit(SQ::make(0, 1)));
    assert!(attacks.test_bit(SQ::make(0, 2)));
}

#[test]
fn eagle_no_file_wrap() {
    let sq = SQ::make(0, 0);
    let attacks = eagle_attacks(sq, BitBoard::empty());
    assert!(!attacks.test_bit(SQ::make(11, 0)));
}

#[test]
fn eagle_on_e6_attacks_16_squares() {
    let sq = SQ::make(4, 5);
    assert_eq!(eagle_attacks(sq, BitBoard::empty()).count_bits(), 16);
}

#[test]
fn hawk_max_4_squares() {
    let sq = SQ::make(4, 4);
    let attacks = hawk_attacks(sq, BitBoard::empty());
    assert!(attacks.test_bit(SQ::make(5, 5)));
    assert!(attacks.test_bit(SQ::make(6, 6)));
    assert!(attacks.test_bit(SQ::make(7, 7)));
    assert!(attacks.test_bit(SQ::make(8, 8)));
    assert!(!attacks.test_bit(SQ::make(9, 9)));
}

#[test]
fn hawk_jumps_over_pieces() {
    let sq = SQ::make(0, 0);
    let mut occ = BitBoard::empty();
    occ.set_bit(SQ::make(1, 1));
    let attacks = hawk_attacks(sq, occ);
    assert!(attacks.test_bit(SQ::make(1, 1)));
    assert!(attacks.test_bit(SQ::make(2, 2)));
}

#[test]
fn hawk_on_e6_attacks_16_squares() {
    let sq = SQ::make(4, 5);
    assert_eq!(hawk_attacks(sq, BitBoard::empty()).count_bits(), 16);
}

// ── Sliders ─────────────────────────────────────────────────────────────────

#[test]
fn test_rook_attacks_center() {
    let sq = SQ::make(4, 4);
    let attacks = rook_attacks(sq, BitBoard::empty());
    assert_eq!(attacks.count_bits(), 22, "Rook on e5 empty board");
}

#[test]
fn test_rook_attacks_blocked() {
    let sq = SQ::make(4, 4);
    let mut occupied = BitBoard::empty();
    occupied.set_bit(SQ::make(4, 6));
    occupied.set_bit(SQ::make(7, 4));
    let attacks = rook_attacks(sq, occupied);
    assert_eq!(attacks.count_bits(), 13, "Rook on e5 with blockers");
}

#[test]
fn test_bishop_attacks_corner() {
    let sq = SQ(0);
    let attacks = bishop_attacks(sq, BitBoard::empty());
    assert_eq!(attacks.count_bits(), 11, "Bishop on a1 empty board");
}

#[test]
fn test_queen_attacks() {
    let sq = SQ::make(6, 6);
    let attacks = queen_attacks(sq, BitBoard::empty());
    let rook = rook_attacks(sq, BitBoard::empty());
    let bishop = bishop_attacks(sq, BitBoard::empty());
    assert_eq!(attacks, rook | bishop);
}

// ── HSAN ────────────────────────────────────────────────────────────────────

#[test]
fn test_parse_hsan_quiet_pawn() {
    let hsan = parse_hsan("e4").unwrap();
    assert_eq!(hsan.piece, None);
    assert_eq!(hsan.dst_file, 4);
    assert_eq!(hsan.dst_rank, 3);
    assert!(!hsan.is_capture);
}

#[test]
fn test_parse_hsan_knight() {
    let hsan = parse_hsan("Nf3").unwrap();
    assert_eq!(hsan.piece, Some('N'));
    assert_eq!(hsan.dst_file, 5);
    assert_eq!(hsan.dst_rank, 2);
}

#[test]
fn test_parse_hsan_capture() {
    let hsan = parse_hsan("Qxe5").unwrap();
    assert_eq!(hsan.piece, Some('Q'));
    assert!(hsan.is_capture);
}

#[test]
fn test_parse_hsan_promotion() {
    let hsan = parse_hsan("a8=Q").unwrap();
    assert_eq!(hsan.piece, None);
    assert_eq!(hsan.promotion, Some('Q'));
}

#[test]
fn test_parse_hsan_castling() {
    assert!(parse_hsan("O-O").is_ok());
    assert!(parse_hsan("O-O-O").is_ok());
}

#[test]
fn test_parse_hsan_check() {
    let hsan = parse_hsan("Nf3+").unwrap();
    assert_eq!(hsan.check_marker, CheckMarker::Check);
}

#[test]
fn test_parse_hsan_checkmate() {
    let hsan = parse_hsan("Qh5#").unwrap();
    assert_eq!(hsan.check_marker, CheckMarker::Checkmate);
}

#[test]
fn parse_hsan_errors_and_disambiguation() {
    assert!(parse_hsan("   ").is_err());
    assert!(parse_hsan("N").is_err());
    assert!(parse_hsan("Nz3").is_err());
    assert!(parse_hsan("Nfx").is_err());
    assert!(parse_hsan("a0").is_err());
    let m = parse_hsan("  Rdxe1+ ").unwrap();
    assert_eq!(m.piece, Some('R'));
    assert_eq!(m.src_file, Some(3));
    assert_eq!(m.src_rank, None);
    assert_eq!(m.dst_file, 4);
    assert_eq!(m.dst_rank, 0);
    assert!(m.is_capture);
    assert_eq!(m.check_marker, CheckMarker::Check);
    let m = parse_hsan("N3f5").unwrap();
    assert_eq!(m.src_rank, Some(2));
    // Destinations on ranks 10 to 12 are read with both digits.
    let m = parse_hsan("a10").unwrap();
    assert_eq!((m.dst_file, m.dst_rank), (0, 9));
    let m = parse_hsan("Rxd12").unwrap();
    assert_eq!((m.piece, m.dst_file, m.dst_rank, m.is_capture), (Some('R'), 3, 11, true));
    let m = parse_hsan("Nb1a11").unwrap();
    assert_eq!((m.src_file, m.src_rank, m.dst_file, m.dst_rank), (Some(1), Some(0), 0, 10));
    assert!(parse_hsan("a13").is_err());
}

#[test]
fn test_hsan_export_exists() {
    let _ = hypermove_to_hsan;
}

#[test]
fn hsan_export_and_import_of_start_moves() {
    let board = Board::start_pos();
    let moves = board.generate_moves();
    let knight = moves.iter().copied().find(|m| m.stringify() == "d2c4").unwrap();
    assert_eq!(hypermove_to_hsan(&board, knight), "Nc4");
    let pawn = moves.iter().copied().find(|m| m.stringify() == "b3b5").unwrap();
    assert_eq!(hypermove_to_hsan(&board, pawn), "b5");
    let parsed = parse_hsan("b5").unwrap();
    assert_eq!(hsan_to_hypermove(&board, &parsed).unwrap(), pawn);
    // The c3 pawn and the d2 knight both reach c4; the piece letter tells
    // them apart.
    let parsed = parse_hsan("Nc4").unwrap();
    assert_eq!(hsan_to_hypermove(&board, &parsed).unwrap(), knight);
    let parsed = parse_hsan("c4").unwrap();
    assert_eq!(hsan_to_hypermove(&board, &parsed).unwrap().stringify(), "c3c4");
    let v: Vec<_> = moves.iter().copied().collect();
    assert!(select_hsan_move(&board, &v, &parse_hsan("O-O").unwrap()).is_err());
}

#[test]
fn hsan_pawn_move_is_not_taken_for_a_piece_move() {
    // Both the a3 pawn and the a2 eagle reach a4; no piece letter names the pawn.
    let board = Board::start_pos();
    let h = parse_hsan("a4").unwrap();
    assert_eq!(h.piece, None);
    assert_eq!(hsan_to_hypermove(&board, &h).unwrap().stringify(), "a3a4");
}

#[test]
fn hsan_king_move_resolves_like_other_moves() {
    let board = Board::start_pos();
    let h = parse_hsan("Kg1").unwrap();
    assert_eq!(hsan_to_hypermove(&board, &h).unwrap(), HyperMove::make_quiet(SQ(18), SQ(6)));
    // With no castling move to take, the castling text resolves as a king move
    // to a1, of which there is none.
    assert!(hsan_to_hypermove(&board, &parse_hsan("O-O").unwrap()).is_err());
}

#[test]
fn hsan_capture_marker_precedes_two_digit_destination() {
    let board = Board::from_hfen("12/12/3p8/12/12/12/12/12/12/12/K11/3R7k w - - 0 1").unwrap();
    let m = HyperMove::make_capture(SQ::make(3, 0), SQ::make(3, 9));
    assert_eq!(hypermove_to_hsan(&board, m), "Rxd10");
    let h = parse_hsan("Rxd10").unwrap();
    assert_eq!(hsan_to_hypermove(&board, &h).unwrap(), m);
}
