use hyperchess::core_types::bitboard::BitBoard;
use hyperchess::core_types::piece_move::{strip_identity, HyperMove};
use hyperchess::core_types::piece_type::PieceType;
use hyperchess::core_types::sq::SQ;

// ── BitBoard ────────────────────────────────────────────────────────────────

#[test]
fn test_set_clear_test_bit() {
    let mut bb = BitBoard::empty();
    assert!(bb.is_empty());

    // Test across word boundaries
    for sq_val in [0u8, 1, 11, 63, 64, 65, 127, 128, 129, 143] {
        let sq = SQ(sq_val);
        bb.set_bit(sq);
        assert!(bb.test_bit(sq), "Failed to set bit at sq {}", sq_val);
    }
    assert_eq!(bb.count_bits(), 10);

    bb.clear_bit(SQ(64));
    assert!(!bb.test_bit(SQ(64)));
    assert_eq!(bb.count_bits(), 9);
}

#[test]
fn test_bit_scan_forward() {
    let bb = BitBoard::from_sq(SQ(100));
    assert_eq!(bb.bit_scan_forward(), SQ(100));

    let bb2 = BitBoard::from_sq(SQ(0));
    assert_eq!(bb2.bit_scan_forward(), SQ(0));

    let bb3 = BitBoard::from_sq(SQ(143));
    assert_eq!(bb3.bit_scan_forward(), SQ(143));
}

#[test]
fn test_pop_lsb() {
    let mut bb = BitBoard::empty();
    bb.set_bit(SQ(10));
    bb.set_bit(SQ(70));
    bb.set_bit(SQ(130));

    let sq1 = bb.pop_lsb();
    assert_eq!(sq1, SQ(10));
    let sq2 = bb.pop_lsb();
    assert_eq!(sq2, SQ(70));
    let sq3 = bb.pop_lsb();
    assert_eq!(sq3, SQ(130));
    assert!(bb.is_empty());
}

#[test]
fn test_shift_left_right() {
    // Shift by 12 (one rank north)
    let bb = BitBoard::from_sq(SQ(0));
    let shifted = bb.shl(12);
    assert!(shifted.test_bit(SQ(12)));
    assert!(!shifted.test_bit(SQ(0)));

    // Shift across word boundary
    let bb2 = BitBoard::from_sq(SQ(60));
    let shifted2 = bb2.shl(12);
    assert!(shifted2.test_bit(SQ(72)));

    // Shift right
    let bb3 = BitBoard::from_sq(SQ(72));
    let shifted3 = bb3.shr(12);
    assert!(shifted3.test_bit(SQ(60)));
}

#[test]
fn test_bitwise_ops() {
    let mut a = BitBoard::empty();
    let mut b = BitBoard::empty();
    a.set_bit(SQ(10));
    a.set_bit(SQ(20));
    b.set_bit(SQ(20));
    b.set_bit(SQ(30));

    let and = a & b;
    assert!(and.test_bit(SQ(20)));
    assert!(!and.test_bit(SQ(10)));
    assert!(!and.test_bit(SQ(30)));

    let or = a | b;
    assert!(or.test_bit(SQ(10)));
    assert!(or.test_bit(SQ(20)));
    assert!(or.test_bit(SQ(30)));

    let xor = a ^ b;
    assert!(xor.test_bit(SQ(10)));
    assert!(!xor.test_bit(SQ(20)));
    assert!(xor.test_bit(SQ(30)));
}

#[test]
fn test_not() {
    let bb = BitBoard::empty();
    let not_bb = !bb;
    assert_eq!(not_bb.count_bits(), 144);

    let all = BitBoard::all();
    let not_all = !all;
    assert!(not_all.is_empty());
}

#[test]
fn test_iterator() {
    let mut bb = BitBoard::empty();
    bb.set_bit(SQ(5));
    bb.set_bit(SQ(100));
    bb.set_bit(SQ(140));

    let sqs: Vec<SQ> = bb.squares();
    assert_eq!(sqs, vec![SQ(5), SQ(100), SQ(140)]);
}

#[test]
fn test_word_boundary_63_64() {
    let mut bb = BitBoard::empty();
    bb.set_bit(SQ(63));
    bb.set_bit(SQ(64));
    assert_eq!(bb.count_bits(), 2);
    assert!(bb.test_bit(SQ(63)));
    assert!(bb.test_bit(SQ(64)));

    let sq = bb.bit_scan_forward();
    assert_eq!(sq, SQ(63));
}

#[test]
fn test_word_boundary_127_128() {
    let mut bb = BitBoard::empty();
    bb.set_bit(SQ(127));
    bb.set_bit(SQ(128));
    assert_eq!(bb.count_bits(), 2);
    assert!(bb.test_bit(SQ(127)));
    assert!(bb.test_bit(SQ(128)));
}

#[test]
fn shifts_drop_bits_past_the_board() {
    let bb = BitBoard::from_sq(SQ(140));
    assert!(bb.shl(12).is_empty());
    let low = BitBoard::from_sq(SQ(5));
    assert!(low.shr(12).is_empty());
    assert_eq!(BitBoard::all().count_bits(), 144);
}

// ── SQ ──────────────────────────────────────────────────────────────────────

#[test]
fn test_make_file_rank() {
    let sq = SQ::make(0, 0); // a1
    assert_eq!(sq.0, 0);
    assert_eq!(sq.file_idx(), 0);
    assert_eq!(sq.rank_idx(), 0);

    let sq = SQ::make(11, 0); // l1
    assert_eq!(sq.0, 11);
    assert_eq!(sq.file_idx(), 11);
    assert_eq!(sq.rank_idx(), 0);

    let sq = SQ::make(0, 1); // a2
    assert_eq!(sq.0, 12);
    assert_eq!(sq.file_idx(), 0);
    assert_eq!(sq.rank_idx(), 1);

    let sq = SQ::make(11, 11); // l12
    assert_eq!(sq.0, 143);
    assert_eq!(sq.file_idx(), 11);
    assert_eq!(sq.rank_idx(), 11);
}

#[test]
fn test_is_okay() {
    assert!(SQ(0).is_okay());
    assert!(SQ(143).is_okay());
    assert!(!SQ(144).is_okay());
    assert!(!SQ(255).is_okay());
}

#[test]
fn test_to_string() {
    assert_eq!(SQ::make(0, 0).notation(), "a1");
    assert_eq!(SQ::make(11, 0).notation(), "l1");
    assert_eq!(SQ::make(0, 11).notation(), "a12");
    assert_eq!(SQ::make(6, 1).notation(), "g2");
}

#[test]
fn test_distance() {
    let a1 = SQ::make(0, 0);
    let l12 = SQ::make(11, 11);
    assert_eq!(a1.distance(l12), 11);
    assert_eq!(a1.distance(a1), 0);
}

#[test]
fn test_offset() {
    // a1 north = a2
    assert_eq!(SQ(0).offset(12), Some(SQ(12)));
    // a1 south = None (off board)
    assert_eq!(SQ(0).offset(-12), None);
    // l1 east = None (wraps)
    assert_eq!(SQ(11).offset(1), None);
    // a1 west = None (wraps)
    assert_eq!(SQ(0).offset(-1), None);
}

#[test]
fn test_king_start_squares() {
    assert_eq!(SQ::g2().0, 18); // White king
    assert_eq!(SQ::g11().0, 126); // Black king
}

#[test]
fn off_board_square_has_dashes() {
    assert_eq!(SQ(144).notation(), "--");
    assert_eq!(SQ::make(11, 11).notation(), "l12");
}

// ── HyperMove ───────────────────────────────────────────────────────────────

#[test]
fn test_quiet_move() {
    let m = HyperMove::make_quiet(SQ(18), SQ(30));
    assert_eq!(m.get_src(), SQ(18));
    assert_eq!(m.get_dest(), SQ(30));
    assert!(m.is_quiet());
    assert!(!m.is_capture());
    assert!(!m.is_promo());
}

#[test]
fn test_capture_move() {
    let m = HyperMove::make_capture(SQ(50), SQ(100));
    assert_eq!(m.get_src(), SQ(50));
    assert_eq!(m.get_dest(), SQ(100));
    assert!(m.is_capture());
    assert!(!m.is_promo());
}

#[test]
fn test_promotion() {
    let m = HyperMove::make_promotion(SQ(120), SQ(132), PieceType::Q, false);
    assert!(m.is_promo());
    assert!(!m.is_capture());
    assert_eq!(m.promo_piece(), PieceType::Q);

    let m2 = HyperMove::make_promotion(SQ(120), SQ(133), PieceType::E, true);
    assert!(m2.is_promo());
    assert!(m2.is_capture());
    assert_eq!(m2.promo_piece(), PieceType::E);
}

#[test]
fn test_castle() {
    let m = HyperMove::make_king_castle(SQ(18), SQ(20));
    assert!(m.is_castle());
    assert!(m.is_king_castle());
    assert!(!m.is_queen_castle());
}

#[test]
fn test_en_passant() {
    let m = HyperMove::make_ep_capture(SQ(52), SQ(65));
    assert!(m.is_en_passant());
    assert!(m.is_capture());
}

#[test]
fn test_stringify() {
    let m = HyperMove::make_quiet(SQ(0), SQ(12));
    assert_eq!(m.stringify(), "a1a2");

    let m2 = HyperMove::make_promotion(SQ(120), SQ(132), PieceType::Q, false);
    let s = m2.stringify();
    assert!(s.ends_with('q'));
}

#[test]
fn test_large_square_encoding() {
    let m = HyperMove::make_quiet(SQ(143), SQ(131));
    assert_eq!(m.get_src(), SQ(143));
    assert_eq!(m.get_dest(), SQ(131));
}

#[test]
fn test_stringify_with_identity_prefixes_when_present() {
    let m = HyperMove::make_quiet(SQ(0), SQ(12));
    assert_eq!(m.stringify_with_identity(Some('M')), "M:a1a2");
}

#[test]
fn test_stringify_with_identity_falls_back_without_identity() {
    let m = HyperMove::make_quiet(SQ(0), SQ(12));
    assert_eq!(m.stringify_with_identity(None), "a1a2");
}

#[test]
fn test_stringify_with_identity_promotion() {
    let m = HyperMove::make_promotion(SQ(120), SQ(132), PieceType::Q, false);
    let s = m.stringify_with_identity(Some('R'));
    assert!(s.starts_with("R:"));
    assert!(s.ends_with('q'));
}

#[test]
fn test_strip_identity_round_trips() {
    let m = HyperMove::make_quiet(SQ(0), SQ(12));
    let with_id = m.stringify_with_identity(Some('M'));
    let without_id = m.stringify_with_identity(None);
    assert_eq!(strip_identity(&with_id), m.stringify());
    assert_eq!(strip_identity(&without_id), m.stringify());
}

#[test]
fn test_strip_identity_is_total_on_plain_uci() {
    // A bare UCI string with no colon must pass through unchanged.
    assert_eq!(strip_identity("a3a4"), "a3a4");
    assert_eq!(strip_identity("a10a11q"), "a10a11q");
}

#[test]
fn test_hpgn_i_king_side_castle() {
    let m = HyperMove::make_king_castle(SQ::make(6, 0), SQ::make(7, 0)); // g1h1
    assert!(m.is_king_castle());
    assert_eq!(m.stringify(), "g1h1");
    assert_eq!(m.stringify_with_identity(Some('G')), "G:g1h1");
    assert_eq!(strip_identity("G:g1h1"), "g1h1");
}

#[test]
fn test_hpgn_i_queen_side_castle() {
    let m = HyperMove::make_queen_castle(SQ::make(6, 0), SQ::make(5, 0)); // g1f1
    assert!(m.is_queen_castle());
    assert_eq!(m.stringify(), "g1f1");
    assert_eq!(m.stringify_with_identity(Some('G')), "G:g1f1");
    assert_eq!(strip_identity("G:g1f1"), "g1f1");
}

#[test]
fn test_hpgn_i_en_passant() {
    let m = HyperMove::make_ep_capture(SQ::make(4, 4), SQ::make(5, 5)); // e5f6
    assert!(m.is_en_passant());
    assert!(m.is_capture());
    assert_eq!(m.stringify(), "e5f6");
    assert_eq!(m.stringify_with_identity(Some('R')), "R:e5f6");
    assert_eq!(strip_identity("R:e5f6"), "e5f6");
}

#[test]
fn test_hpgn_i_double_pawn_push() {
    let m = HyperMove::make_pawn_push(SQ::make(0, 2), SQ::make(0, 4)); // a3a5
    assert!(m.is_double_push());
    assert_eq!(m.stringify(), "a3a5");
    assert_eq!(m.stringify_with_identity(Some('M')), "M:a3a5");
    assert_eq!(strip_identity("M:a3a5"), "a3a5");
}

#[test]
fn test_hpgn_i_capture() {
    let m = HyperMove::make_capture(SQ::make(3, 4), SQ::make(4, 5)); // d5e6
    assert!(m.is_capture());
    assert!(!m.is_promo());
    assert_eq!(m.stringify(), "d5e6");
    assert_eq!(m.stringify_with_identity(Some('D')), "D:d5e6");
    assert_eq!(strip_identity("D:d5e6"), "d5e6");
}

#[test]
fn test_hpgn_i_promotion_capture() {
    let m = HyperMove::make_promotion(SQ(120), SQ(121), PieceType::R, true);
    assert!(m.is_promo());
    assert!(m.is_capture());
    let s = m.stringify_with_identity(Some('R'));
    assert!(s.starts_with("R:"));
    assert!(s.ends_with('r'));
    assert_eq!(strip_identity(&s), m.stringify());
}

#[test]
fn test_hpgn_i_all_promotion_types() {
    let promo_types = [
        (PieceType::Q, 'q'),
        (PieceType::R, 'r'),
        (PieceType::B, 'b'),
        (PieceType::N, 'n'),
        (PieceType::E, 'e'),
        (PieceType::H, 'h'),
    ];
    for (piece, suffix) in &promo_types {
        let m = HyperMove::make_promotion(SQ(120), SQ(132), *piece, false);
        let s = m.stringify();
        assert_eq!(s.chars().last(), Some(*suffix), "promo to {:?} failed", piece);
        let s_id = m.stringify_with_identity(Some('R'));
        assert!(s_id.starts_with("R:"), "identity prefix failed for {:?}", piece);
        assert_eq!(s_id.chars().last(), Some(*suffix), "suffix lost in identity mode for {:?}", piece);
    }
}

#[test]
fn test_hpgn_i_full_round_trip() {
    let test_cases = vec![
        (HyperMove::make_quiet(SQ(0), SQ(12)), "M", "a1a2"),
        (HyperMove::make_capture(SQ(50), SQ(100)), "D", "c5e9"),
        (HyperMove::make_pawn_push(SQ(30), SQ(54)), "R", "g3g5"),
        (HyperMove::make_king_castle(SQ::make(6, 0), SQ::make(7, 0)), "G", "g1h1"),
        (HyperMove::make_queen_castle(SQ::make(6, 0), SQ::make(5, 0)), "G", "g1f1"),
        (HyperMove::make_ep_capture(SQ(52), SQ(65)), "R", "e5f6"),
    ];
    for (m, id, expected_uci) in test_cases {
        let hpgn = m.stringify_with_identity(Some(id.chars().next().unwrap()));
        assert!(hpgn.starts_with(&format!("{}:", id)));
        assert_eq!(strip_identity(&hpgn), expected_uci);
        assert_eq!(m.stringify(), expected_uci);
    }
}

#[test]
fn strip_identity_keeps_text_after_last_colon() {
    assert_eq!(strip_identity("M:a3:a4"), "a4");
    assert_eq!(strip_identity(""), "");
}
