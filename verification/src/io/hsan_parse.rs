//! HSAN parser and HSAN-to-HyperMove converter.

use vstd::prelude::*;

use crate::board::movegen::movable;
use crate::board::Board;
use crate::core_types::move_list::MoveList;
use crate::core_types::piece_move::{HyperMove, FLAG_KING_CASTLE, FLAG_QUEEN_CASTLE};
use crate::core_types::piece::{type_of_piece, Piece};
use crate::core_types::piece_type::{pt_from_char, pt_from_index, PieceType};
use crate::core_types::sq::SQ;
use crate::text::{
    chars_eq_str, chars_of, dec_digits, digit_value, extend_str, is_digit, push_decimal, string_from, trim,
    trim_chars,
};

verus! {

/// The trailing annotation on a HSAN move.
#[derive(Debug, Clone, Copy, PartialEq, Eq, Structural)]
pub enum CheckMarker {
    /// No marker.
    NoMarker,
    /// Trailing `+`.
    Check,
    /// Trailing `#`.
    Checkmate,
}

/// Parsed HSAN move components.
#[derive(Debug, Clone, PartialEq, Eq)]
pub struct HsanMove {
    /// Piece character (K, Q, R, B, N) or None for pawn.
    pub piece: Option<char>,
    /// Source file disambiguation (0-11 for a-l).
    pub src_file: Option<u8>,
    /// Source rank disambiguation (0-11 for ranks 1-12).
    pub src_rank: Option<u8>,
    /// Destination file (0-11).
    pub dst_file: u8,
    /// Destination rank (0-11).
    pub dst_rank: u8,
    /// Capture marker.
    pub is_capture: bool,
    /// Promotion piece (Q, R, B, N, E, H) or None.
    pub promotion: Option<char>,
    /// Check or checkmate marker.
    pub check_marker: CheckMarker,
}

/// The four spellings of a castling move.
pub open spec fn is_castling_text(s: Seq<char>) -> bool {
    s == "O-O"@ || s == "0-0"@ || s == "O-O-O"@ || s == "0-0-0"@
}

/// The marker a move text ends with.
pub open spec fn marker_of(s: Seq<char>) -> CheckMarker {
    if s.len() > 0 && s.last() == '#' {
        CheckMarker::Checkmate
    } else if s.len() > 0 && s.last() == '+' {
        CheckMarker::Check
    } else {
        CheckMarker::NoMarker
    }
}

/// The move text without its marker.
pub open spec fn without_marker(s: Seq<char>) -> Seq<char> {
    if marker_of(s) == CheckMarker::NoMarker {
        s
    } else {
        s.drop_last()
    }
}

/// A piece letter that may open a HSAN move.
pub open spec fn is_piece_letter(c: char) -> bool {
    c == 'K' || c == 'Q' || c == 'R' || c == 'B' || c == 'N'
}

/// The piece letter a move text opens with, if any.
pub open spec fn lead_piece(u: Seq<char>) -> Option<char> {
    if u.len() > 0 && is_piece_letter(u[0]) {
        Some(u[0])
    } else {
        None
    }
}

/// The move text after its piece letter.
pub open spec fn after_lead(u: Seq<char>) -> Seq<char> {
    if lead_piece(u) is Some {
        u.drop_first()
    } else {
        u
    }
}

/// The index of the first `c` in `s` (its length when there is none).
pub open spec fn first_index(s: Seq<char>, c: char) -> int
    decreases s.len(),
{
    if s.len() == 0 {
        0
    } else if s[0] == c {
        0
    } else {
        1 + first_index(s.drop_first(), c)
    }
}

/// The text before the promotion sign.
pub open spec fn before_promo(r: Seq<char>) -> Seq<char> {
    r.take(first_index(r, '='))
}

/// The character after the promotion sign, if any.
pub open spec fn promo_of(r: Seq<char>) -> Option<char> {
    let k = first_index(r, '=');
    if k + 1 < r.len() {
        Some(r[k + 1])
    } else {
        None
    }
}

/// `r` without its `x` characters.
pub open spec fn drop_x(r: Seq<char>) -> Seq<char> {
    r.filter(|c: char| c != 'x')
}

/// A file letter `a`..`l`.
pub open spec fn is_file_char(c: char) -> bool {
    'a' <= c <= 'l'
}

/// The file of the last file letter of a disambiguation.
pub open spec fn last_file(d: Seq<char>) -> Option<u8>
    decreases d.len(),
{
    if d.len() == 0 {
        None
    } else if is_file_char(d.last()) {
        Some((d.last() as int - 'a' as int) as u8)
    } else {
        last_file(d.drop_last())
    }
}

/// The rank of the last digit of a disambiguation.
pub open spec fn last_rank(d: Seq<char>) -> Option<u8>
    decreases d.len(),
{
    if d.len() == 0 {
        None
    } else if !is_file_char(d.last()) && is_digit(d.last()) {
        Some((digit_value(d.last()) - 1) as u8)
    } else {
        last_rank(d.drop_last())
    }
}

/// The squares part of a non-castling move text: the text without marker,
/// piece letter, promotion and capture marks.
pub open spec fn core_of(s: Seq<char>) -> Seq<char> {
    drop_x(before_promo(after_lead(without_marker(s))))
}

/// The squares part ends in a destination on rank 10, 11 or 12: a file
/// letter, `1`, then `0`, `1` or `2`.
pub open spec fn two_digit_dest(core: Seq<char>) -> bool {
    &&& core.len() >= 3
    &&& is_file_char(core[core.len() - 3])
    &&& core[core.len() - 2] == '1'
    &&& '0' <= core[core.len() - 1] <= '2'
}

/// The number of characters of the destination at the end of a squares
/// part.
pub open spec fn dest_len(core: Seq<char>) -> int {
    if two_digit_dest(core) {
        3
    } else {
        2
    }
}

/// The destination of a squares part is well formed: a file letter then a
/// rank 1-12 (one digit 1-9, or `10`, `11`, `12`).
pub open spec fn dest_ok(core: Seq<char>) -> bool {
    ||| two_digit_dest(core)
    ||| {
        &&& core.len() >= 2
        &&& is_file_char(core[core.len() - 2])
        &&& is_digit(core[core.len() - 1])
        &&& core[core.len() - 1] != '0'
    }
}

/// The move HSAN text denotes, or `None` when it is malformed.
pub open spec fn hsan_parse(text: Seq<char>) -> Option<HsanMove> {
    let s = trim(text);
    if s.len() == 0 {
        None
    } else if is_castling_text(s) {
        Some(
            HsanMove {
                piece: Some('K'),
                src_file: None,
                src_rank: None,
                dst_file: 0,
                dst_rank: 0,
                is_capture: false,
                promotion: None,
                check_marker: CheckMarker::NoMarker,
            },
        )
    } else {
        let u = without_marker(s);
        let r0 = after_lead(u);
        let r1 = before_promo(r0);
        let core = drop_x(r1);
        if !dest_ok(core) {
            None
        } else {
            let n = core.len();
            let k = dest_len(core);
            let d = core.take(n - k);
            Some(
                HsanMove {
                    piece: lead_piece(u),
                    src_file: last_file(d),
                    src_rank: last_rank(d),
                    dst_file: (core[n - k] as int - 'a' as int) as u8,
                    dst_rank: (if k == 3 {
                        9 + digit_value(core[n - 1])
                    } else {
                        digit_value(core[n - 1]) - 1
                    }) as u8,
                    is_capture: r1.contains('x'),
                    promotion: promo_of(r0),
                    check_marker: marker_of(s),
                },
            )
        }
    }
}

/// Texts on which reading the move has no defined result: a squares part
/// that is one non-ASCII character (its byte length passes the length
/// check while it has no two characters), or a rank digit `0` among the
/// disambiguation characters of an otherwise well-formed move.
pub open spec fn hsan_undefined(text: Seq<char>) -> bool {
    let s = trim(text);
    let core = core_of(s);
    &&& s.len() > 0
    &&& !is_castling_text(s)
    &&& {
        ||| core.len() == 1 && core[0] as int >= 0x80
        ||| dest_ok(core) && core.take(core.len() - dest_len(core)).contains('0')
    }
}

/// `first_index` finds the first occurrence.
pub proof fn lemma_first_index(s: Seq<char>, c: char)
    ensures
        0 <= first_index(s, c) <= s.len(),
        first_index(s, c) < s.len() ==> s[first_index(s, c)] == c,
        forall|j: int| 0 <= j < first_index(s, c) ==> s[j] != c,
    decreases s.len(),
{
    if s.len() > 0 && s[0] != c {
        lemma_first_index(s.drop_first(), c);
        assert forall|j: int| 0 <= j < first_index(s, c) implies s[j] != c by {
            if j > 0 {
                assert(s[j] == s.drop_first()[j - 1]);
            }
        }
    }
}

/// A short error message.
fn message(text: &str) -> (r: String)
    ensures
        r@ == text@,
{
    let mut v: Vec<char> = Vec::new();
    extend_str(&mut v, text);
    string_from(&v)
}

/// A message followed by one character.
fn message_char(text: &str, c: char) -> (r: String)
    ensures
        r@ == text@.push(c),
{
    let mut v: Vec<char> = Vec::new();
    extend_str(&mut v, text);
    v.push(c);
    string_from(&v)
}

/// The letter of file `f` in a message (`?` beyond the character range).
pub open spec fn message_file_char(f: u8) -> char {
    if f < 159 {
        ((f + 97) as u8) as char
    } else {
        '?'
    }
}

/// The message for a destination that no move of the named piece reaches.
fn no_move_message(file: u8, rank: u8) -> (r: String)
    ensures
        r@ == "No legal move to square ("@ + seq![message_file_char(file)] + ", "@ + dec_digits(
            rank as nat + 1,
        ) + ")"@,
{
    let mut v: Vec<char> = Vec::new();
    extend_str(&mut v, "No legal move to square (");
    if file < 159 {
        v.push((file + 97) as char);
    } else {
        v.push('?');
    }
    extend_str(&mut v, ", ");
    push_decimal(&mut v, rank as u64 + 1);
    extend_str(&mut v, ")");
    string_from(&v)
}

/// The message for a move that several legal moves fit.
fn ambiguous_message(n: usize) -> (r: String)
    ensures
        r@ == "Ambiguous HSAN move: "@ + dec_digits(n as nat) + " legal moves match"@,
{
    let mut v: Vec<char> = Vec::new();
    extend_str(&mut v, "Ambiguous HSAN move: ");
    push_decimal(&mut v, n as u64);
    extend_str(&mut v, " legal moves match");
    string_from(&v)
}

/// Parse HSAN move string (e.g., "e4", "Nf3", "Qxe5", "a8=Q+", "O-O").
pub fn parse_hsan(hsan: &str) -> (r: Result<HsanMove, String>)
    requires
        !hsan_undefined(hsan@),
    ensures
        match r {
            Ok(m) => hsan_parse(hsan@) == Some(m),
            Err(_) => hsan_parse(hsan@) is None,
        },
        r matches Ok(m) ==> (!is_castling_text(trim(hsan@)) ==> m.piece == (if trim(hsan@)[0] == 'K'
            || trim(hsan@)[0] == 'Q' || trim(hsan@)[0] == 'R' || trim(hsan@)[0] == 'B' || trim(hsan@)[0]
            == 'N' {
            Some(trim(hsan@)[0])
        } else {
            None::<char>
        })),
{
    let r = parse_hsan_text(hsan);
    proof {
        if r is Ok && !is_castling_text(trim(hsan@)) {
            lemma_hsan_piece_letter(hsan@, r->Ok_0);
        }
    }
    r
}

/// Reads a HSAN move text, as [`parse_hsan`].
fn parse_hsan_text(hsan: &str) -> (r: Result<HsanMove, String>)
    requires
        !hsan_undefined(hsan@),
    ensures
        match r {
            Ok(m) => hsan_parse(hsan@) == Some(m),
            Err(_) => hsan_parse(hsan@) is None,
        },
{
    let raw = chars_of(hsan);
    let s = trim_chars(&raw);
    if s.len() == 0 {
        return Err(message("Empty HSAN move"));
    }
    proof {
        reveal_strlit("O-O");
        reveal_strlit("0-0");
        reveal_strlit("O-O-O");
        reveal_strlit("0-0-0");
    }
    if chars_eq_str(&s, "O-O") || chars_eq_str(&s, "0-0") || chars_eq_str(&s, "O-O-O") || chars_eq_str(
        &s,
        "0-0-0",
    ) {
        return Ok(
            HsanMove {
                piece: Some('K'),
                src_file: None,
                src_rank: None,
                dst_file: 0,
                dst_rank: 0,
                is_capture: false,
                promotion: None,
                check_marker: CheckMarker::NoMarker,
            },
        );
    }
    // Trailing check or mate marker.
    let n = s.len();
    let check_marker = if s[n - 1] == '#' {
        CheckMarker::Checkmate
    } else if s[n - 1] == '+' {
        CheckMarker::Check
    } else {
        CheckMarker::NoMarker
    };
    let end = if check_marker == CheckMarker::NoMarker {
        n
    } else {
        n - 1
    };
    let ghost u = without_marker(s@);
    assert(u =~= s@.subrange(0, end as int));
    // Piece letter.
    let piece = if end > 0 && (s[0] == 'K' || s[0] == 'Q' || s[0] == 'R' || s[0] == 'B' || s[0] == 'N') {
        Some(s[0])
    } else {
        None
    };
    let start: usize = if piece.is_some() {
        1
    } else {
        0
    };
    let ghost r0 = after_lead(u);
    assert(r0 =~= s@.subrange(start as int, end as int));
    // Promotion: the character after the first '='.
    let mut k = start;
    while k < end && s[k] != '='
        invariant
            start <= k <= end <= s.len(),
            forall|j: int| start <= j < k ==> s@[j] != '=',
        decreases end - k,
    {
        k += 1;
    }
    proof {
        lemma_first_index(r0, '=');
        let f = first_index(r0, '=');
        if f < k - start {
            assert(r0[f] == s@[start + f]);
        }
        if k < end {
            assert(r0[k - start] == '=');
        }
        assert(f == k - start);
    }
    let promotion = if end - k > 1 {
        Some(s[k + 1])
    } else {
        None
    };
    assert(promotion == promo_of(r0));
    let ghost r1 = before_promo(r0);
    assert(r1 =~= s@.subrange(start as int, k as int));
    // Capture marks are dropped.
    let mut core: Vec<char> = Vec::new();
    let mut is_capture = false;
    let mut i = start;
    while i < k
        invariant
            start <= i <= k <= s.len(),
            r1 == s@.subrange(start as int, k as int),
            core@ == r1.take(i - start).filter(|c: char| c != 'x'),
            is_capture == r1.take(i - start).contains('x'),
        decreases k - i,
    {
        let c = s[i];
        let ghost pre = r1.take(i - start);
        let ghost next = r1.take(i - start + 1);
        assert(next.drop_last() =~= pre);
        assert(next.last() == c);
        proof {
            reveal(Seq::filter);
        }
        if c == 'x' {
            is_capture = true;
            assert(next.contains('x')) by {
                assert(next[next.len() - 1] == 'x');
            }
        } else {
            core.push(c);
            assert(next.contains('x') == pre.contains('x')) by {
                if next.contains('x') {
                    let j = choose|j: int| 0 <= j < next.len() && next[j] == 'x';
                    assert(pre[j] == 'x');
                }
                if pre.contains('x') {
                    let j = choose|j: int| 0 <= j < pre.len() && pre[j] == 'x';
                    assert(next[j] == 'x');
                }
            }
        }
        if c == 'x' {
            assert(next.filter(|c: char| c != 'x') == pre.filter(|c: char| c != 'x'));
        }
        i += 1;
    }
    assert(r1.take(k - start) =~= r1);
    assert(core@ == core_of(s@));
    let m = core.len();
    if m < 2 {
        return Err(message("Missing destination square"));
    }
    let two = m >= 3 && 'a' <= core[m - 3] && core[m - 3] <= 'l' && core[m - 2] == '1' && '0' <= core[m
        - 1] && core[m - 1] <= '2';
    let dl: usize = if two {
        3
    } else {
        2
    };
    assert(two == two_digit_dest(core@));
    assert(dl == dest_len(core@));
    let fc = core[m - dl];
    let rc = core[m - 1];
    if !('a' <= fc && fc <= 'l') {
        return Err(message_char("Invalid destination file: ", fc));
    }
    let dst_file = (fc as u8) - 97;
    if !('0' <= rc && rc <= '9') {
        return Err(message_char("Invalid destination rank: ", rc));
    }
    let rank_num = (rc as u8) - 48;
    if !two && rank_num == 0 {
        return Err(message("Destination rank out of bounds: 0"));
    }
    let dst_rank = if two {
        9 + rank_num
    } else {
        rank_num - 1
    };
    // Disambiguation: the last file letter and the last digit before the
    // destination.
    let mut src_file: Option<u8> = None;
    let mut src_rank: Option<u8> = None;
    let mut j: usize = 0;
    let ghost d = core@.take(m - dl);
    while j < m - dl
        invariant
            j <= m - dl,
            2 <= dl <= m,
            m == core.len(),
            d == core@.take(m - dl),
            !d.contains('0'),
            src_file == last_file(d.take(j as int)),
            src_rank == last_rank(d.take(j as int)),
        decreases m - dl - j,
    {
        let c = core[j];
        assert(d.take(j + 1).drop_last() =~= d.take(j as int));
        assert(d.take(j + 1).last() == c);
        if 'a' <= c && c <= 'l' {
            src_file = Some((c as u8) - 97);
        } else if '0' <= c && c <= '9' {
            assert(c != '0') by {
                if c == '0' {
                    assert(d[j as int] == '0');
                }
            }
            src_rank = Some((c as u8) - 49);
        }
        j += 1;
    }
    assert(d.take(m - dl) =~= d);
    Ok(
        HsanMove {
            piece,
            src_file,
            src_rank,
            dst_file,
            dst_rank,
            is_capture,
            promotion,
            check_marker,
        },
    )
}


/// `m` fits the promotion, capture and disambiguation parts of `h`.
pub open spec fn hsan_matches(h: HsanMove, m: HyperMove) -> bool {
    &&& match h.promotion {
        Some(pc) => m.promo_flag() && pt_from_char(pc) == Some(pt_from_index(m.promo_index() as int)),
        None => !m.promo_flag(),
    }
    &&& h.is_capture == m.capture_flag()
    &&& (h.src_file matches Some(f) ==> m.src_index() % 12 == f)
    &&& (h.src_rank matches Some(rk) ==> m.src_index() / 12 == rk)
}

/// The shape the reader gives a castling text: a king move to `a1` with
/// no disambiguation, capture or promotion.
pub open spec fn castle_shape(h: HsanMove) -> bool {
    &&& h.piece == Some('K')
    &&& h.src_file is None
    &&& h.src_rank is None
    &&& h.dst_file == 0
    &&& h.dst_rank == 0
    &&& !h.is_capture
    &&& h.promotion is None
}

/// The kind of piece `h` names: a pawn when it has no piece letter.
pub open spec fn named_kind(h: HsanMove) -> Option<PieceType> {
    match h.piece {
        Some(c) => pt_from_char(c),
        None => Some(PieceType::P),
    }
}

/// `m` goes to the destination of `h` with a piece of the kind `h` names,
/// on a board whose squares hold `locs`.
pub open spec fn hsan_target(locs: Seq<Piece>, h: HsanMove, m: HyperMove) -> bool {
    &&& m.dst_index() == h.dst_rank * 12 + h.dst_file
    &&& named_kind(h) == Some(type_of_piece(locs[m.src_index()]))
}

/// The move `h` names among the moves `legal` of a board whose squares hold
/// `locs`: for the castling shape, the first king-side castle, else the
/// first queen-side castle, when there is one; otherwise the only move of
/// the named kind of piece to the destination, or the only one of those
/// that fits `h`. `None` when there is no such move or more than one.
pub open spec fn hsan_pick(legal: Seq<HyperMove>, locs: Seq<Piece>, h: HsanMove) -> Option<HyperMove> {
    let kc = legal.filter(|m: HyperMove| m.flag_bits() == FLAG_KING_CASTLE);
    let qc = legal.filter(|m: HyperMove| m.flag_bits() == FLAG_QUEEN_CASTLE);
    if castle_shape(h) && kc.len() > 0 {
        Some(kc[0])
    } else if castle_shape(h) && qc.len() > 0 {
        Some(qc[0])
    } else {
        let cands = legal.filter(|m: HyperMove| hsan_target(locs, h, m));
        if cands.len() == 0 {
            None
        } else if cands.len() == 1 {
            Some(cands[0])
        } else {
            let fitting = cands.filter(|m: HyperMove| hsan_matches(h, m));
            if fitting.len() == 1 {
                Some(fitting[0])
            } else {
                None
            }
        }
    }
}

/// Executable [`castle_shape`].
fn is_castle_shape(h: &HsanMove) -> (r: bool)
    ensures
        r == castle_shape(*h),
{
    h.piece == Some('K') && h.src_file.is_none() && h.src_rank.is_none() && h.dst_file == 0
        && h.dst_rank == 0 && !h.is_capture && h.promotion.is_none()
}

/// Executable [`hsan_matches`].
fn fits(h: &HsanMove, m: HyperMove) -> (r: bool)
    ensures
        r == hsan_matches(*h, m),
{
    match h.promotion {
        Some(pc) => {
            if !m.is_promo() {
                return false;
            }
            let promo_type = PieceType::from_char(pc);
            let mp = m.promo_piece();
            match promo_type {
                Some(t) => {
                    if t != mp {
                        return false;
                    }
                },
                None => {
                    return false;
                },
            }
        },
        None => {
            if m.is_promo() {
                return false;
            }
        },
    }
    if h.is_capture != m.is_capture() {
        return false;
    }
    let src = m.get_src();
    match h.src_file {
        Some(f) => {
            if src.0 % 12 != f {
                return false;
            }
        },
        None => {},
    }
    match h.src_rank {
        Some(rk) => {
            if src.0 / 12 != rk {
                return false;
            }
        },
        None => {},
    }
    true
}

/// The moves of `legal` with the given flag bits, in order.
fn with_flag(legal: &Vec<HyperMove>, flag: u32) -> (r: Vec<HyperMove>)
    ensures
        r@ == legal@.filter(|m: HyperMove| m.flag_bits() == flag),
{
    let mut out: Vec<HyperMove> = Vec::new();
    let mut i: usize = 0;
    while i < legal.len()
        invariant
            i <= legal.len(),
            out@ == legal@.take(i as int).filter(|m: HyperMove| m.flag_bits() == flag),
        decreases legal.len() - i,
    {
        let m = legal[i];
        proof {
            reveal(Seq::filter);
            assert(legal@.take(i + 1).drop_last() =~= legal@.take(i as int));
        }
        if m.flag() == flag {
            out.push(m);
        }
        i += 1;
    }
    assert(legal@.take(legal.len() as int) =~= legal@);
    out
}

/// The moves of `legal` to the destination of `h` with a piece of the kind
/// `h` names, in order.
fn with_target(board: &Board, legal: &Vec<HyperMove>, h: &HsanMove) -> (r: Vec<HyperMove>)
    requires
        board.wf(),
        forall|k: int| 0 <= k < legal@.len() ==> (#[trigger] legal@[k]).src_index() < 144,
        h.dst_rank * 12 + h.dst_file < 256,
    ensures
        r@ == legal@.filter(|m: HyperMove| hsan_target(board.locs(), *h, m)),
{
    let dst = SQ::make(h.dst_file, h.dst_rank);
    let kind: Option<PieceType> = match h.piece {
        Some(c) => PieceType::from_char(c),
        None => Some(PieceType::P),
    };
    let mut out: Vec<HyperMove> = Vec::new();
    let mut i: usize = 0;
    while i < legal.len()
        invariant
            i <= legal.len(),
            board.wf(),
            forall|k: int| 0 <= k < legal@.len() ==> (#[trigger] legal@[k]).src_index() < 144,
            dst.0 == h.dst_rank * 12 + h.dst_file,
            kind == named_kind(*h),
            out@ == legal@.take(i as int).filter(|m: HyperMove| hsan_target(board.locs(), *h, m)),
        decreases legal.len() - i,
    {
        let m = legal[i];
        proof {
            reveal(Seq::filter);
            assert(legal@.take(i + 1).drop_last() =~= legal@.take(i as int));
            assert(legal@[i as int].src_index() < 144);
        }
        if m.get_dest().0 == dst.0 {
            let t = board.piece_at(m.get_src()).type_of();
            let same = match kind {
                Some(k) => k == t,
                None => false,
            };
            if same {
                out.push(m);
            }
        }
        i += 1;
    }
    assert(legal@.take(legal.len() as int) =~= legal@);
    out
}

/// The moves of `cands` that fit `h`, in order.
fn fitting(cands: &Vec<HyperMove>, h: &HsanMove) -> (r: Vec<HyperMove>)
    ensures
        r@ == cands@.filter(|m: HyperMove| hsan_matches(*h, m)),
{
    let mut out: Vec<HyperMove> = Vec::new();
    let mut i: usize = 0;
    while i < cands.len()
        invariant
            i <= cands.len(),
            out@ == cands@.take(i as int).filter(|m: HyperMove| hsan_matches(*h, m)),
        decreases cands.len() - i,
    {
        let m = cands[i];
        proof {
            reveal(Seq::filter);
            assert(cands@.take(i + 1).drop_last() =~= cands@.take(i as int));
        }
        if fits(h, m) {
            out.push(m);
        }
        i += 1;
    }
    assert(cands@.take(cands.len() as int) =~= cands@);
    out
}

/// Picks the move a parsed HSAN move names among the moves `legal` of
/// `board`.
pub fn select_hsan_move(board: &Board, legal: &Vec<HyperMove>, hsan_move: &HsanMove) -> (r: Result<
    HyperMove,
    String,
>)
    requires
        board.wf(),
        forall|k: int| 0 <= k < legal@.len() ==> (#[trigger] legal@[k]).src_index() < 144,
        hsan_move.dst_rank * 12 + hsan_move.dst_file < 256,
    ensures
        match r {
            Ok(m) => hsan_pick(legal@, board.locs(), *hsan_move) == Some(m),
            Err(_) => hsan_pick(legal@, board.locs(), *hsan_move) is None,
        },
{
    if is_castle_shape(hsan_move) {
        let kc = with_flag(legal, FLAG_KING_CASTLE);
        if kc.len() > 0 {
            return Ok(kc[0]);
        }
        let qc = with_flag(legal, FLAG_QUEEN_CASTLE);
        if qc.len() > 0 {
            return Ok(qc[0]);
        }
    }
    let cands = with_target(board, legal, hsan_move);
    if cands.len() == 0 {
        return Err(no_move_message(hsan_move.dst_file, hsan_move.dst_rank));
    }
    if cands.len() == 1 {
        return Ok(cands[0]);
    }
    let f = fitting(&cands, hsan_move);
    if f.len() == 1 {
        Ok(f[0])
    } else if f.len() == 0 {
        Err(message("No legal move matches the HSAN disambiguators"))
    } else {
        Err(ambiguous_message(f.len()))
    }
}

/// Convert parsed HSAN move to HyperMove by matching against the legal
/// moves of `board`.
pub fn hsan_to_hypermove(board: &Board, hsan_move: &HsanMove) -> (r: Result<HyperMove, String>)
    requires
        board.ready(),
        hsan_move.dst_rank * 12 + hsan_move.dst_file < 256,
    ensures
        exists|l: Seq<HyperMove>|
            {
                &&& forall|k: int| 0 <= k < l.len() ==> movable(*board, #[trigger] l[k])
                &&& forall|m: HyperMove| movable(*board, m) ==> #[trigger] l.contains(m)
                &&& l.no_duplicates()
                &&& match r {
                    Ok(m) => hsan_pick(l, board.locs(), *hsan_move) == Some(m),
                    Err(_) => hsan_pick(l, board.locs(), *hsan_move) is None,
                }
            },
{
    let legal = board.generate_moves();
    let moves = legal.to_vec();
    assert(forall|k: int| 0 <= k < moves@.len() ==> movable(*board, #[trigger] moves@[k]));
    assert(forall|k: int| 0 <= k < moves@.len() ==> (#[trigger] moves@[k]).src_index() < 144) by {
        assert forall|k: int| 0 <= k < moves@.len() implies (#[trigger] moves@[k]).src_index() < 144 by {
            assert(movable(*board, moves@[k]));
        }
    }
    let r = select_hsan_move(board, &moves, hsan_move);
    assert(forall|m: HyperMove| movable(*board, m) ==> #[trigger] moves@.contains(m));
    r
}

/// A move text that is not a castle is read with its first character as
/// the piece letter when that character is `K`, `Q`, `R`, `B` or `N`, and
/// as a pawn move otherwise.
pub proof fn lemma_hsan_piece_letter(text: Seq<char>, h: HsanMove)
    requires
        hsan_parse(text) == Some(h),
        !is_castling_text(trim(text)),
    ensures
        trim(text).len() > 0,
        h.piece == (if trim(text)[0] == 'K' || trim(text)[0] == 'Q' || trim(text)[0] == 'R' || trim(text)[0]
            == 'B' || trim(text)[0] == 'N' {
            Some(trim(text)[0])
        } else {
            None::<char>
        }),
{
    let s = trim(text);
    let u = without_marker(s);
    if u.len() == 0 {
        assert(after_lead(u) =~= u);
        assert(before_promo(u) =~= Seq::<char>::empty());
        reveal(Seq::filter);
        assert(drop_x(Seq::<char>::empty()) =~= Seq::<char>::empty());
        assert(false);
    }
    assert(u[0] == s[0]);
}

/// The move picked for a parsed HSAN move is one of the moves given: a
/// castle when a king move to `a1` without disambiguation, capture or
/// promotion is asked for; otherwise a move to the named destination by a
/// piece of the named kind (a pawn when no letter is given, `K`, `Q`, `R`,
/// `B`, `N`, `E`, `H` for the others).
pub proof fn lemma_hsan_pick_sound(legal: Seq<HyperMove>, locs: Seq<Piece>, h: HsanMove)
    ensures
        hsan_pick(legal, locs, h) matches Some(m) ==> legal.contains(m) && ((h.piece == Some('K')
            && h.src_file is None && h.src_rank is None && h.dst_file == 0 && h.dst_rank == 0
            && !h.is_capture && h.promotion is None && (m.flag_bits() == FLAG_KING_CASTLE || m.flag_bits()
            == FLAG_QUEEN_CASTLE)) || (m.dst_index() == h.dst_rank * 12 + h.dst_file && ({
            let t = type_of_piece(locs[m.src_index()]);
            &&& h.piece is None ==> t == PieceType::P
            &&& h.piece == Some('K') ==> t == PieceType::K
            &&& h.piece == Some('Q') ==> t == PieceType::Q
            &&& h.piece == Some('R') ==> t == PieceType::R
            &&& h.piece == Some('B') ==> t == PieceType::B
            &&& h.piece == Some('N') ==> t == PieceType::N
            &&& h.piece == Some('E') ==> t == PieceType::E
            &&& h.piece == Some('H') ==> t == PieceType::H
        }))),
{
    let kpred = |m: HyperMove| m.flag_bits() == FLAG_KING_CASTLE;
    let qpred = |m: HyperMove| m.flag_bits() == FLAG_QUEEN_CASTLE;
    let tpred = |m: HyperMove| hsan_target(locs, h, m);
    let fpred = |m: HyperMove| hsan_matches(h, m);
    let kc = legal.filter(kpred);
    let qc = legal.filter(qpred);
    let cands = legal.filter(tpred);
    if castle_shape(h) && kc.len() > 0 {
        legal.lemma_filter_pred(kpred, 0);
        assert(kc.contains(kc[0]));
        legal.lemma_filter_contains_rev(kpred, kc[0]);
    } else if castle_shape(h) && qc.len() > 0 {
        legal.lemma_filter_pred(qpred, 0);
        assert(qc.contains(qc[0]));
        legal.lemma_filter_contains_rev(qpred, qc[0]);
    } else if cands.len() == 1 {
        legal.lemma_filter_pred(tpred, 0);
        assert(cands.contains(cands[0]));
        legal.lemma_filter_contains_rev(tpred, cands[0]);
    } else if cands.len() > 1 {
        let fit = cands.filter(fpred);
        if fit.len() == 1 {
            assert(fit.contains(fit[0]));
            cands.lemma_filter_contains_rev(fpred, fit[0]);
            let j = choose|j: int| 0 <= j < cands.len() && cands[j] == fit[0];
            legal.lemma_filter_pred(tpred, j);
            assert(cands.contains(cands[j]));
            legal.lemma_filter_contains_rev(tpred, cands[j]);
        }
    }
}

} // verus!
