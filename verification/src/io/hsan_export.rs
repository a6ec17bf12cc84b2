//! HyperMove to HSAN export.

use vstd::prelude::*;

use crate::board::Board;
use crate::core_types::file_rank::file_letter;
use crate::core_types::piece::{piece_char, Piece};
use crate::core_types::piece_move::{HyperMove, FLAG_KING_CASTLE, FLAG_QUEEN_CASTLE};
use crate::core_types::piece_type::{pt_char_upper, pt_from_index};
use crate::board::hfen_laws::lemma_dec_digits;
use crate::core_types::piece_type::PieceType;
use crate::io::hsan_parse::{
    after_lead, before_promo, dest_len, dest_ok, drop_x, first_index, hsan_parse, is_castling_text,
    is_piece_letter, last_file, last_rank, lead_piece, lemma_first_index, marker_of, promo_of, two_digit_dest,
    without_marker, CheckMarker,
};
use crate::text::{dec_digits, extend_str, is_digit, is_ws, push_decimal, string_from, trim, trim_end, trim_start};

verus! {

/// The HSAN text of `m` played on a board whose squares hold `locs`:
/// castles as `O-O` / `O-O-O`; otherwise the piece letter (none for pawns),
/// an `x` for captures (after the source file for pawns, after the piece
/// letter otherwise), the destination square, and `=` with the promotion
/// letter.
pub open spec fn hsan_text(locs: Seq<Piece>, m: HyperMove) -> Seq<char> {
    if m.flag_bits() == FLAG_KING_CASTLE {
        "O-O"@
    } else if m.flag_bits() == FLAG_QUEEN_CASTLE {
        "O-O-O"@
    } else {
        let piece = locs[m.src_index()];
        let is_pawn = piece == Piece::WhitePawn || piece == Piece::BlackPawn;
        let lead = if piece != Piece::Empty && !is_pawn {
            seq![piece_char(piece)]
        } else {
            Seq::<char>::empty()
        };
        let dst = m.dst_index();
        let square = seq![file_letter(dst % 12)] + dec_digits((dst / 12 + 1) as nat);
        let marked = if !m.capture_flag() {
            lead + square
        } else if is_pawn {
            seq![file_letter(m.src_index() % 12), 'x'] + square
        } else {
            lead + seq!['x'] + square
        };
        marked + if m.promo_flag() {
            seq!['=', pt_char_upper(pt_from_index(m.promo_index() as int))]
        } else {
            Seq::<char>::empty()
        }
    }
}

/// Convert HyperMove to HSAN string (e.g. `Nf3`, `exd5`, `Rxd10`, `a12=Q`,
/// `O-O`).
pub fn hypermove_to_hsan(board: &Board, m: HyperMove) -> (r: String)
    requires
        board.wf(),
        m.src_index() < 144,
    ensures
        r@ == hsan_text(board.locs(), m),
{
    let mut out: Vec<char> = Vec::new();
    if m.is_king_castle() {
        extend_str(&mut out, "O-O");
        return string_from(&out);
    }
    if m.is_queen_castle() {
        extend_str(&mut out, "O-O-O");
        return string_from(&out);
    }
    let src = m.get_src();
    let dst = m.get_dest();
    let piece = board.piece_at(src);
    let is_pawn = piece == Piece::WhitePawn || piece == Piece::BlackPawn;
    let capture = m.is_capture();
    if capture && is_pawn {
        out.push((97u8 + src.0 % 12) as char);
        out.push('x');
    }
    if piece != Piece::Empty && !is_pawn {
        out.push(piece.character_lossy());
    }
    if capture && !is_pawn {
        out.push('x');
    }
    out.push((97u8 + dst.0 % 12) as char);
    push_decimal(&mut out, (dst.0 / 12 + 1) as u64);
    let ghost marked = out@;
    proof {
        let lead = if piece != Piece::Empty && !is_pawn {
            seq![piece_char(piece)]
        } else {
            Seq::<char>::empty()
        };
        let square = seq![file_letter(m.dst_index() % 12)] + dec_digits((m.dst_index() / 12 + 1) as nat);
        if !m.capture_flag() {
            assert(marked =~= lead + square);
        } else if is_pawn {
            assert(marked =~= seq![file_letter(m.src_index() % 12), 'x'] + square);
        } else {
            assert(marked =~= lead + seq!['x'] + square);
        }
    }
    if m.is_promo() {
        out.push('=');
        out.push(m.promo_piece().char_upper());
    }
    proof {
        if m.promo_flag() {
            assert(out@ =~= marked + seq!['=', pt_char_upper(pt_from_index(m.promo_index() as int))]);
        } else {
            assert(out@ =~= marked + Seq::<char>::empty());
        }
    }
    string_from(&out)
}

/// The HSAN text of a move other than a castle: it ends with the name of
/// the destination square, then `=` and the upper-case letter of the
/// promotion kind when the move promotes (`Q`, `R`, `B`, `N`, `E`, `H`);
/// it holds an `=` only then, and an `x` exactly when the move captures.
pub proof fn lemma_hsan_text_shape(locs: Seq<Piece>, m: HyperMove)
    requires
        0 <= m.src_index() < locs.len(),
        0 <= m.dst_index() < 144,
        m.flag_bits() != FLAG_KING_CASTLE,
        m.flag_bits() != FLAG_QUEEN_CASTLE,
    ensures
        ({
            let t = hsan_text(locs, m);
            let d = m.dst_index();
            let sq = seq![((d % 12) + 97) as char] + dec_digits((d / 12 + 1) as nat);
            let k: int = if m.promo_flag() { 2 } else { 0 };
            &&& t.len() >= sq.len() + k
            &&& t.subrange(t.len() - k - sq.len(), t.len() - k) == sq
            &&& m.promo_flag() ==> t[t.len() - 2] == '=' && t[t.len() - 1] == (match pt_from_index(
                m.promo_index() as int,
            ) {
                PieceType::Q => 'Q',
                PieceType::R => 'R',
                PieceType::B => 'B',
                PieceType::N => 'N',
                PieceType::E => 'E',
                PieceType::H => 'H',
                PieceType::P => 'P',
                PieceType::K => 'K',
                _ => '?',
            })
            &&& !m.promo_flag() ==> !t.contains('=')
            &&& t.contains('x') == m.capture_flag()
        }),
{
    let t = hsan_text(locs, m);
    let d = m.dst_index();
    let piece = locs[m.src_index()];
    let is_pawn = piece == Piece::WhitePawn || piece == Piece::BlackPawn;
    let lead = if piece != Piece::Empty && !is_pawn {
        seq![piece_char(piece)]
    } else {
        Seq::<char>::empty()
    };
    let digits = dec_digits((d / 12 + 1) as nat);
    lemma_dec_digits((d / 12 + 1) as nat);
    let square = seq![file_letter(d % 12)] + digits;
    let pre = if !m.capture_flag() {
        lead
    } else if is_pawn {
        seq![file_letter(m.src_index() % 12), 'x']
    } else {
        lead + seq!['x']
    };
    let marked = pre + square;
    let tail = if m.promo_flag() {
        seq!['=', pt_char_upper(pt_from_index(m.promo_index() as int))]
    } else {
        Seq::<char>::empty()
    };
    assert(t =~= pre + square + tail);
    let k: int = if m.promo_flag() { 2 } else { 0 };
    assert(t.subrange(t.len() - k - square.len(), t.len() - k) =~= square);
    assert(forall|i: int| 0 <= i < digits.len() ==> is_digit(#[trigger] digits[i]));
    assert forall|i: int| 0 <= i < pre.len() + square.len() implies (#[trigger] t[i]) != '=' && (t[i] == 'x'
        <==> (i < pre.len() && pre[i] == 'x')) by {
        if i >= pre.len() + 1 {
            assert(t[i] == digits[i - pre.len() - 1]);
            assert(is_digit(digits[i - pre.len() - 1]));
        }
    }
    if m.capture_flag() {
        let j = pre.len() - 1;
        assert(t[j] == 'x');
    } else {
        assert forall|i: int| 0 <= i < t.len() implies t[i] != 'x' by {
            if i < pre.len() + square.len() {
            } else {
                assert(t[i] == tail[i - pre.len() - square.len()]);
            }
        }
    }
    if m.capture_flag() {
        assert(t.contains('x')) by {
            assert(t[pre.len() - 1] == 'x');
        }
    }
    if !m.promo_flag() {
        assert(t =~= marked);
    }
}

/// The decimal digits of a rank number 1-12: one digit up to 9, else `1`
/// and a second digit.
proof fn lemma_rank_digits(v: nat)
    requires
        1 <= v <= 12,
    ensures
        v < 10 ==> dec_digits(v) == seq![((v + 48) as char)],
        v >= 10 ==> dec_digits(v) == seq!['1', ((v - 10 + 48) as char)],
{
    if v >= 10 {
        assert(dec_digits(v / 10) == seq!['1']);
    }
}

/// A text without `x` characters is kept whole by dropping them.
proof fn lemma_drop_x_plain(t: Seq<char>)
    requires
        forall|i: int| 0 <= i < t.len() ==> t[i] != 'x',
    ensures
        drop_x(t) == t,
    decreases t.len(),
{
    reveal(Seq::filter);
    if t.len() > 0 {
        lemma_drop_x_plain(t.drop_last());
        assert(t.drop_last().push(t.last()) =~= t);
    }
}

/// The promotion part of a text made of a part without `=`, then
/// optionally `=` and one more character.
proof fn lemma_promo_split(body: Seq<char>, tail: Seq<char>)
    requires
        forall|i: int| 0 <= i < body.len() ==> body[i] != '=',
        tail.len() == 0 || (tail.len() == 2 && tail[0] == '='),
    ensures
        before_promo(body + tail) == body,
        promo_of(body + tail) == (if tail.len() == 2 {
            Some(tail[1])
        } else {
            None::<char>
        }),
{
    let r0 = body + tail;
    lemma_first_index(r0, '=');
    let fi = first_index(r0, '=');
    if tail.len() == 2 {
        assert(r0[body.len() as int] == '=');
        if fi < body.len() {
            assert(r0[fi] == body[fi]);
        }
        assert(fi == body.len());
    } else {
        assert(r0 =~= body);
        if fi < r0.len() {
            assert(r0[fi] == body[fi]);
        }
        assert(fi == r0.len());
    }
    assert(r0.take(fi) =~= body);
}

/// Dropping the capture marks of a text that ends with a square's name
/// keeps that name at the end.
proof fn lemma_drop_x_square(q: Seq<char>, square: Seq<char>)
    requires
        forall|i: int| 0 <= i < square.len() ==> square[i] != 'x',
    ensures
        drop_x(q + square) == drop_x(q) + square,
{
    Seq::filter_distributes_over_add(q, square, |c: char| c != 'x');
    lemma_drop_x_plain(square);
}

/// The squares part of a text whose last characters name square `f` on
/// rank `v`: a destination is read there.
#[verifier::rlimit(30)]
proof fn lemma_core_dest(q: Seq<char>, f: char, v: nat)
    requires
        1 <= v <= 12,
        'a' <= f <= 'l',
    ensures
        ({
            let core = drop_x(q + (seq![f] + dec_digits(v)));
            let n = core.len();
            let k = if v >= 10 { 3int } else { 2int };
            &&& dest_ok(core)
            &&& n >= k
            &&& two_digit_dest(core) == (v >= 10)
            &&& core[n - k] == f
            &&& v >= 10 ==> core[n - 1] as int - 48 == v - 10
            &&& v < 10 ==> core[n - 1] as int - 48 == v
        }),
{
    lemma_rank_digits(v);
    let square = seq![f] + dec_digits(v);
    let dq = drop_x(q);
    if v >= 10 {
        let c = ((v - 10 + 48) as char);
        assert(square =~= seq![f, '1', c]);
        lemma_drop_x_square(q, seq![f, '1', c]);
        let core = dq + seq![f, '1', c];
        let n = core.len();
        assert(core[n - 3] == f && core[n - 2] == '1' && core[n - 1] == c);
    } else {
        let c = ((v + 48) as char);
        assert(square =~= seq![f, c]);
        lemma_drop_x_square(q, seq![f, c]);
        let core = dq + seq![f, c];
        let n = core.len();
        assert(core[n - 2] == f && core[n - 1] == c);
    }
}

/// A text that starts with a non-space character and ends with one that is
/// neither a space nor a check mark is its own trim and carries no marker.
proof fn lemma_text_plain(t: Seq<char>)
    requires
        t.len() > 0,
        !is_ws(t[0]),
        !is_ws(t.last()),
        t.last() != '#',
        t.last() != '+',
    ensures
        trim(t) == t,
        marker_of(t) == CheckMarker::NoMarker,
        without_marker(t) == t,
{
    assert(trim_start(t) == t);
    assert(trim_end(t) == t);
}

/// A text whose second character is not `-` is no castling text.
proof fn lemma_not_castling(t: Seq<char>)
    requires
        t.len() >= 2,
        t[1] != '-',
    ensures
        !is_castling_text(t),
{
    reveal_strlit("O-O");
    reveal_strlit("0-0");
    reveal_strlit("O-O-O");
    reveal_strlit("0-0-0");
}

/// Reading a text made of a prefix (a piece letter or source file, and a
/// capture mark as its last character only), a square `f` on rank `v`, and
/// optionally `=` and a letter: the square, the capture and the promotion
/// letter are read back.
#[verifier::rlimit(40)]
proof fn lemma_read_parts(pre: Seq<char>, f: char, v: nat, tail: Seq<char>, cap: bool)
    requires
        1 <= v <= 12,
        'a' <= f <= 'l',
        pre.len() <= 2,
        forall|i: int| 0 <= i < pre.len() ==> pre[i] != '=' && !is_ws(#[trigger] pre[i]),
        forall|i: int| 0 <= i < pre.len() - 1 ==> #[trigger] pre[i] != 'x',
        cap == (pre.len() > 0 && pre.last() == 'x'),
        tail.len() == 0 || (tail.len() == 2 && tail[0] == '=' && !is_ws(tail[1]) && tail[1] != '#'
            && tail[1] != '+'),
        (pre + (seq![f] + dec_digits(v)) + tail)[1] != '-',
    ensures
        hsan_parse(pre + (seq![f] + dec_digits(v)) + tail) matches Some(h) && h.dst_file == f as int - 97
            && h.dst_rank == v - 1 && h.is_capture == cap && h.check_marker == CheckMarker::NoMarker
            && h.promotion == (if tail.len() == 2 {
            Some(tail[1])
        } else {
            None::<char>
        }),
{
    lemma_rank_digits(v);
    let digits = dec_digits(v);
    let square = seq![f] + digits;
    let t = pre + square + tail;
    assert(t[0] == (if pre.len() > 0 { pre[0] } else { f }));
    assert(t.last() == (if tail.len() == 2 { tail[1] } else { digits.last() }));
    lemma_text_plain(t);
    lemma_not_castling(t);
    let q = if is_piece_letter(t[0]) {
        pre.drop_first()
    } else {
        pre
    };
    assert(after_lead(t) =~= (q + square) + tail);
    assert forall|i: int| 0 <= i < (q + square).len() implies (#[trigger] (q + square)[i]) != '=' by {
        if i >= q.len() + 1 {
            assert((q + square)[i] == digits[i - q.len() - 1]);
        }
    }
    lemma_promo_split(q + square, tail);
    assert((q + square).contains('x') == cap) by {
        if cap {
            assert((q + square)[q.len() - 1] == 'x');
        } else {
            assert forall|i: int| 0 <= i < (q + square).len() implies (q + square)[i] != 'x' by {
                if i >= q.len() + 1 {
                    assert((q + square)[i] == digits[i - q.len() - 1]);
                }
            }
        }
    }
    lemma_core_dest(q, f, v);
}

/// Reading the HSAN text of a move other than a castle gives back its
/// destination square, whether it captures, the promotion letter it was
/// written with, and no check marker.
pub proof fn lemma_hsan_reads_back(locs: Seq<Piece>, m: HyperMove)
    requires
        0 <= m.src_index() < locs.len(),
        0 <= m.dst_index() < 144,
        m.flag_bits() != FLAG_KING_CASTLE,
        m.flag_bits() != FLAG_QUEEN_CASTLE,
    ensures
        hsan_parse(hsan_text(locs, m)) matches Some(h) && h.dst_file == m.dst_index() % 12 && h.dst_rank
            == m.dst_index() / 12 && h.is_capture == m.capture_flag() && h.check_marker
            == CheckMarker::NoMarker && h.promotion == (if m.promo_flag() {
            Some(hsan_text(locs, m).last())
        } else {
            None::<char>
        }),
{
    let t = hsan_text(locs, m);
    let d = m.dst_index();
    let piece = locs[m.src_index()];
    let is_pawn = piece == Piece::WhitePawn || piece == Piece::BlackPawn;
    let lead = if piece != Piece::Empty && !is_pawn {
        seq![piece_char(piece)]
    } else {
        Seq::<char>::empty()
    };
    let v = (d / 12 + 1) as nat;
    let f = file_letter(d % 12);
    let pre = if !m.capture_flag() {
        lead
    } else if is_pawn {
        seq![file_letter(m.src_index() % 12), 'x']
    } else {
        lead + seq!['x']
    };
    let tail = if m.promo_flag() {
        seq!['=', pt_char_upper(pt_from_index(m.promo_index() as int))]
    } else {
        Seq::<char>::empty()
    };
    let square = seq![f] + dec_digits(v);
    assert(t =~= pre + square + tail);
    lemma_rank_digits(v);
    assert(t[1] != '-') by {
        if pre.len() == 0 {
            assert(t[1] == dec_digits(v)[0]);
        } else if pre.len() == 1 {
            assert(t[1] == f);
        } else {
            assert(t[1] == pre[1]);
        }
    }
    lemma_read_parts(pre, f, v, tail, m.capture_flag());
    assert(t.last() == tail[1] || !m.promo_flag());
}

/// The disambiguation read from one character.
proof fn lemma_last_one(c: char)
    requires
        ('a' <= c <= 'l') || ('1' <= c <= '9'),
    ensures
        last_file(seq![c]) == (if 'a' <= c <= 'l' {
            Some((c as int - 97) as u8)
        } else {
            None::<u8>
        }),
        last_rank(seq![c]) == (if 'a' <= c <= 'l' {
            None::<u8>
        } else {
            Some((c as int - 49) as u8)
        }),
{
    let d = seq![c];
    assert(d.drop_last() =~= Seq::<char>::empty());
    assert(d.last() == c);
    assert(last_file(Seq::<char>::empty()) is None);
    assert(last_rank(Seq::<char>::empty()) is None);
}

/// A move text made of a piece letter `K`, `Q`, `R`, `B` or `N`, one
/// disambiguation character and a destination square reads as that piece
/// moving to that square from the named file (a letter `a`-`l`) or rank (a
/// digit `1`-`9`).
#[verifier::rlimit(80)]
pub proof fn lemma_hsan_disambiguation(p: char, c: char, f: char, v: nat)
    requires
        p == 'K' || p == 'Q' || p == 'R' || p == 'B' || p == 'N',
        ('a' <= c <= 'l') || ('1' <= c <= '9'),
        'a' <= f <= 'l',
        1 <= v <= 12,
    ensures
        hsan_parse(seq![p, c] + (seq![f] + dec_digits(v))) matches Some(h) && h.piece == Some(p)
            && h.dst_file == f as int - 97 && h.dst_rank == v - 1 && !h.is_capture && h.promotion is None
            && h.src_file == (if 'a' <= c <= 'l' {
            Some((c as int - 97) as u8)
        } else {
            None::<u8>
        }) && h.src_rank == (if 'a' <= c <= 'l' {
            None::<u8>
        } else {
            Some((c as int - 49) as u8)
        }),
{
    lemma_rank_digits(v);
    let digits = dec_digits(v);
    let square = seq![f] + digits;
    let t = seq![p, c] + square;
    assert(t[0] == p && t[1] == c);
    assert(t.last() == digits.last());
    lemma_text_plain(t);
    lemma_not_castling(t);
    assert(is_piece_letter(t[0]));
    assert(after_lead(t) =~= (seq![c] + square) + Seq::<char>::empty());
    assert forall|i: int| 0 <= i < (seq![c] + square).len() implies (#[trigger] (seq![c] + square)[i]) != '=' by {
        if i >= 2 {
            assert((seq![c] + square)[i] == digits[i - 2]);
        }
    }
    lemma_promo_split(seq![c] + square, Seq::<char>::empty());
    assert forall|i: int| 0 <= i < (seq![c] + square).len() implies (seq![c] + square)[i] != 'x' by {
        if i >= 2 {
            assert((seq![c] + square)[i] == digits[i - 2]);
        }
    }
    lemma_core_dest(seq![c], f, v);
    lemma_drop_x_plain(seq![c]);
    lemma_drop_x_square(seq![c], square);
    let core = seq![c] + square;
    let u = without_marker(t);
    let r0 = after_lead(u);
    let r1 = before_promo(r0);
    assert(u == t);
    assert(r1 == seq![c] + square);
    assert(!r1.contains('x'));
    assert(drop_x(r1) == core);
    assert(lead_piece(u) == Some(p));
    assert(promo_of(r0) is None);
    let k: int = if v >= 10 { 3 } else { 2 };
    assert(dest_len(core) == k);
    let d = core.take(core.len() - k);
    assert(d =~= seq![c]);
    lemma_last_one(c);
}

} // verus!
