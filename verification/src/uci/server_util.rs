//! Utilities for parsing UCI position and go commands.

use vstd::prelude::*;

use super::server::{default_go_args, GoArgs};
use crate::board::hfen::{digit_run, lemma_digit_run_at, split_on};
use crate::board::hfen_laws::{lemma_dec_digits, lemma_digit_run_prefix, lemma_split_on_concat, lemma_split_on_single};
use crate::core_types::file_rank::file_letter;
use crate::core_types::piece_move::move_text;
use crate::core_types::sq::{sq_file, sq_notation, sq_rank};
use crate::helper::boards::lemma_sq_coords;
use crate::text::dec_digits;
use crate::board::movegen::movable;
use crate::board::{hfen_board, hfen_start_ok, Board};
use crate::core_types::masks::START_HFEN;
use crate::core_types::piece_move::HyperMove;
use crate::core_types::piece_type::{
    ascii_lower, is_real_type, pt_char_lower, pt_from_char, pt_from_index, to_ascii_lowercase, PieceType,
};
use crate::core_types::sq::SQ;
use crate::game_replay::{board_has_room, has_room, lemma_filter_keeps, play};
use crate::text::{chars_eq_str, chars_of, is_ascii_digit, is_digit, parse_uint, parse_unsigned, string_from, sub_chars};

verus! {

/// The value of the token after index `i` read as a `u32`, or `default`.
pub open spec fn arg_or(toks: Seq<Seq<char>>, i: int, default: u32) -> u32 {
    if i + 1 < toks.len() {
        match parse_unsigned(toks[i + 1], u32::MAX as int) {
            Some(v) => v as u32,
            None => default,
        }
    } else {
        default
    }
}

/// The value of the token after index `i` read as a `u64`, or `default`.
pub open spec fn arg_or_u64(toks: Seq<Seq<char>>, i: int, default: u64) -> u64 {
    if i + 1 < toks.len() {
        match parse_unsigned(toks[i + 1], u64::MAX as int) {
            Some(v) => v as u64,
            None => default,
        }
    } else {
        default
    }
}

/// The `go` arguments read from token `i` on, starting from `a`: `depth N`
/// (default 5), `movetime N` (default 1000), `infinite`, `perft N` (default
/// 1); other tokens are skipped.
pub open spec fn go_from(toks: Seq<Seq<char>>, i: int, a: GoArgs) -> GoArgs
    decreases toks.len() + 2 - i,
{
    if i < 0 || i >= toks.len() {
        a
    } else if toks[i] == "depth"@ {
        go_from(toks, i + 2, GoArgs { depth: arg_or(toks, i, 5), ..a })
    } else if toks[i] == "movetime"@ {
        go_from(toks, i + 2, GoArgs { movetime_ms: arg_or_u64(toks, i, 1000), ..a })
    } else if toks[i] == "infinite"@ {
        go_from(toks, i + 1, GoArgs { infinite: true, ..a })
    } else if toks[i] == "perft"@ {
        go_from(toks, i + 2, GoArgs { perft_depth: Some(arg_or(toks, i, 1)), ..a })
    } else {
        go_from(toks, i + 1, a)
    }
}

/// The value after index `i` as a `u32`, or `default`.
fn u32_arg(tokens: &[&str], i: usize, default: u32) -> (r: u32)
    ensures
        r == arg_or(tokens@.map_values(|s: &str| s@), i as int, default),
{
    if i < tokens.len() && tokens.len() - i > 1 {
        let v = crate::text::chars_of(tokens[i + 1]);
        match parse_uint(&v, 4294967295) {
            Some(x) => x as u32,
            None => default,
        }
    } else {
        default
    }
}

/// The value after index `i` as a `u64`, or `default`.
fn u64_arg(tokens: &[&str], i: usize, default: u64) -> (r: u64)
    ensures
        r == arg_or_u64(tokens@.map_values(|s: &str| s@), i as int, default),
{
    if i < tokens.len() && tokens.len() - i > 1 {
        let v = crate::text::chars_of(tokens[i + 1]);
        match parse_uint(&v, 18446744073709551615) {
            Some(x) => x,
            None => default,
        }
    } else {
        default
    }
}

/// Parse `go depth N | movetime N | infinite | perft N` tokens.
pub fn parse_go(tokens: &[&str]) -> (r: GoArgs)
    ensures
        r == go_from(tokens@.map_values(|s: &str| s@), 0, default_go_args()),
{
    let ghost toks = tokens@.map_values(|s: &str| s@);
    let mut args = GoArgs::default();
    let mut i: usize = 0;
    while i < tokens.len()
        invariant
            toks == tokens@.map_values(|s: &str| s@),
            i <= tokens@.len(),
            go_from(toks, i as int, args) == go_from(toks, 0, default_go_args()),
        decreases tokens@.len() - i,
    {
        let t = crate::text::chars_of(tokens[i]);
        assert(t@ == toks[i as int]);
        let ghost a0 = args;
        let ghost i0 = i as int;
        if chars_eq_str(&t, "depth") {
            args.depth = u32_arg(tokens, i, 5);
            i = if tokens.len() - i >= 2 { i + 2 } else { tokens.len() };
            assert(go_from(toks, i0, a0) == go_from(toks, i0 + 2, args));
            assert(go_from(toks, i0 + 2, args) == go_from(toks, i as int, args));
        } else if chars_eq_str(&t, "movetime") {
            args.movetime_ms = u64_arg(tokens, i, 1000);
            i = if tokens.len() - i >= 2 { i + 2 } else { tokens.len() };
            assert(go_from(toks, i0, a0) == go_from(toks, i0 + 2, args));
            assert(go_from(toks, i0 + 2, args) == go_from(toks, i as int, args));
        } else if chars_eq_str(&t, "infinite") {
            args.infinite = true;
            i += 1;
            assert(go_from(toks, i0, a0) == go_from(toks, i as int, args));
        } else if chars_eq_str(&t, "perft") {
            args.perft_depth = Some(u32_arg(tokens, i, 1));
            i = if tokens.len() - i >= 2 { i + 2 } else { tokens.len() };
            assert(go_from(toks, i0, a0) == go_from(toks, i0 + 2, args));
            assert(go_from(toks, i0 + 2, args) == go_from(toks, i as int, args));
        } else {
            i += 1;
            assert(go_from(toks, i0, a0) == go_from(toks, i as int, args));
        }
    }
    args
}


/// The number of bytes of `c` in UTF-8.
pub open spec fn utf8_width(c: char) -> int {
    if (c as u32) < 0x80 {
        1
    } else if (c as u32) < 0x800 {
        2
    } else if (c as u32) < 0x10000 {
        3
    } else {
        4
    }
}

/// The number of bytes of `s` in UTF-8.
pub open spec fn utf8_len(s: Seq<char>) -> int
    decreases s.len(),
{
    if s.len() == 0 {
        0
    } else {
        utf8_len(s.drop_last()) + utf8_width(s.last())
    }
}

/// The square named at the start of `s` (a file letter, either case, then
/// rank digits for 1-12) with the text after it, or `None`. The file is the
/// low byte of the lowercased first character.
pub open spec fn square_of(s: Seq<char>) -> Option<(int, Seq<char>)> {
    if s.len() == 0 {
        None
    } else {
        let b = (ascii_lower(s[0]) as u32) % 256;
        if b < 97 || b - 97 >= 12 {
            None
        } else {
            let rest = s.drop_first();
            let n = digit_run(rest);
            if n == 0 {
                None
            } else {
                match parse_unsigned(rest.take(n as int), 255) {
                    None => None,
                    Some(v) => if v == 0 || v > 12 {
                        None
                    } else {
                        Some(((v - 1) * 12 + (b - 97), rest.skip(n as int)))
                    },
                }
            }
        }
    }
}

/// Texts whose square has no defined reading: a non-ASCII first character
/// whose low byte is a file letter (the text is then cut inside that
/// character).
pub open spec fn square_undefined(s: Seq<char>) -> bool {
    s.len() > 0 && (s[0] as u32) >= 0x80 && 97 <= (s[0] as u32) % 256 < 109
}

/// The UCI part of a move text: what follows the colon of a one-byte
/// identity prefix (`M:a3a4`), else the whole text.
pub open spec fn uci_body(mv: Seq<char>) -> Seq<char> {
    if mv.contains(':') {
        let parts = split_on(mv, ':');
        if parts.len() == 2 && utf8_len(parts[0]) == 1 {
            parts[1]
        } else {
            mv
        }
    } else {
        mv
    }
}

/// The source, destination and promotion type a UCI move text names.
pub open spec fn uci_parse(mv: Seq<char>) -> Option<(int, int, Option<PieceType>)> {
    let u = uci_body(mv);
    if utf8_len(u) < 4 {
        None
    } else {
        match square_of(u) {
            None => None,
            Some(a) => match square_of(a.1) {
                None => None,
                Some(b) => Some(
                    (
                        a.0,
                        b.0,
                        if b.1.len() > 0 {
                            pt_from_char(b.1[0])
                        } else {
                            None
                        },
                    ),
                ),
            },
        }
    }
}

/// Move texts with no defined reading (see [`square_undefined`]).
pub open spec fn uci_undefined(mv: Seq<char>) -> bool {
    let u = uci_body(mv);
    &&& utf8_len(u) >= 4
    &&& {
        ||| square_undefined(u)
        ||| square_of(u) matches Some(a) && square_undefined(a.1)
    }
}

/// `m` goes from `src` to `dst` and promotes as `promo` says.
pub open spec fn uci_fits(m: HyperMove, src: int, dst: int, promo: Option<PieceType>) -> bool {
    &&& m.src_index() == src
    &&& m.dst_index() == dst
    &&& match promo {
        Some(pt) => m.promo_flag() && pt_from_index(m.promo_index() as int) == pt,
        None => !m.promo_flag(),
    }
}

/// The first move of `legal` that fits the parsed UCI text.
pub open spec fn uci_pick(legal: Seq<HyperMove>, p: Option<(int, int, Option<PieceType>)>) -> Option<HyperMove> {
    match p {
        None => None,
        Some(t) => {
            let f = legal.filter(|m: HyperMove| uci_fits(m, t.0, t.1, t.2));
            if f.len() > 0 {
                Some(f[0])
            } else {
                None
            }
        },
    }
}

/// A longer text is at least as many bytes.
proof fn lemma_utf8_len_take(s: Seq<char>, i: int, j: int)
    requires
        0 <= i <= j <= s.len(),
    ensures
        utf8_len(s.take(i)) <= utf8_len(s.take(j)),
        utf8_len(s.take(j)) >= j,
    decreases j,
{
    if j > 0 {
        assert(s.take(j).drop_last() =~= s.take(j - 1));
        if i < j {
            lemma_utf8_len_take(s, i, j - 1);
        } else {
            lemma_utf8_len_take(s, j - 1, j - 1);
        }
    }
}

/// Whether `s` is at least four bytes long in UTF-8.
fn at_least_four_bytes(s: &Vec<char>) -> (r: bool)
    ensures
        r == (utf8_len(s@) >= 4),
{
    let mut acc: u32 = 0;
    let mut i: usize = 0;
    while i < s.len() && acc < 4
        invariant
            i <= s.len(),
            acc == utf8_len(s@.take(i as int)),
            acc <= 7,
        decreases s.len() - i,
    {
        let c = s[i];
        let code = c as u32;
        let w: u32 = if code < 0x80 {
            1
        } else if code < 0x800 {
            2
        } else if code < 0x10000 {
            3
        } else {
            4
        };
        assert(s@.take(i + 1).drop_last() =~= s@.take(i as int));
        assert(s@.take(i + 1).last() == c);
        acc = acc + w;
        i += 1;
    }
    proof {
        lemma_utf8_len_take(s@, i as int, s.len() as int);
        assert(s@.take(s.len() as int) =~= s@);
    }
    acc >= 4
}

/// Parse a square name like "a1" or "l12" at the start of `s`; returns the
/// square and the text after it.
pub fn parse_square_chars(s: &Vec<char>) -> (r: Option<(SQ, Vec<char>)>)
    requires
        !square_undefined(s@),
    ensures
        match r {
            Some((sq, rest)) => square_of(s@) == Some((sq.0 as int, rest@)),
            None => square_of(s@) is None,
        },
{
    if s.len() == 0 {
        return None;
    }
    let c = to_ascii_lowercase(s[0]);
    let code = c as u32;
    if code >= 0x80 {
        return None;
    }
    let b = code as u8;
    if b < 97 || b - 97 >= 12 {
        return None;
    }
    let file_idx = b - 97;
    let rest = sub_chars(s, 1, s.len());
    assert(rest@ =~= s@.drop_first());
    let mut n: usize = 0;
    assert(rest@.skip(0) =~= rest@);
    while n < rest.len() && is_ascii_digit(rest[n])
        invariant
            n <= rest.len(),
            digit_run(rest@) == n + digit_run(rest@.skip(n as int)),
        decreases rest.len() - n,
    {
        proof {
            lemma_digit_run_at(rest@, n as int);
        }
        n += 1;
    }
    proof {
        lemma_digit_run_at(rest@, n as int);
        assert(rest@.skip(0) =~= rest@);
    }
    if n == 0 {
        return None;
    }
    let digits = sub_chars(&rest, 0, n);
    assert(digits@ =~= rest@.take(n as int));
    let v = match parse_uint(&digits, 255) {
        Some(v) => v,
        None => {
            return None;
        },
    };
    if v == 0 || v > 12 {
        return None;
    }
    let rank_idx = (v - 1) as u8;
    let sq = SQ::make(file_idx, rank_idx);
    let after = sub_chars(&rest, n, rest.len());
    assert(after@ =~= rest@.skip(n as int));
    Some((sq, after))
}

/// Parse a square string like "a1", "l12" from the start of `s`; returns
/// the square and the remaining text.
pub fn parse_square(s: &str) -> (r: Option<(SQ, String)>)
    requires
        !square_undefined(s@),
    ensures
        match r {
            Some((sq, rest)) => square_of(s@) == Some((sq.0 as int, rest@)),
            None => square_of(s@) is None,
        },
{
    let v = chars_of(s);
    match parse_square_chars(&v) {
        Some((sq, rest)) => Some((sq, string_from(&rest))),
        None => None,
    }
}

/// The UCI part of a move text, without a one-byte identity prefix.
fn uci_body_chars(mv: &Vec<char>) -> (u: Vec<char>)
    ensures
        u@ == uci_body(mv@),
{
    // Strip an HPGN-I identity prefix.
    let mut colon = false;
    let mut i: usize = 0;
    while i < mv.len()
        invariant
            i <= mv.len(),
            colon == mv@.take(i as int).contains(':'),
        decreases mv.len() - i,
    {
        proof {
            let t = mv@.take(i + 1);
            assert(t.drop_last() =~= mv@.take(i as int));
            if t.contains(':') && mv@[i as int] != ':' {
                let j = choose|j: int| 0 <= j < t.len() && t[j] == ':';
                assert(mv@.take(i as int)[j] == ':');
            }
            if mv@.take(i as int).contains(':') {
                let j = choose|j: int| 0 <= j < i && mv@.take(i as int)[j] == ':';
                assert(t[j] == ':');
            }
            if mv@[i as int] == ':' {
                assert(t[i as int] == ':');
            }
        }
        if mv[i] == ':' {
            colon = true;
        }
        i += 1;
    }
    assert(mv@.take(mv.len() as int) =~= mv@);
    let ghost p = split_on(mv@, ':');
    let u: Vec<char> = if colon {
        let parts = crate::board::hfen::split_chars(mv, ':');
        if parts.len() == 2 && parts[0].len() == 1 && (parts[0][0] as u32) < 0x80 {
            proof {
                let p0 = p[0];
                assert(parts@[0]@ == p0);
                assert(p0.drop_last() =~= Seq::<char>::empty());
                assert(p0.last() == p0[0]);
                assert(p0[0] == parts@[0]@[0]);
                assert((p0.last() as u32) < 0x80);
                assert(utf8_width(p0.last()) == 1);
                assert(utf8_len(p0.drop_last()) == 0);
                assert(utf8_len(p0) == 1);
            }
            let r = sub_chars(&parts[1], 0, parts[1].len());
            assert(parts@[1]@ == p[1]);
            assert(r@ =~= p[1]);
            r
        } else {
            proof {
                if p.len() == 2 {
                    let p0 = p[0];
                    assert(parts@[0]@ == p0);
                    if p0.len() == 1 {
                        assert(p0.drop_last() =~= Seq::<char>::empty());
                        assert(p0.last() == p0[0]);
                        assert(p0[0] == parts@[0]@[0]);
                        assert(utf8_len(p0.drop_last()) == 0);
                        assert(utf8_width(p0.last()) >= 2);
                    } else if p0.len() == 0 {
                        assert(utf8_len(p0) == 0);
                    } else {
                        lemma_utf8_len_take(p0, p0.len() as int, p0.len() as int);
                        assert(p0.take(p0.len() as int) =~= p0);
                    }
                    assert(utf8_len(p0) != 1);
                }
            }
            let r = sub_chars(mv, 0, mv.len());
            assert(r@ =~= mv@);
            r
        }
    } else {
        let r = sub_chars(mv, 0, mv.len());
        assert(r@ =~= mv@);
        r
    };
    assert(u@ =~= uci_body(mv@));
    u
}

/// Whether the square text starts inside a multi-byte character (see
/// [`square_undefined`]).
fn square_text_undefined(s: &Vec<char>) -> (r: bool)
    ensures
        r == square_undefined(s@),
{
    if s.len() == 0 {
        return false;
    }
    let code = s[0] as u32;
    let low = code % 256;
    code >= 0x80 && 97 <= low && low < 109
}

/// Whether the move text has no defined reading (see [`uci_undefined`]):
/// such texts are refused before they are parsed.
pub fn uci_text_undefined(mv: &str) -> (r: bool)
    ensures
        r == uci_undefined(mv@),
{
    let v = chars_of(mv);
    let u = uci_body_chars(&v);
    if !at_least_four_bytes(&u) {
        return false;
    }
    if square_text_undefined(&u) {
        return true;
    }
    match parse_square_chars(&u) {
        Some((_, rest)) => square_text_undefined(&rest),
        None => false,
    }
}

/// The source, destination and promotion type a UCI move text names
/// (plain UCI `e11e12q`, or HPGN-I `M:e11e12q`).
pub fn parse_uci_text(mv: &Vec<char>) -> (r: Option<(SQ, SQ, Option<PieceType>)>)
    requires
        !uci_undefined(mv@),
    ensures
        match r {
            Some((a, b, p)) => uci_parse(mv@) == Some((a.0 as int, b.0 as int, p)),
            None => uci_parse(mv@) is None,
        },
{
    let u = uci_body_chars(mv);
    if !at_least_four_bytes(&u) {
        return None;
    }
    let (src, rest) = match parse_square_chars(&u) {
        Some(x) => x,
        None => {
            return None;
        },
    };
    let (dst, promo_str) = match parse_square_chars(&rest) {
        Some(x) => x,
        None => {
            return None;
        },
    };
    let promo = if promo_str.len() > 0 {
        PieceType::from_char(promo_str[0])
    } else {
        None
    };
    Some((src, dst, promo))
}

/// The first move of `legal` from `src` to `dst` that promotes as `promo`
/// says.
pub fn find_uci_move(legal: &Vec<HyperMove>, src: SQ, dst: SQ, promo: Option<PieceType>) -> (r: Option<HyperMove>)
    ensures
        r == uci_pick(legal@, Some((src.0 as int, dst.0 as int, promo))),
{
    let ghost pred = |m: HyperMove| uci_fits(m, src.0 as int, dst.0 as int, promo);
    let mut out: Vec<HyperMove> = Vec::new();
    let mut i: usize = 0;
    while i < legal.len()
        invariant
            i <= legal.len(),
            pred == (|m: HyperMove| uci_fits(m, src.0 as int, dst.0 as int, promo)),
            out@ == legal@.take(i as int).filter(pred),
        decreases legal.len() - i,
    {
        let m = legal[i];
        proof {
            reveal(Seq::filter);
            assert(legal@.take(i + 1).drop_last() =~= legal@.take(i as int));
        }
        let fits = if m.get_src().0 == src.0 && m.get_dest().0 == dst.0 {
            match promo {
                Some(pt) => m.is_promo() && m.promo_piece() == pt,
                None => !m.is_promo(),
            }
        } else {
            false
        };
        if fits {
            out.push(m);
        }
        i += 1;
    }
    assert(legal@.take(legal.len() as int) =~= legal@);
    if out.len() > 0 {
        Some(out[0])
    } else {
        None
    }
}

/// `t` names a move the side to move can make.
pub open spec fn names_move(b: Board, t: Seq<char>) -> bool {
    match uci_parse(t) {
        Some(p) => exists|m: HyperMove| movable(b, m) && #[trigger] uci_fits(m, p.0, p.1, p.2),
        None => false,
    }
}

/// Parse a UCI move string into a legal move of `board`.
///
/// Supports two formats:
/// - Plain UCI: "g2h4", "a1a12", "e11e12q"
/// - HPGN-I (with identity prefix): "R:f3f4", "M:a11a12q", "G:g1h1"
pub fn parse_uci_move(board: &Board, mv_str: &str) -> (r: Option<HyperMove>)
    requires
        board.ready(),
        !uci_undefined(mv_str@),
    ensures
        exists|l: Seq<HyperMove>|
            {
                &&& forall|k: int| 0 <= k < l.len() ==> movable(*board, #[trigger] l[k])
                &&& r == uci_pick(l, uci_parse(mv_str@))
            },
        r matches Some(m) ==> movable(*board, m) && (uci_parse(mv_str@) matches Some(p) && uci_fits(
            m,
            p.0,
            p.1,
            p.2,
        )),
        r is None <==> !names_move(*board, mv_str@),
        forall|m0: HyperMove|
            #[trigger] movable(*board, m0) && move_text(m0) == mv_str@ ==> (r matches Some(m) && move_text(m)
                == mv_str@),
{
    let r = parse_uci_move_in(board, mv_str);
    proof {
        assert forall|m0: HyperMove| #[trigger] movable(*board, m0) && move_text(m0) == mv_str@ implies (r matches Some(
            m,
        ) && move_text(m) == mv_str@) by {
            lemma_uci_text_round_trip(*board, m0);
            let m = r->Some_0;
            assert(uci_fits(m, m0.src_index(), m0.dst_index(), promo_named(m0)));
        }
    }
    r
}

/// Reads a UCI move as [`parse_uci_move`].
fn parse_uci_move_in(board: &Board, mv_str: &str) -> (r: Option<HyperMove>)
    requires
        board.ready(),
        !uci_undefined(mv_str@),
    ensures
        exists|l: Seq<HyperMove>|
            {
                &&& forall|k: int| 0 <= k < l.len() ==> movable(*board, #[trigger] l[k])
                &&& r == uci_pick(l, uci_parse(mv_str@))
            },
        r matches Some(m) ==> movable(*board, m) && (uci_parse(mv_str@) matches Some(p) && uci_fits(
            m,
            p.0,
            p.1,
            p.2,
        )),
        r is None <==> !names_move(*board, mv_str@),
{
    let mv = chars_of(mv_str);
    let parsed = parse_uci_text(&mv);
    let legal = board.generate_moves();
    let moves = legal.to_vec();
    assert(forall|k: int| 0 <= k < moves@.len() ==> movable(*board, #[trigger] moves@[k]));
    match parsed {
        Some((src, dst, promo)) => {
            let r = find_uci_move(&moves, src, dst, promo);
            proof {
                let pred = |m: HyperMove| uci_fits(m, src.0 as int, dst.0 as int, promo);
                let p = |m: HyperMove| movable(*board, m);
                assert forall|k: int| 0 <= k < moves@.len() implies #[trigger] p(moves@[k]) by {
                    assert(movable(*board, moves@[k]));
                }
                lemma_filter_keeps(moves@, pred, p);
                if r is Some {
                    assert(p(moves@.filter(pred)[0]));
                    moves@.lemma_filter_pred(pred, 0);
                    assert(pred(moves@.filter(pred)[0]));
                }
                assert(mv@ == mv_str@);
                assert(r == uci_pick(moves@, uci_parse(mv_str@)));
                if names_move(*board, mv_str@) {
                    let m = choose|m: HyperMove|
                        movable(*board, m) && #[trigger] uci_fits(m, src.0 as int, dst.0 as int, promo);
                    assert(moves@.contains(m));
                    let i = choose|i: int| 0 <= i < moves@.len() && moves@[i] == m;
                    moves@.lemma_filter_contains(pred, i);
                }
            }
            r
        },
        None => {
            assert(uci_pick(moves@, uci_parse(mv_str@)) is None);
            None
        },
    }
}

/// The texts of string slices.
pub open spec fn token_texts(tokens: Seq<&str>) -> Seq<Seq<char>> {
    tokens.map_values(|s: &str| s@)
}

/// The position tokens joined by single spaces.
pub open spec fn join_spaces(ps: Seq<Seq<char>>) -> Seq<char>
    decreases ps.len(),
{
    if ps.len() == 0 {
        Seq::empty()
    } else if ps.len() == 1 {
        ps[0]
    } else {
        join_spaces(ps.drop_last()) + seq![' '] + ps.last()
    }
}

/// Where the HFEN tokens of `fen ...` end: the first `moves` token after
/// `fen`, or the end.
pub open spec fn fen_end(toks: Seq<Seq<char>>) -> int {
    1 + crate::uci::client::first_token(toks.skip(1), "moves"@)
}

/// The HFEN text of a `position fen ...` command.
pub open spec fn fen_text(toks: Seq<Seq<char>>) -> Seq<char> {
    join_spaces(toks.subrange(1, fen_end(toks)))
}

/// Whether the command names an HFEN position.
pub open spec fn names_fen(toks: Seq<Seq<char>>) -> bool {
    toks.len() > 0 && toks[0] == "fen"@
}

/// The index after the position part of the command.
pub open spec fn position_end(toks: Seq<Seq<char>>) -> int {
    if toks.len() > 0 && toks[0] == "startpos"@ {
        1
    } else if names_fen(toks) {
        fen_end(toks)
    } else {
        0
    }
}

/// The move tokens of the command: those after a `moves` token that
/// follows the position part.
pub open spec fn move_tokens(toks: Seq<Seq<char>>) -> Seq<Seq<char>> {
    let i = position_end(toks);
    if i < toks.len() && toks[i] == "moves"@ {
        toks.skip(i + 1)
    } else {
        Seq::empty()
    }
}

/// A board the start position text gives.
pub open spec fn is_start_board(b: Board) -> bool {
    b.ready() && (hfen_start_ok(START_HFEN@) ==> hfen_board(START_HFEN@, b))
}

/// Token `i` is played when it names a move of `bs[i]` and the position has
/// room for it: some such move takes `bs[i]` to `bs[i + 1]`; otherwise it is
/// skipped.
pub open spec fn step_or_skip(bs: Seq<Board>, ts: Seq<Seq<char>>, i: int) -> bool {
    if names_move(bs[i], ts[i]) && has_room(bs[i]) {
        exists|m: HyperMove|
            {
                &&& movable(bs[i], m)
                &&& uci_parse(ts[i]) matches Some(t) && uci_fits(m, t.0, t.1, t.2)
                &&& #[trigger] bs[i].applied(m, bs[i + 1])
            }
    } else {
        bs[i + 1] == bs[i]
    }
}

/// `bs` are the positions after each move token, a token being played when
/// it names a legal move and skipped otherwise.
pub open spec fn moves_played(bs: Seq<Board>, ts: Seq<Seq<char>>) -> bool {
    &&& bs.len() == ts.len() + 1
    &&& forall|i: int| 0 <= i < ts.len() ==> #[trigger] step_or_skip(bs, ts, i)
}

/// Whether a move token of `position` arguments has no defined reading
/// (see [`uci_undefined`]); [`parse_fen_and_moves`] takes only arguments
/// without one.
pub fn has_undefined_move_token(tokens: &[&str]) -> (r: bool)
    ensures
        r == exists|k: int|
            0 <= k < move_tokens(token_texts(tokens@)).len() && #[trigger] uci_undefined(
                move_tokens(token_texts(tokens@))[k],
            ),
{
    proof {
        reveal_strlit("startpos");
        reveal_strlit("fen");
        reveal_strlit("moves");
    }
    let ghost toks = token_texts(tokens@);
    let n = tokens.len();
    let mut idx: usize = 0;
    if n > 0 && chars_eq_str(&chars_of(tokens[0]), "startpos") {
        idx = 1;
    } else if n > 0 && chars_eq_str(&chars_of(tokens[0]), "fen") {
        let mut k: usize = 1;
        while k < n && !chars_eq_str(&chars_of(tokens[k]), "moves")
            invariant
                1 <= k <= n,
                n == tokens@.len(),
                toks == token_texts(tokens@),
                forall|j: int| 1 <= j < k ==> toks[j] != "moves"@,
            decreases n - k,
        {
            k += 1;
        }
        proof {
            let rest = toks.skip(1);
            crate::uci::client::lemma_first_token(rest, "moves"@);
            let f = crate::uci::client::first_token(rest, "moves"@);
            if f + 1 < k {
                assert(rest[f] == toks[f + 1]);
            }
            if k < n {
                assert(rest[k - 1] == toks[k as int]);
            }
            assert(f + 1 == k);
        }
        idx = k;
    }
    assert(idx == position_end(toks));
    let ghost mts = move_tokens(toks);
    if idx < n && chars_eq_str(&chars_of(tokens[idx]), "moves") {
        assert(mts =~= toks.skip(idx + 1));
        let mut j = idx + 1;
        while j < n
            invariant
                idx < j <= n,
                n == tokens@.len(),
                toks == token_texts(tokens@),
                mts == toks.skip(idx + 1),
                mts == move_tokens(token_texts(tokens@)),
                forall|k: int| 0 <= k < j - idx - 1 ==> !#[trigger] uci_undefined(mts[k]),
            decreases n - j,
        {
            assert(mts[j - idx - 1] == toks[j as int]);
            assert(toks[j as int] == tokens@[j as int]@);
            if uci_text_undefined(tokens[j]) {
                assert(uci_undefined(mts[j - idx - 1]));
                return true;
            }
            j += 1;
        }
        assert(mts.len() == n - idx - 1);
        false
    } else {
        assert(mts =~= Seq::<Seq<char>>::empty());
        false
    }
}

/// Parse `position [startpos | fen <fen>] [moves m1 m2 …]` and return the
/// resulting Board; moves that are not legal are skipped.
pub fn parse_fen_and_moves(tokens: &[&str]) -> (r: Option<Board>)
    requires
        forall|k: int| 0 <= k < move_tokens(token_texts(tokens@)).len() ==> !uci_undefined(
            #[trigger] move_tokens(token_texts(tokens@))[k],
        ),
    ensures
        ({
            let toks = token_texts(tokens@);
            &&& r is None <==> names_fen(toks) && !hfen_start_ok(fen_text(toks))
            &&& r matches Some(b) ==> exists|bs: Seq<Board>|
                {
                    &&& moves_played(bs, move_tokens(toks))
                    &&& bs.last() == b
                    &&& if names_fen(toks) {
                        hfen_board(fen_text(toks), bs[0])
                    } else {
                        is_start_board(bs[0])
                    }
                }
        }),
{
    proof {
        reveal_strlit("startpos");
        reveal_strlit("fen");
        reveal_strlit("moves");
    }
    let ghost toks = token_texts(tokens@);
    let n = tokens.len();
    let first: Vec<char> = if n > 0 {
        chars_of(tokens[0])
    } else {
        Vec::new()
    };
    assert(n > 0 ==> first@ == toks[0]);
    let mut idx: usize = 0;
    let mut board = if n > 0 && chars_eq_str(&first, "startpos") {
        idx = 1;
        Board::start_pos()
    } else if n > 0 && chars_eq_str(&first, "fen") {
        // The HFEN tokens run up to "moves" or the end.
        let mut fen: Vec<char> = Vec::new();
        let mut k: usize = 1;
        assert(toks.subrange(1, 1) =~= Seq::<Seq<char>>::empty());
        while k < n && !chars_eq_str(&chars_of(tokens[k]), "moves")
            invariant
                1 <= k <= n,
                n == tokens@.len(),
                toks == token_texts(tokens@),
                forall|j: int| 1 <= j < k ==> toks[j] != "moves"@,
                fen@ == join_spaces(toks.subrange(1, k as int)),
            decreases n - k,
        {
            let t = chars_of(tokens[k]);
            let ghost before = toks.subrange(1, k as int);
            let ghost after = toks.subrange(1, k + 1);
            assert(after.drop_last() =~= before);
            assert(after.last() == t@);
            if k > 1 {
                fen.push(' ');
            }
            crate::text::extend_chars(&mut fen, &t);
            proof {
                if k == 1 {
                    assert(before.len() == 0);
                    assert(fen@ =~= after[0]);
                }
            }
            k += 1;
        }
        proof {
            let rest = toks.skip(1);
            crate::uci::client::lemma_first_token(rest, "moves"@);
            let f = crate::uci::client::first_token(rest, "moves"@);
            if f + 1 < k {
                assert(rest[f] == toks[f + 1]);
            }
            if k < n {
                assert(rest[k - 1] == toks[k as int]);
            }
            assert(f + 1 == k);
        }
        idx = k;
        let fs = string_from(&fen);
        assert(fs@ == fen_text(toks));
        match Board::from_hfen(fs.as_str()) {
            Ok(b) => {
                assert(hfen_board(fen_text(toks), b));
                b
            },
            Err(_) => {
                return None;
            },
        }
    } else {
        Board::start_pos()
    };
    assert(idx == position_end(toks));
    let ghost start_board = board;
    let ghost mut bs: Seq<Board> = seq![board];
    let ghost mts = move_tokens(toks);
    if idx < n && chars_eq_str(&chars_of(tokens[idx]), "moves") {
        let mut j = idx + 1;
        assert(mts =~= toks.skip(idx + 1));
        while j < n
            invariant
                idx < j <= n,
                n == tokens@.len(),
                toks == token_texts(tokens@),
                mts == toks.skip(idx + 1),
                forall|k: int| 0 <= k < mts.len() ==> !uci_undefined(#[trigger] mts[k]),
                board.ready(),
                bs[0] == start_board,
                bs.last() == board,
                moves_played(bs, mts.take(j - idx - 1)),
            decreases n - j,
        {
            let ghost before = board;
            assert(mts[j - idx - 1] == toks[j as int]);
            let found = parse_uci_move(&board, tokens[j]);
            let mut played = false;
            match found {
                Some(m) => {
                    if board_has_room(&board) {
                        play(&mut board, m);
                        played = true;
                    }
                },
                None => {},
            }
            proof {
                let t1 = mts.take(j - idx);
                let next = bs.push(board);
                assert(t1[j - idx - 1] == toks[j as int]);
                assert forall|i: int| 0 <= i < t1.len() implies #[trigger] step_or_skip(next, t1, i) by {
                    if i < j - idx - 1 {
                        assert(step_or_skip(bs, mts.take(j - idx - 1), i));
                        assert(next[i] == bs[i] && next[i + 1] == bs[i + 1]);
                        assert(t1[i] == mts.take(j - idx - 1)[i]);
                    } else {
                        assert(next[i] == before && next[i + 1] == board);
                        if played {
                            let m = found->0;
                            assert(before.applied(m, board));
                        }
                    }
                }
                bs = next;
            }
            j += 1;
        }
        assert(mts.take(n - idx - 1) =~= mts);
    } else {
        assert(mts =~= Seq::<Seq<char>>::empty());
    }
    proof {
        if names_fen(toks) {
            assert(hfen_board(fen_text(toks), bs[0]));
        } else {
            assert(is_start_board(bs[0]));
        }
        assert(moves_played(bs, mts));
    }
    Some(board)
}

/// A square's name followed by a text that does not start with a digit is
/// read as that square, with the text left over.
proof fn lemma_square_of_notation(i: int, rest: Seq<char>)
    requires
        0 <= i < 144,
        rest.len() == 0 || !is_digit(rest[0]),
    ensures
        square_of(sq_notation(i) + rest) == Some((i, rest)),
{
    lemma_sq_coords(i);
    let f = sq_file(i);
    let r = sq_rank(i);
    let d = dec_digits((r + 1) as nat);
    lemma_dec_digits((r + 1) as nat);
    let t = sq_notation(i) + rest;
    let c = file_letter(f);
    assert(t[0] == c);
    assert(c as u32 == f + 97);
    assert(ascii_lower(c) == c);
    let tail = t.drop_first();
    assert(tail =~= d + rest);
    lemma_digit_run_prefix(d, rest);
    assert(tail.take(d.len() as int) =~= d);
    assert(tail.skip(d.len() as int) =~= rest);
    assert(is_digit(d[0]));
    assert(parse_unsigned(d, 255) == Some(r + 1));
}

/// Reading a promotion letter gives back the kind it names.
proof fn lemma_promo_letter(k: PieceType)
    requires
        is_real_type(k),
    ensures
        pt_from_char(pt_char_lower(k)) == Some(k),
        !is_digit(pt_char_lower(k)),
        pt_char_lower(k) != ':',
{
}

/// The text of a move between two squares reads back as those squares and
/// the promotion kind it names.
pub proof fn lemma_uci_reads_move_text(m: HyperMove)
    requires
        0 <= m.src_index() < 144,
        0 <= m.dst_index() < 144,
        m.promo_flag() ==> is_real_type(pt_from_index(m.promo_index() as int)),
    ensures
        !move_text(m).contains(':'),
        uci_parse(move_text(m)) == Some(
            (
                m.src_index(),
                m.dst_index(),
                if m.promo_flag() {
                    Some(pt_from_index(m.promo_index() as int))
                } else {
                    None
                },
            ),
        ),
{
    let a = sq_notation(m.src_index());
    let b = sq_notation(m.dst_index());
    let p = if m.promo_flag() {
        seq![pt_char_lower(pt_from_index(m.promo_index() as int))]
    } else {
        Seq::<char>::empty()
    };
    if m.promo_flag() {
        lemma_promo_letter(pt_from_index(m.promo_index() as int));
    }
    let t = move_text(m);
    assert(t =~= a + (b + p));
    lemma_sq_coords(m.src_index());
    lemma_sq_coords(m.dst_index());
    lemma_dec_digits((sq_rank(m.src_index()) + 1) as nat);
    lemma_dec_digits((sq_rank(m.dst_index()) + 1) as nat);
    assert forall|k: int| 0 <= k < t.len() implies t[k] != ':' by {
        let da = dec_digits((sq_rank(m.src_index()) + 1) as nat);
        let db = dec_digits((sq_rank(m.dst_index()) + 1) as nat);
        if k == 0 {
        } else if k < a.len() {
            assert(t[k] == da[k - 1]);
            assert(is_digit(da[k - 1]));
        } else if k == a.len() {
        } else if k < a.len() + b.len() {
            assert(t[k] == db[k - a.len() - 1]);
            assert(is_digit(db[k - a.len() - 1]));
        } else {
            assert(t[k] == p[k - a.len() - b.len()]);
        }
    }
    assert(!t.contains(':'));
    assert(uci_body(t) == t);
    lemma_utf8_len_take(t, t.len() as int, t.len() as int);
    assert(t.take(t.len() as int) =~= t);
    assert((b + p)[0] == b[0]);
    lemma_square_of_notation(m.src_index(), b + p);
    lemma_square_of_notation(m.dst_index(), p);
}

/// The promotion kind a move names, if it promotes.
pub open spec fn promo_named(m: HyperMove) -> Option<PieceType> {
    if m.promo_flag() {
        Some(pt_from_index(m.promo_index() as int))
    } else {
        None
    }
}

/// The UCI text of a listed move reads back as that move: the source, the
/// destination and the promotion kind; any move those fit has the same text.
pub proof fn lemma_uci_text_round_trip(b: Board, m: HyperMove)
    requires
        movable(b, m),
    ensures
        uci_parse(move_text(m)) == Some(
            (
                m.src_index(),
                m.dst_index(),
                if m.promo_flag() {
                    Some(pt_from_index(m.promo_index() as int))
                } else {
                    None
                },
            ),
        ),
        names_move(b, move_text(m)),
        forall|m2: HyperMove|
            #[trigger] uci_fits(m2, m.src_index(), m.dst_index(), promo_named(m)) ==> move_text(m2) == move_text(m),
{
    lemma_uci_reads_move_text(m);
    assert(uci_fits(m, m.src_index(), m.dst_index(), promo_named(m)));
    let p = uci_parse(move_text(m)).unwrap();
    assert(uci_fits(m, p.0, p.1, p.2));
}

/// A move text with a one-byte identity prefix (`M:a3a4`) reads as the
/// move text without it.
pub proof fn lemma_uci_identity_prefix(m: HyperMove, id: char)
    requires
        0 <= m.src_index() < 144,
        0 <= m.dst_index() < 144,
        m.promo_flag() ==> is_real_type(pt_from_index(m.promo_index() as int)),
        (id as u32) < 0x80,
        id != ':',
    ensures
        uci_parse(seq![id, ':'] + move_text(m)) == uci_parse(move_text(m)),
{
    lemma_uci_reads_move_text(m);
    let t = move_text(m);
    let mv = seq![id, ':'] + t;
    assert(mv =~= seq![id] + seq![':'] + t);
    assert(mv[1] == ':');
    assert(mv.contains(':'));
    lemma_split_on_concat(seq![id], ':', t);
    lemma_split_on_single(seq![id], ':');
    assert forall|i: int| 0 <= i < t.len() implies t[i] != ':' by {
        if t[i] == ':' {
            assert(t.contains(':'));
        }
    }
    lemma_split_on_single(t, ':');
    assert(split_on(mv, ':') =~= seq![seq![id], t]);
    assert(seq![id].drop_last() =~= Seq::<char>::empty());
    assert(utf8_len(Seq::<char>::empty()) == 0);
    assert(seq![id].last() == id);
    assert(utf8_width(id) == 1);
    assert(utf8_len(seq![id]) == 1);
    assert(uci_body(mv) == t);
    assert(uci_body(t) == t);
}

} // verus!
