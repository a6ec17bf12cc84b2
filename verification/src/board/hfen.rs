//! HyperChess HFEN parser and generator.
//!
//! HFEN format: `<position> <side> <castling> <ep> <halfmove> <fullmove>`
//!
//! Position has 12 ranks separated by `/`, top rank first. Multi-digit
//! empty square counts (e.g., "12" = 12 empty squares).
//!
//! **Promotions (HFEN-I)** are written inline in the position field as an
//! `id:Type` pair on the square itself: `M:Q` means "the square holds the
//! piece with stable identity `M`, currently a white queen". It is emitted
//! only when a square's identity character would not parse back to its
//! current piece — in practice after a promotion.

use vstd::prelude::*;

use crate::core_types::piece::{owner_lossy, piece_char, piece_from_char, Piece};
use crate::board::Board;
use crate::board::castle_rights::castle_text;
use crate::core_types::piece_identity::{
    chars_use_identity, identity_only_char, identity_piece, is_identity_char, is_legacy_piece_char,
    piece_from_identity, NO_PIECE_ID,
};
use crate::core_types::player::Player;
use crate::core_types::sq::{sq_notation, SQ};
use crate::text::{
    chars_eq_str, chars_of, dec_digits, dec_value, extend_chars, digit_value, extend_str, is_ascii_digit, is_digit,
    message_with, parse_uint, parse_unsigned, push_decimal, split_whitespace, split_ws, string_from,
};

verus! {

/// The piece a position character denotes: identity characters first in
/// identity mode, type letters first otherwise.
pub open spec fn hfen_piece(c: char, idm: bool) -> Option<Piece> {
    if idm {
        match identity_piece(c) {
            Some(p) => Some(p),
            None => piece_from_char(c),
        }
    } else {
        match piece_from_char(c) {
            Some(p) => Some(p),
            None => identity_piece(c),
        }
    }
}

/// The length of the leading run of digits of `s`.
pub open spec fn digit_run(s: Seq<char>) -> nat
    decreases s.len(),
{
    if s.len() > 0 && is_digit(s[0]) {
        1 + digit_run(s.drop_first())
    } else {
        0
    }
}

/// Decodes one rank from file `file` on: the occupied cells as (file,
/// piece, identity), or `None` when the rank is malformed or does not come
/// to exactly 12 squares.
pub open spec fn decode_rank(s: Seq<char>, idm: bool, file: int) -> Option<Seq<(int, Piece, char)>>
    decreases s.len(),
{
    if s.len() == 0 {
        if file == 12 {
            Some(Seq::empty())
        } else {
            None
        }
    } else if is_digit(s[0]) {
        let k = digit_run(s);
        if k == 0 {
            None
        } else {
            proof {
                lemma_digit_all(s, k as int);
            }
            decode_rank(s.skip(k as int), idm, file + dec_value(s.take(k as int)))
        }
    } else {
        let c = s[0];
        match hfen_piece(c, idm) {
            None => None,
            Some(p) => if file >= 12 {
                None
            } else if s.len() >= 2 && s[1] == ':' {
                if s.len() < 3 {
                    None
                } else {
                    match piece_from_char(s[2]) {
                        None => None,
                        Some(o) => if owner_lossy(o) != owner_lossy(p) {
                            None
                        } else {
                            match decode_rank(s.skip(3), idm, file + 1) {
                                None => None,
                                Some(rest) => Some(
                                    seq![(file, o, if idm { c } else { piece_char(o) })] + rest,
                                ),
                            }
                        },
                    }
                }
            } else {
                match decode_rank(s.skip(1), idm, file + 1) {
                    None => None,
                    Some(rest) => Some(seq![(file, p, if idm { c } else { piece_char(p) })] + rest),
                }
            },
        }
    }
}

/// The parts of `s` between the separators `d` (what `str::split` yields).
pub open spec fn split_on(s: Seq<char>, d: char) -> Seq<Seq<char>>
    decreases s.len(),
{
    if s.len() == 0 {
        seq![Seq::<char>::empty()]
    } else {
        let prev = split_on(s.drop_last(), d);
        if s.last() == d {
            prev.push(Seq::<char>::empty())
        } else {
            prev.update(prev.len() - 1, prev.last().push(s.last()))
        }
    }
}

/// The cells of a rank placed on rank `rank_idx`.
pub open spec fn cells_on_rank(cells: Seq<(int, Piece, char)>, rank_idx: int) -> Seq<(SQ, Piece, char)> {
    Seq::new(cells.len(), |k: int| (SQ((rank_idx * 12 + cells[k].0) as u8), cells[k].1, cells[k].2))
}

/// The pieces of the first `n` ranks (top rank first), or `None` when one
/// of them is malformed.
pub open spec fn decode_ranks(ranks: Seq<Seq<char>>, idm: bool, n: int) -> Option<Seq<(SQ, Piece, char)>>
    decreases n,
{
    if n <= 0 {
        Some(Seq::empty())
    } else {
        match decode_ranks(ranks, idm, n - 1) {
            None => None,
            Some(prev) => match decode_rank(ranks[n - 1], idm, 0) {
                None => None,
                Some(cells) => Some(prev + cells_on_rank(cells, 11 - (n - 1))),
            },
        }
    }
}

/// The position field uses identities: some character is identity-only.
pub open spec fn uses_identity(pos: Seq<char>) -> bool {
    exists|i: int| 0 <= i < pos.len() && #[trigger] identity_only_char(pos[i])
}

/// The pieces of a position field, or `None` when it is malformed.
pub open spec fn decode_position(pos: Seq<char>) -> Option<Seq<(SQ, Piece, char)>> {
    let ranks = split_on(pos, '/');
    if ranks.len() != 12 {
        None
    } else {
        decode_ranks(ranks, uses_identity(pos), 12)
    }
}

/// The side a turn field names.
pub open spec fn turn_of(t: Seq<char>) -> Option<Player> {
    if t == "w"@ {
        Some(Player::White)
    } else if t == "b"@ {
        Some(Player::Black)
    } else {
        None
    }
}

/// An HFEN string is well formed: at least four fields, a turn of `w` or
/// `b`, and a decodable position field.
pub open spec fn hfen_ok(s: Seq<char>) -> bool {
    let parts = split_ws(s);
    parts.len() >= 4 && turn_of(parts[1]) is Some && decode_position(parts[0]) is Some
}

/// The half-move clock field (0 when absent or not a `u16`).
pub open spec fn hfen_rule50(s: Seq<char>) -> int {
    let parts = split_ws(s);
    if parts.len() > 4 {
        match parse_unsigned(parts[4], 65535) {
            Some(v) => v,
            None => 0,
        }
    } else {
        0
    }
}

/// The full-move field (1 when absent or not a `u16`).
pub open spec fn hfen_fullmove(s: Seq<char>) -> int {
    let parts = split_ws(s);
    if parts.len() > 5 {
        match parse_unsigned(parts[5], 65535) {
            Some(v) => v,
            None => 1,
        }
    } else {
        1
    }
}

/// The square an en passant field names, 144 for none.
pub open spec fn ep_square_of(s: Seq<char>) -> int {
    if s.len() < 2 || !('a' <= s[0] <= 'l') {
        144
    } else {
        match parse_unsigned(s.drop_first(), 255) {
            Some(r) => if 1 <= r <= 12 {
                (r - 1) * 12 + (s[0] as int - 'a' as int)
            } else {
                144
            },
            None => 144,
        }
    }
}

/// Parsed HFEN data.
pub struct HfenData {
    pub pieces: Vec<(SQ, Piece, char)>,
    pub turn: Player,
    pub castling: String,
    pub ep: String,
    pub rule50: u16,
    pub fullmove: u16,
}

/// Facts about the leading run of digits.
pub proof fn lemma_digit_run_at(s: Seq<char>, i: int)
    requires
        0 <= i <= s.len(),
    ensures
        i < s.len() && is_digit(s[i]) ==> digit_run(s.skip(i)) == 1 + digit_run(s.skip(i + 1)),
        !(i < s.len() && is_digit(s[i])) ==> digit_run(s.skip(i)) == 0,
{
    if i < s.len() {
        assert(s.skip(i).drop_first() =~= s.skip(i + 1));
    }
}

/// A rank read from a file past the last one is malformed.
proof fn lemma_decode_past_end(s: Seq<char>, idm: bool, file: int)
    requires
        file > 12,
    ensures
        decode_rank(s, idm, file) is None,
    decreases s.len(),
{
    if s.len() > 0 {
        if is_digit(s[0]) {
            let k = digit_run(s);
            if k > 0 {
                lemma_digit_all(s, k as int);
                lemma_dec_value_nonneg(s.take(k as int));
                lemma_decode_past_end(s.skip(k as int), idm, file + dec_value(s.take(k as int)));
            }
        }
    }
}

/// Digits have a non-negative value.
pub proof fn lemma_dec_value_nonneg(s: Seq<char>)
    ensures
        dec_value(s) >= 0 || !crate::text::all_digits(s),
    decreases s.len(),
{
    if s.len() > 0 {
        lemma_dec_value_nonneg(s.drop_last());
        if crate::text::all_digits(s) {
            assert(crate::text::all_digits(s.drop_last())) by {
                assert forall|i: int| 0 <= i < s.drop_last().len() implies is_digit(#[trigger] s.drop_last()[i]) by {
                    assert(s.drop_last()[i] == s[i]);
                }
            }
            assert(is_digit(s[s.len() - 1]));
        }
    }
}

/// The files decoded from a rank increase and stay on the board.
pub proof fn lemma_decode_files(s: Seq<char>, idm: bool, file: int)
    requires
        decode_rank(s, idm, file) is Some,
    ensures
        forall|k: int| 0 <= k < decode_rank(s, idm, file)->0.len() ==> file <= #[trigger] decode_rank(s, idm, file)->0[k].0 < 12,
        forall|k: int, l: int|
            0 <= k < l < decode_rank(s, idm, file)->0.len() ==> decode_rank(s, idm, file)->0[k].0
                < decode_rank(s, idm, file)->0[l].0,
    decreases s.len(),
{
    if s.len() > 0 {
        if is_digit(s[0]) {
            let k = digit_run(s);
            lemma_digit_all(s, k as int);
            lemma_dec_value_nonneg(s.take(k as int));
            lemma_decode_files(s.skip(k as int), idm, file + dec_value(s.take(k as int)));
        } else {
            let c = s[0];
            let p = hfen_piece(c, idm)->0;
            if s.len() >= 2 && s[1] == ':' {
                lemma_decode_files(s.skip(3), idm, file + 1);
            } else {
                lemma_decode_files(s.skip(1), idm, file + 1);
            }
        }
    }
}

/// The leading run of digits is all digits.
pub proof fn lemma_digit_all(s: Seq<char>, k: int)
    requires
        k == digit_run(s),
    ensures
        k <= s.len(),
        crate::text::all_digits(s.take(k)),
    decreases s.len(),
{
    if s.len() > 0 && is_digit(s[0]) {
        lemma_digit_all(s.drop_first(), k - 1);
        assert forall|i: int| 0 <= i < s.take(k).len() implies is_digit(#[trigger] s.take(k)[i]) by {
            if i > 0 {
                assert(s.take(k)[i] == s.drop_first().take(k - 1)[i - 1]);
            }
        }
    }
}

/// Builds an error message from a text and a number.
fn message(text: &str, n: u64) -> (r: String)
    ensures
        r@ == text@ + dec_digits(n as nat),
{
    let mut v: Vec<char> = Vec::new();
    extend_str(&mut v, text);
    push_decimal(&mut v, n);
    string_from(&v)
}

/// Splits `s` at every `d`.
pub fn split_chars(s: &Vec<char>, d: char) -> (r: Vec<Vec<char>>)
    ensures
        r@.len() == split_on(s@, d).len(),
        forall|k: int| 0 <= k < r@.len() ==> #[trigger] r@[k]@ == split_on(s@, d)[k],
{
    let mut out: Vec<Vec<char>> = Vec::new();
    let mut cur: Vec<char> = Vec::new();
    let mut i: usize = 0;
    assert(s@.take(0) =~= Seq::<char>::empty());
    while i < s.len()
        invariant
            i <= s.len(),
            split_on(s@.take(i as int), d).len() == out@.len() + 1,
            forall|k: int| 0 <= k < out@.len() ==> #[trigger] out@[k]@ == split_on(s@.take(i as int), d)[k],
            cur@ == split_on(s@.take(i as int), d).last(),
        decreases s.len() - i,
    {
        let c = s[i];
        let ghost pre = s@.take(i as int);
        let ghost next = s@.take(i + 1);
        assert(next.drop_last() =~= pre);
        assert(next.last() == c);
        if c == d {
            let t = cur;
            out.push(t);
            cur = Vec::new();
            assert(cur@ =~= Seq::<char>::empty());
        } else {
            cur.push(c);
        }
        i += 1;
    }
    let t = cur;
    out.push(t);
    assert(s@.take(s.len() as int) =~= s@);
    out
}

/// Executable [`hfen_piece`].
fn hfen_piece_of(c: char, idm: bool) -> (r: Option<Piece>)
    ensures
        r == hfen_piece(c, idm),
{
    if idm {
        match piece_from_identity(c) {
            Some(p) => Some(p),
            None => Piece::from_char(c),
        }
    } else {
        match Piece::from_char(c) {
            Some(p) => Some(p),
            None => piece_from_identity(c),
        }
    }
}

/// A decoded cell with its file as an integer.
pub open spec fn cell_of(c: (u8, Piece, char)) -> (int, Piece, char) {
    (c.0 as int, c.1, c.2)
}

/// Decodes one rank string (see [`decode_rank`]).
fn decode_rank_chars(rank: &Vec<char>, idm: bool) -> (r: Option<Vec<(u8, Piece, char)>>)
    ensures
        match r {
            Some(v) => decode_rank(rank@, idm, 0) == Some(v@.map_values(|c: (u8, Piece, char)| cell_of(c))),
            None => decode_rank(rank@, idm, 0) is None,
        },
{
    let ghost target = decode_rank(rank@, idm, 0);
    let mut acc: Vec<(u8, Piece, char)> = Vec::new();
    let mut i: usize = 0;
    let mut file: u8 = 0;
    assert(rank@.skip(0) =~= rank@);
    while i < rank.len()
        invariant
            i <= rank.len(),
            file <= 12,
            target == decode_rank(rank@, idm, 0),
            match decode_rank(rank@.skip(i as int), idm, file as int) {
                None => target is None,
                Some(rest) => target == Some(acc@.map_values(|c: (u8, Piece, char)| cell_of(c)) + rest),
            },
        decreases rank.len() - i,
    {
        let ghost s = rank@.skip(i as int);
        assert(s[0] == rank@[i as int]);
        let c = rank[i];
        if is_ascii_digit(c) {
            let mut j = i;
            let mut v: u64 = 0;
            proof {
                lemma_digit_run_at(rank@, i as int);
                assert(rank@.subrange(i as int, i as int) =~= Seq::<char>::empty());
            }
            while j < rank.len() && is_ascii_digit(rank[j])
                invariant
                    i <= j <= rank.len(),
                    digit_run(rank@.skip(i as int)) == (j - i) + digit_run(rank@.skip(j as int)),
                    crate::text::all_digits(rank@.subrange(i as int, j as int)),
                    v as int == if dec_value(rank@.subrange(i as int, j as int)) <= 100 {
                        dec_value(rank@.subrange(i as int, j as int))
                    } else {
                        101
                    },
                decreases rank.len() - j,
            {
                let d = rank[j];
                proof {
                    lemma_digit_run_at(rank@, j as int);
                    assert(rank@.subrange(i as int, j + 1).drop_last() =~= rank@.subrange(i as int, j as int));
                    lemma_dec_value_nonneg(rank@.subrange(i as int, j as int));
                    assert(crate::text::all_digits(rank@.subrange(i as int, j + 1))) by {
                        assert forall|q: int| 0 <= q < j + 1 - i implies is_digit(#[trigger] rank@.subrange(i as int, j + 1)[q]) by {
                            if q < j - i {
                                assert(rank@.subrange(i as int, j + 1)[q] == rank@.subrange(i as int, j as int)[q]);
                            }
                        }
                    }
                }
                let nv = v * 10 + (d as u64 - '0' as u64);
                v = if nv > 100 { 101 } else { nv };
                j += 1;
            }
            proof {
                lemma_digit_run_at(rank@, j as int);
                let k = digit_run(s);
                assert(k == j - i);
                assert(s.skip(k as int) =~= rank@.skip(j as int));
                assert(s.take(k as int) =~= rank@.subrange(i as int, j as int));
                lemma_dec_value_nonneg(rank@.subrange(i as int, j as int));
            }
            if file as u64 + v > 12 {
                proof {
                    lemma_decode_past_end(
                        rank@.skip(j as int),
                        idm,
                        file + dec_value(rank@.subrange(i as int, j as int)),
                    );
                }
                return None;
            }
            file = file + v as u8;
            i = j;
        } else {
            let p = match hfen_piece_of(c, idm) {
                Some(p) => p,
                None => {
                    return None;
                },
            };
            if file >= 12 {
                return None;
            }
            let ghost acc0 = acc@;
            if i + 1 < rank.len() && rank[i + 1] == ':' {
                assert(s.len() >= 2 && s[1] == rank@[i + 1]);
                if i + 2 >= rank.len() {
                    return None;
                }
                let t = rank[i + 2];
                assert(s[2] == t);
                let o = match Piece::from_char(t) {
                    Some(o) => o,
                    None => {
                        return None;
                    },
                };
                if o.player_lossy() != p.player_lossy() {
                    return None;
                }
                let id = if idm {
                    c
                } else {
                    o.character_lossy()
                };
                acc.push((file, o, id));
                proof {
                    assert(s.skip(3) =~= rank@.skip(i + 3));
                    assert(acc@.map_values(|c: (u8, Piece, char)| cell_of(c)) =~= acc0.map_values(|c: (u8, Piece, char)| cell_of(c)).push((file as int, o, id)));
                    match decode_rank(rank@.skip(i + 3), idm, file + 1) {
                        None => {},
                        Some(rest) => {
                            assert(acc0.map_values(|c: (u8, Piece, char)| cell_of(c)) + (seq![(file as int, o, id)] + rest)
                                =~= acc@.map_values(|c: (u8, Piece, char)| cell_of(c)) + rest);
                        },
                    }
                }
                i += 3;
            } else {
                proof {
                    if s.len() >= 2 {
                        assert(s[1] == rank@[i + 1]);
                    }
                }
                let id = if idm {
                    c
                } else {
                    p.character_lossy()
                };
                acc.push((file, p, id));
                proof {
                    assert(s.skip(1) =~= rank@.skip(i + 1));
                    assert(acc@.map_values(|c: (u8, Piece, char)| cell_of(c)) =~= acc0.map_values(|c: (u8, Piece, char)| cell_of(c)).push((file as int, p, id)));
                    match decode_rank(rank@.skip(i + 1), idm, file + 1) {
                        None => {},
                        Some(rest) => {
                            assert(acc0.map_values(|c: (u8, Piece, char)| cell_of(c)) + (seq![(file as int, p, id)] + rest)
                                =~= acc@.map_values(|c: (u8, Piece, char)| cell_of(c)) + rest);
                        },
                    }
                }
                i += 1;
            }
            file += 1;
        }
    }
    assert(rank@.skip(i as int) =~= Seq::<char>::empty());
    if file != 12 {
        return None;
    }
    assert(acc@.map_values(|c: (u8, Piece, char)| cell_of(c)) + Seq::<(int, Piece, char)>::empty() =~= acc@.map_values(|c: (u8, Piece, char)| cell_of(c)));
    Some(acc)
}

/// Once a rank fails to decode, every longer prefix of ranks fails too.
proof fn lemma_decode_ranks_none(ranks: Seq<Seq<char>>, idm: bool, n: int, m: int)
    requires
        0 <= n <= m,
        decode_ranks(ranks, idm, n) is None,
    ensures
        decode_ranks(ranks, idm, m) is None,
    decreases m - n,
{
    if n < m {
        lemma_decode_ranks_none(ranks, idm, n, m - 1);
    }
}

/// Decodes the twelve ranks of a position field, top rank first.
fn decode_all_ranks(ranks: &Vec<Vec<char>>, idm: bool) -> (r: Option<Vec<(SQ, Piece, char)>>)
    requires
        ranks@.len() == 12,
    ensures
        match r {
            Some(v) => decode_ranks(ranks@.map_values(|x: Vec<char>| x@), idm, 12) == Some(v@),
            None => decode_ranks(ranks@.map_values(|x: Vec<char>| x@), idm, 12) is None,
        },
{
    let ghost rs = ranks@.map_values(|x: Vec<char>| x@);
    let mut pieces: Vec<(SQ, Piece, char)> = Vec::new();
    let mut rft: usize = 0;
    while rft < 12
        invariant
            rft <= 12,
            ranks@.len() == 12,
            rs == ranks@.map_values(|x: Vec<char>| x@),
            decode_ranks(rs, idm, rft as int) == Some(pieces@),
        decreases 12 - rft,
    {
        let cells = match decode_rank_chars(&ranks[rft], idm) {
            Some(c) => c,
            None => {
                assert(rs[rft as int] == ranks@[rft as int]@);
                proof {
                    assert(decode_ranks(rs, idm, rft + 1) is None);
                    lemma_decode_ranks_none(rs, idm, rft + 1, 12);
                }
                return None;
            },
        };
        assert(rs[rft as int] == ranks@[rft as int]@);
        let rank_idx = (11 - rft) as u8;
        let ghost before = pieces@;
        let ghost cv = cells@.map_values(|c: (u8, Piece, char)| cell_of(c));
        proof {
            lemma_decode_files(rs[rft as int], idm, 0);
        }
        let mut k: usize = 0;
        while k < cells.len()
            invariant
                k <= cells@.len(),
                rank_idx == 11 - rft,
                rft < 12,
                cv == cells@.map_values(|c: (u8, Piece, char)| cell_of(c)),
                forall|q: int| 0 <= q < cv.len() ==> 0 <= #[trigger] cv[q].0 < 12,
                pieces@ == before + cells_on_rank(cv, rank_idx as int).take(k as int),
            decreases cells@.len() - k,
        {
            let (f, p, id) = cells[k];
            assert(cv[k as int].0 == f as int);
            let sq = SQ(rank_idx * 12 + f);
            pieces.push((sq, p, id));
            proof {
                assert(cells_on_rank(cv, rank_idx as int).take(k + 1) =~= cells_on_rank(cv, rank_idx as int).take(k as int).push((sq, p, id)));
            }
            k += 1;
        }
        proof {
            assert(cells_on_rank(cv, rank_idx as int).take(cells@.len() as int) =~= cells_on_rank(cv, rank_idx as int));
            assert(decode_ranks(rs, idm, rft + 1) == Some(pieces@));
        }
        rft += 1;
    }
    Some(pieces)
}

/// Parse a HFEN string into board components.
pub fn parse_hfen(hfen: &str) -> (r: Result<HfenData, String>)
    ensures
        match r {
            Ok(d) => {
                let parts = split_ws(hfen@);
                &&& hfen_ok(hfen@)
                &&& decode_position(parts[0]) == Some(d.pieces@)
                &&& turn_of(parts[1]) == Some(d.turn)
                &&& d.castling@ == parts[2]
                &&& d.ep@ == parts[3]
                &&& d.rule50 == hfen_rule50(hfen@)
                &&& d.fullmove == hfen_fullmove(hfen@)
            },
            Err(_) => !hfen_ok(hfen@),
        },
{
    let s = chars_of(hfen);
    let parts = split_whitespace(&s);
    if parts.len() < 4 {
        return Err(message("HFEN needs at least 4 parts, got ", parts.len() as u64));
    }
    assert(parts@[1]@ == split_ws(hfen@)[1]);
    proof {
        reveal_strlit("w");
        reveal_strlit("b");
    }
    let turn = if chars_eq_str(&parts[1], "w") {
        Player::White
    } else if chars_eq_str(&parts[1], "b") {
        Player::Black
    } else {
        return Err(message_with("Invalid turn: ", &parts[1]));
    };
    assert(parts@[2]@ == split_ws(hfen@)[2]);
    assert(parts@[3]@ == split_ws(hfen@)[3]);
    let castling = string_from(&parts[2]);
    let ep = string_from(&parts[3]);
    let rule50: u16 = if parts.len() > 4 {
        assert(parts@[4]@ == split_ws(hfen@)[4]);
        match parse_uint(&parts[4], 65535) {
            Some(v) => v as u16,
            None => 0,
        }
    } else {
        0
    };
    let fullmove: u16 = if parts.len() > 5 {
        assert(parts@[5]@ == split_ws(hfen@)[5]);
        match parse_uint(&parts[5], 65535) {
            Some(v) => v as u16,
            None => 1,
        }
    } else {
        1
    };
    assert(parts@[0]@ == split_ws(hfen@)[0]);
    let ranks = split_chars(&parts[0], '/');
    if ranks.len() != 12 {
        return Err(message("HFEN position needs 12 ranks, got ", ranks.len() as u64));
    }
    let idm = chars_use_identity(&parts[0]);
    assert(ranks@.map_values(|x: Vec<char>| x@) =~= split_on(parts@[0]@, '/'));
    match decode_all_ranks(&ranks, idm) {
        Some(pieces) => Ok(HfenData { pieces, turn, castling, ep, rule50, fullmove }),
        None => Err(message_with("Malformed HFEN position: ", &parts[0])),
    }
}

/// Parse an en passant square string (e.g., "e4", "-"): 144 for none.
pub fn parse_ep_square(s: &str) -> (r: SQ)
    ensures
        r.0 == ep_square_of(s@),
{
    let chars = chars_of(s);
    if chars.len() < 2 {
        return SQ(144);
    }
    let c = chars[0];
    if !('a' <= c && c <= 'l') {
        return SQ(144);
    }
    let file = (c as u32 - 'a' as u32) as u8;
    let rest = crate::text::sub_chars(&chars, 1, chars.len());
    assert(rest@ =~= s@.drop_first());
    match parse_uint(&rest, 255) {
        Some(r) => {
            if 1 <= r && r <= 12 {
                SQ::make(file, (r - 1) as u8)
            } else {
                SQ(144)
            }
        },
        None => SQ(144),
    }
}

/// Decoded squares lie on the board, hold real pieces and are pairwise
/// distinct; those of the first `n` ranks lie on ranks `12 - n` and up.
pub proof fn lemma_decode_ranks_squares(ranks: Seq<Seq<char>>, idm: bool, n: int)
    requires
        0 <= n <= 12,
        decode_ranks(ranks, idm, n) is Some,
    ensures
        forall|k: int|
            0 <= k < decode_ranks(ranks, idm, n)->0.len() ==> 12 * (12 - n) <= (#[trigger] decode_ranks(ranks, idm, n)->0[k]).0.0 < 144
                && decode_ranks(ranks, idm, n)->0[k].1 != Piece::Empty,
        forall|k: int, l: int|
            0 <= k < l < decode_ranks(ranks, idm, n)->0.len() ==> (#[trigger] decode_ranks(ranks, idm, n)->0[k]).0 != (#[trigger] decode_ranks(ranks, idm, n)->0[l]).0,
    decreases n,
{
    if n > 0 {
        lemma_decode_ranks_squares(ranks, idm, n - 1);
        let prev = decode_ranks(ranks, idm, n - 1)->0;
        let cells = decode_rank(ranks[n - 1], idm, 0)->0;
        lemma_decode_files(ranks[n - 1], idm, 0);
        lemma_decode_pieces(ranks[n - 1], idm, 0);
        let v = decode_ranks(ranks, idm, n)->0;
        let on = cells_on_rank(cells, 11 - (n - 1));
        assert(v == prev + on);
        assert forall|k: int| 0 <= k < on.len() implies 12 * (12 - n) <= (#[trigger] on[k]).0.0 < 12 * (13 - n) by {
            assert(0 <= cells[k].0 < 12);
        }
        assert forall|k: int| 0 <= k < v.len() implies 12 * (12 - n) <= (#[trigger] v[k]).0.0 < 144 && v[k].1 != Piece::Empty by {
            if k >= prev.len() {
                assert(v[k] == on[k - prev.len()]);
            } else {
                assert(v[k] == prev[k]);
            }
        }
        assert forall|k: int, l: int| 0 <= k < l < v.len() implies (#[trigger] v[k]).0 != (#[trigger] v[l]).0 by {
            if l < prev.len() {
                assert(v[k] == prev[k] && v[l] == prev[l]);
            } else if k < prev.len() {
                assert(v[k] == prev[k] && v[l] == on[l - prev.len()]);
            } else {
                assert(v[k] == on[k - prev.len()] && v[l] == on[l - prev.len()]);
                assert(cells[k - prev.len()].0 < cells[l - prev.len()].0);
            }
        }
    }
}

/// Decoded cells hold real pieces.
proof fn lemma_decode_pieces(s: Seq<char>, idm: bool, file: int)
    requires
        decode_rank(s, idm, file) is Some,
    ensures
        forall|k: int| 0 <= k < decode_rank(s, idm, file)->0.len() ==> (#[trigger] decode_rank(s, idm, file)->0[k]).1 != Piece::Empty,
    decreases s.len(),
{
    if s.len() > 0 {
        if is_digit(s[0]) {
            let k = digit_run(s);
            lemma_digit_all(s, k as int);
            lemma_decode_pieces(s.skip(k as int), idm, file + dec_value(s.take(k as int)));
        } else if s.len() >= 2 && s[1] == ':' {
            lemma_decode_pieces(s.skip(3), idm, file + 1);
        } else {
            lemma_decode_pieces(s.skip(1), idm, file + 1);
        }
    }
}


/// The character an occupied square is written with: its identity, else
/// its piece letter.
pub open spec fn cell_char(p: Piece, id: char) -> char {
    if id != NO_PIECE_ID {
        id
    } else {
        piece_char(p)
    }
}

/// A board is written in identity mode when some occupied square's
/// character can only be read as an identity.
pub open spec fn board_uses_identity(locs: Seq<Piece>, ids: Seq<char>) -> bool {
    exists|s: int|
        0 <= s < 144 && locs[s] != Piece::Empty && #[trigger] identity_only_char(cell_char(locs[s], ids[s]))
}

/// The token of a square written with character `c` and holding `p`: the
/// character alone when it reads back as `p`, else an `id:Type` pair in
/// identity mode or the piece letter otherwise.
pub open spec fn cell_token(c: char, p: Piece, idm: bool) -> Seq<char> {
    if hfen_piece(c, idm) == Some(p) {
        seq![c]
    } else if idm {
        seq![c, ':', piece_char(p)]
    } else {
        seq![piece_char(p)]
    }
}

/// The count of a run of empty squares, nothing for no run.
pub open spec fn run_text(n: nat) -> Seq<char> {
    if n > 0 {
        dec_digits(n)
    } else {
        Seq::empty()
    }
}

/// The text of files `file..12` of rank `rank`, with a run of `empty`
/// empty squares still to be written.
pub open spec fn rank_text(locs: Seq<Piece>, ids: Seq<char>, idm: bool, rank: int, file: int, empty: nat) -> Seq<char>
    decreases 12 - file,
{
    if file >= 12 {
        run_text(empty)
    } else {
        let s = rank * 12 + file;
        if locs[s] == Piece::Empty {
            rank_text(locs, ids, idm, rank, file + 1, empty + 1)
        } else {
            run_text(empty) + cell_token(cell_char(locs[s], ids[s]), locs[s], idm) + rank_text(
                locs,
                ids,
                idm,
                rank,
                file + 1,
                0,
            )
        }
    }
}

/// The text of the top `n` ranks, top rank first, separated by `/`.
pub open spec fn top_ranks_text(locs: Seq<Piece>, ids: Seq<char>, idm: bool, n: int) -> Seq<char>
    decreases n,
{
    if n <= 0 {
        Seq::empty()
    } else if n == 1 {
        rank_text(locs, ids, idm, 11, 0, 0)
    } else {
        top_ranks_text(locs, ids, idm, n - 1) + seq!['/'] + rank_text(locs, ids, idm, 12 - n, 0, 0)
    }
}

/// The position field of a board.
pub open spec fn position_text(locs: Seq<Piece>, ids: Seq<char>) -> Seq<char> {
    top_ranks_text(locs, ids, board_uses_identity(locs, ids), 12)
}

/// The turn field's letter.
pub open spec fn turn_char(p: Player) -> char {
    match p {
        Player::White => 'w',
        Player::Black => 'b',
    }
}

/// The en passant field: the square's name, `-` for none.
pub open spec fn ep_text(ep: int) -> Seq<char> {
    if 0 <= ep < 144 {
        sq_notation(ep)
    } else {
        seq!['-']
    }
}

/// The HFEN text of a position.
pub open spec fn hfen_text(
    locs: Seq<Piece>,
    ids: Seq<char>,
    turn: Player,
    castling: u8,
    ep: int,
    rule50: nat,
    fullmove: nat,
) -> Seq<char> {
    position_text(locs, ids) + seq![' ', turn_char(turn), ' '] + castle_text(castling) + seq![' ']
        + ep_text(ep) + seq![' '] + dec_digits(rule50) + seq![' '] + dec_digits(fullmove)
}

/// The HFEN text of a board.
pub open spec fn board_hfen(b: Board) -> Seq<char> {
    hfen_text(
        b.locs(),
        b.ids(),
        b.side(),
        b.st().castling.0,
        b.st().ep_square.0 as int,
        b.st().rule50 as nat,
        b.st().fullmove as nat,
    )
}

/// Whether the board's position field is written in identity mode.
fn board_identity_mode(board: &Board) -> (r: bool)
    requires
        board.wf(),
    ensures
        r == board_uses_identity(board.locs(), board.ids()),
{
    let mut s: u8 = 0;
    while s < 144
        invariant
            s <= 144,
            board.wf(),
            forall|t: int|
                0 <= t < s ==> !(board.locs()[t] != Piece::Empty && #[trigger] identity_only_char(
                    cell_char(board.locs()[t], board.ids()[t]),
                )),
        decreases 144 - s,
    {
        let sq = SQ(s);
        let p = board.piece_at(sq);
        if p != Piece::Empty {
            let c = match board.piece_hfen_char_at(sq) {
                Some(c) => c,
                None => p.character_lossy(),
            };
            assert(c == cell_char(p, board.ids()[s as int]));
            if is_identity_char(c) && !is_legacy_piece_char(c) {
                assert(identity_only_char(cell_char(board.locs()[s as int], board.ids()[s as int])));
                return true;
            }
        }
        s += 1;
    }
    false
}

/// Appends the token of a square written with `c` and holding `p`.
fn push_token(out: &mut Vec<char>, c: char, p: Piece, idm: bool)
    requires
        p != Piece::Empty,
    ensures
        final(out)@ == old(out)@ + cell_token(c, p, idm),
{
    let parsed = hfen_piece_of(c, idm);
    if parsed == Some(p) {
        out.push(c);
    } else if idm {
        out.push(c);
        out.push(':');
        out.push(p.character_lossy());
    } else {
        out.push(p.character_lossy());
    }
    assert(out@ =~= old(out)@ + cell_token(c, p, idm));
}

/// Appends the text of one rank.
fn push_rank(out: &mut Vec<char>, board: &Board, idm: bool, rank: u8)
    requires
        board.wf(),
        rank < 12,
    ensures
        final(out)@ == old(out)@ + rank_text(board.locs(), board.ids(), idm, rank as int, 0, 0),
{
    let ghost start = out@;
    let ghost locs = board.locs();
    let ghost ids = board.ids();
    let mut file: u8 = 0;
    let mut empty: u64 = 0;
    while file < 12
        invariant
            file <= 12,
            empty <= file,
            rank < 12,
            board.wf(),
            locs == board.locs(),
            ids == board.ids(),
            out@ + rank_text(locs, ids, idm, rank as int, file as int, empty as nat) == start
                + rank_text(locs, ids, idm, rank as int, 0, 0),
        decreases 12 - file,
    {
        let sq = SQ(rank * 12 + file);
        let p = board.piece_at(sq);
        let ghost before = out@;
        if p == Piece::Empty {
            empty += 1;
        } else {
            if empty > 0 {
                push_decimal(out, empty);
            }
            let c = match board.piece_hfen_char_at(sq) {
                Some(c) => c,
                None => p.character_lossy(),
            };
            assert(c == cell_char(p, ids[sq.0 as int]));
            push_token(out, c, p, idm);
            proof {
                let rest = rank_text(locs, ids, idm, rank as int, file + 1, 0);
                assert(out@ + rest =~= before + (run_text(empty as nat) + cell_token(c, p, idm) + rest));
            }
            empty = 0;
        }
        file += 1;
    }
    if empty > 0 {
        push_decimal(out, empty);
    }
    proof {
        assert(rank_text(locs, ids, idm, rank as int, 12, empty as nat) == run_text(empty as nat));
        if empty == 0 {
            assert(out@ + run_text(0) =~= out@);
        }
    }
}

/// Appends the position field.
fn push_position(out: &mut Vec<char>, board: &Board, idm: bool)
    requires
        board.wf(),
    ensures
        final(out)@ == old(out)@ + top_ranks_text(board.locs(), board.ids(), idm, 12),
{
    let ghost start = out@;
    let mut n: u8 = 0;
    while n < 12
        invariant
            n <= 12,
            board.wf(),
            out@ == start + top_ranks_text(board.locs(), board.ids(), idm, n as int),
        decreases 12 - n,
    {
        let ghost before = out@;
        if n > 0 {
            out.push('/');
        }
        push_rank(out, board, idm, 11 - n);
        proof {
            let t = top_ranks_text(board.locs(), board.ids(), idm, n as int);
            let r = rank_text(board.locs(), board.ids(), idm, 11 - n, 0, 0);
            if n == 0 {
                assert(out@ =~= start + r);
            } else {
                assert(out@ =~= start + (t + seq!['/'] + r));
            }
        }
        n += 1;
    }
}

/// Generate a HFEN string from a Board.
///
/// Every square's current piece is written so that it reads back as that
/// piece: a square whose identity would read back as another piece (after
/// a promotion) is written as an `id:Type` pair in identity mode, or as its
/// piece letter otherwise.
pub fn to_hfen(board: &Board) -> (r: String)
    requires
        board.wf(),
    ensures
        r@ == board_hfen(*board),
{
    let idm = board_identity_mode(board);
    let mut out: Vec<char> = Vec::new();
    push_position(&mut out, board, idm);
    out.push(' ');
    let t = match board.turn() {
        Player::White => 'w',
        Player::Black => 'b',
    };
    out.push(t);
    out.push(' ');
    let c = board.state.castling.text();
    extend_chars(&mut out, &c);
    out.push(' ');
    let ep = board.state.ep_square;
    if ep.is_okay() {
        ep.push_notation(&mut out);
    } else {
        out.push('-');
    }
    out.push(' ');
    push_decimal(&mut out, board.state.rule50 as u64);
    out.push(' ');
    push_decimal(&mut out, board.state.fullmove as u64);
    assert(out@ =~= hfen_text(
        board.locs(),
        board.ids(),
        board.side(),
        board.st().castling.0,
        board.st().ep_square.0 as int,
        board.st().rule50 as nat,
        board.st().fullmove as nat,
    ));
    string_from(&out)
}

} // verus!
