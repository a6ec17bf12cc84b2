//! What an HFEN text written from a board reads back as.

use vstd::prelude::*;

use super::castle_rights::{castle_bits_of, castle_text};
use super::hfen::{
    board_hfen, board_uses_identity, cell_char, cell_token, cells_on_rank, decode_position,
    decode_rank, decode_ranks, digit_run, ep_square_of, ep_text, hfen_fullmove, hfen_ok, hfen_piece,
    hfen_rule50, hfen_text, position_text, rank_text, run_text, split_on, top_ranks_text, turn_char,
    turn_of, uses_identity,
};
use super::{hfen_board, hfen_start_ok, id_layout, king_layout, layout, Board};
use crate::core_types::piece::{owner_lossy, owner_of, piece_char, piece_from_char, piece_of, type_of_piece, Piece};
use crate::core_types::piece_identity::{identity_char, identity_only_char, identity_piece, NO_PIECE_ID};
use crate::core_types::piece_type::PieceType;
use crate::core_types::player::{player_index, Player};
use crate::core_types::sq::{sq_notation, SQ};
use crate::text::{
    all_digits, dec_digits, dec_value, digit_char, digit_value, is_digit, is_ws, parse_unsigned, split_ws,
};

verus! {

// ── Splitting ───────────────────────────────────────────────────────────────

/// A text without separators is one part.
pub proof fn lemma_split_on_single(t: Seq<char>, d: char)
    requires
        forall|i: int| 0 <= i < t.len() ==> t[i] != d,
    ensures
        split_on(t, d) == seq![t],
    decreases t.len(),
{
    if t.len() > 0 {
        let u = t.drop_last();
        assert forall|i: int| 0 <= i < u.len() implies u[i] != d by {
            assert(u[i] == t[i]);
        }
        lemma_split_on_single(u, d);
        assert(u.push(t.last()) =~= t);
        assert(seq![u].update(0, u.push(t.last())) =~= seq![t]);
    } else {
        assert(t =~= Seq::<char>::empty());
    }
}

/// Splitting at a separator splits the two sides apart.
pub proof fn lemma_split_on_concat(x: Seq<char>, d: char, y: Seq<char>)
    ensures
        split_on(x + seq![d] + y, d) == split_on(x, d) + split_on(y, d),
    decreases y.len(),
{
    let xd = x + seq![d];
    if y.len() == 0 {
        assert(xd + y =~= xd);
        assert(xd.drop_last() =~= x);
        assert(split_on(y, d) == seq![Seq::<char>::empty()]);
        assert(split_on(xd, d) == split_on(x, d).push(Seq::<char>::empty()));
        assert(split_on(x, d).push(Seq::<char>::empty()) =~= split_on(x, d) + seq![Seq::<char>::empty()]);
    } else {
        let u = y.drop_last();
        let c = y.last();
        lemma_split_on_concat(x, d, u);
        lemma_split_on_len(u, d);
        assert((xd + y).drop_last() =~= xd + u);
        assert((xd + y).last() == c);
        let prev = split_on(xd + u, d);
        let a = split_on(x, d);
        let b = split_on(u, d);
        assert(prev == a + b);
        if c == d {
            assert(split_on(y, d) == b.push(Seq::<char>::empty()));
            assert((a + b).push(Seq::<char>::empty()) =~= a + b.push(Seq::<char>::empty()));
        } else {
            assert(split_on(y, d) == b.update(b.len() - 1, b.last().push(c)));
            assert((a + b).last() == b.last());
            assert((a + b).update((a + b).len() - 1, (a + b).last().push(c)) =~= a + b.update(
                b.len() - 1,
                b.last().push(c),
            ));
        }
    }
}

/// Splitting always gives at least one part.
pub proof fn lemma_split_on_len(s: Seq<char>, d: char)
    ensures
        split_on(s, d).len() >= 1,
    decreases s.len(),
{
    if s.len() > 0 {
        lemma_split_on_len(s.drop_last(), d);
    }
}

/// A non-empty text without whitespace is one token.
pub proof fn lemma_split_ws_single(t: Seq<char>)
    requires
        t.len() > 0,
        forall|i: int| 0 <= i < t.len() ==> !is_ws(t[i]),
    ensures
        split_ws(t) == seq![t],
    decreases t.len(),
{
    let u = t.drop_last();
    if u.len() == 0 {
        assert(split_ws(u) == Seq::<Seq<char>>::empty());
        assert(t =~= seq![t.last()]);
    } else {
        assert forall|i: int| 0 <= i < u.len() implies !is_ws(u[i]) by {
            assert(u[i] == t[i]);
        }
        lemma_split_ws_single(u);
        assert(t[t.len() - 2] == u.last());
        assert(u.push(t.last()) =~= t);
    }
}

/// A space between two texts separates their tokens.
pub proof fn lemma_split_ws_concat(x: Seq<char>, y: Seq<char>)
    ensures
        split_ws(x + seq![' '] + y) == split_ws(x) + split_ws(y),
    decreases y.len(),
{
    let xs = x + seq![' '];
    if y.len() == 0 {
        assert(xs + y =~= xs);
        assert(xs.drop_last() =~= x);
        assert(split_ws(x) + split_ws(y) =~= split_ws(x));
    } else {
        let u = y.drop_last();
        let c = y.last();
        lemma_split_ws_concat(x, u);
        assert((xs + y).drop_last() =~= xs + u);
        assert((xs + y).last() == c);
        let a = split_ws(x);
        let b = split_ws(u);
        if is_ws(c) {
        } else if u.len() > 0 && !is_ws(u.last()) {
            crate::text::lemma_split_ws_len(u);
            assert((xs + y)[(xs + y).len() - 2] == u.last());
            assert(y[y.len() - 2] == u.last());
            assert((a + b).last() == b.last());
            assert((a + b).update((a + b).len() - 1, (a + b).last().push(c)) =~= a + b.update(
                b.len() - 1,
                b.last().push(c),
            ));
        } else {
            if u.len() == 0 {
                assert((xs + y)[(xs + y).len() - 2] == ' ');
            } else {
                assert((xs + y)[(xs + y).len() - 2] == u.last());
                assert(y[y.len() - 2] == u.last());
            }
            assert((a + b).push(seq![c]) =~= a + b.push(seq![c]));
        }
    }
}

// ── Decimal numbers ─────────────────────────────────────────────────────────

/// A digit character reads back as its value.
proof fn lemma_digit_char(k: int)
    requires
        0 <= k < 10,
    ensures
        is_digit(digit_char(k)),
        digit_value(digit_char(k)) == k,
{
    assert(digit_char(k) as int == k + 48);
}

/// Decimal digits are digits, there is at least one, and they read back as
/// the number.
pub proof fn lemma_dec_digits(n: nat)
    ensures
        dec_digits(n).len() >= 1,
        all_digits(dec_digits(n)),
        dec_value(dec_digits(n)) == n,
    decreases n,
{
    lemma_digit_char((n % 10) as int);
    if n < 10 {
        assert(dec_digits(n).drop_last() =~= Seq::<char>::empty());
        assert(dec_value(Seq::<char>::empty()) == 0);
        assert(dec_value(dec_digits(n)) == dec_value(dec_digits(n).drop_last()) * 10 + digit_value(
            dec_digits(n).last(),
        ));
    }
    if n >= 10 {
        lemma_dec_digits(n / 10);
        let d = dec_digits(n / 10);
        let t = dec_digits(n);
        assert(t.drop_last() =~= d);
        assert(t.last() == digit_char((n % 10) as int));
        assert(dec_value(t) == dec_value(d) * 10 + digit_value(t.last()));
        assert((n / 10) * 10 + n % 10 == n);
        assert forall|i: int| 0 <= i < t.len() implies is_digit(#[trigger] t[i]) by {
            if i < d.len() {
                assert(t[i] == d[i]);
            }
        }
    }
}

/// The leading digits of digits followed by a non-digit are exactly the
/// digits.
pub proof fn lemma_digit_run_prefix(d: Seq<char>, t: Seq<char>)
    requires
        all_digits(d),
        t.len() == 0 || !is_digit(t[0]),
    ensures
        digit_run(d + t) == d.len(),
    decreases d.len(),
{
    if d.len() == 0 {
        assert(d + t =~= t);
    } else {
        let e = d.drop_first();
        assert forall|i: int| 0 <= i < e.len() implies is_digit(#[trigger] e[i]) by {
            assert(e[i] == d[i + 1]);
        }
        lemma_digit_run_prefix(e, t);
        assert((d + t).drop_first() =~= e + t);
        assert((d + t)[0] == d[0]);
    }
}


// ── One rank ────────────────────────────────────────────────────────────────

/// Every identity on the board can be written and read back: an occupied
/// square has no identity, or an identity character of its piece's side.
pub open spec fn ids_writable(locs: Seq<Piece>, ids: Seq<char>) -> bool {
    forall|s: int|
        0 <= s < 144 && locs[s] != Piece::Empty && ids[s] != NO_PIECE_ID ==> identity_char(
            #[trigger] ids[s],
        ) && owner_of(identity_piece(ids[s])->0) == owner_of(locs[s])
}

/// The identity a square reads back with: its written character in
/// identity mode, its piece letter otherwise.
pub open spec fn read_id(p: Piece, id: char, idm: bool) -> char {
    if idm {
        cell_char(p, id)
    } else {
        piece_char(p)
    }
}

/// The occupied squares of files `file..12` of rank `rank`, as decoded
/// cells (file, piece, identity).
pub open spec fn rank_cells(locs: Seq<Piece>, ids: Seq<char>, idm: bool, rank: int, file: int) -> Seq<(int, Piece, char)>
    decreases 12 - file,
{
    if file >= 12 {
        Seq::empty()
    } else {
        let s = rank * 12 + file;
        if locs[s] == Piece::Empty {
            rank_cells(locs, ids, idm, rank, file + 1)
        } else {
            seq![(file, locs[s], read_id(locs[s], ids[s], idm))] + rank_cells(locs, ids, idm, rank, file + 1)
        }
    }
}

/// A character of a written rank: a digit, an identity character or the
/// colon of a pair.
pub open spec fn rank_char(c: char) -> bool {
    is_digit(c) || identity_char(c) || c == ':'
}

/// Piece letters are identity characters of their own side.
proof fn lemma_piece_char(p: Piece)
    requires
        p != Piece::Empty,
    ensures
        identity_char(piece_char(p)),
        identity_piece(piece_char(p)) is Some,
        owner_of(identity_piece(piece_char(p))->0) == owner_of(p),
        piece_from_char(piece_char(p)) == Some(p),
{
}

/// Identity characters name a piece.
proof fn lemma_identity_piece(c: char)
    requires
        identity_char(c),
    ensures
        identity_piece(c) is Some,
        !is_digit(c),
        c != ':',
{
}

/// The token of a writable square: its characters, its first character,
/// and how it reads back.
proof fn lemma_token(p: Piece, id: char, idm: bool)
    requires
        p != Piece::Empty,
        id != NO_PIECE_ID ==> identity_char(id) && owner_of(identity_piece(id)->0) == owner_of(p),
    ensures
        ({
            let c = cell_char(p, id);
            let t = cell_token(c, p, idm);
            &&& t.len() >= 1
            &&& identity_char(t[0])
            &&& forall|i: int| 0 <= i < t.len() ==> rank_char(#[trigger] t[i])
            &&& identity_char(c)
            &&& hfen_piece(c, idm) is Some
            &&& owner_of(hfen_piece(c, idm)->0) == owner_of(p)
        }),
{
    lemma_piece_char(p);
    let c = cell_char(p, id);
    lemma_identity_piece(c);
    if piece_from_char(c) is Some {
        assert(owner_of(piece_from_char(c)->0) == owner_of(identity_piece(c)->0));
    }
}

/// The characters of a written rank, and its first character.
proof fn lemma_rank_text_chars(locs: Seq<Piece>, ids: Seq<char>, idm: bool, rank: int, file: int, empty: nat)
    requires
        0 <= rank < 12,
        0 <= file <= 12,
        locs.len() == 144,
        ids.len() == 144,
        ids_writable(locs, ids),
    ensures
        ({
            let t = rank_text(locs, ids, idm, rank, file, empty);
            &&& forall|i: int| 0 <= i < t.len() ==> rank_char(#[trigger] t[i])
            &&& t.len() > 0 ==> (is_digit(t[0]) || identity_char(t[0]))
            &&& empty > 0 ==> t.len() > 0 && is_digit(t[0])
        }),
    decreases 12 - file,
{
    let t = rank_text(locs, ids, idm, rank, file, empty);
    if empty > 0 {
        lemma_dec_digits(empty);
    }
    if file >= 12 {
        assert(t == run_text(empty));
    } else {
        let s = rank * 12 + file;
        if locs[s] == Piece::Empty {
            lemma_rank_text_chars(locs, ids, idm, rank, file + 1, empty + 1);
        } else {
            lemma_rank_text_chars(locs, ids, idm, rank, file + 1, 0);
            lemma_token(locs[s], ids[s], idm);
            let r = run_text(empty);
            let k = cell_token(cell_char(locs[s], ids[s]), locs[s], idm);
            let rest = rank_text(locs, ids, idm, rank, file + 1, 0);
            assert(t == r + k + rest);
            assert forall|i: int| 0 <= i < t.len() implies rank_char(#[trigger] t[i]) by {
                if i < r.len() {
                    assert(t[i] == r[i]);
                    assert(is_digit(r[i]));
                } else if i < r.len() + k.len() {
                    assert(t[i] == k[i - r.len()]);
                } else {
                    assert(t[i] == rest[i - r.len() - k.len()]);
                }
            }
            if empty > 0 {
                assert(t[0] == r[0]);
            } else {
                assert(r.len() == 0);
                assert(t[0] == k[0]);
            }
        }
    }
}

/// A run count is read as that many empty squares.
proof fn lemma_decode_run(e: nat, rest: Seq<char>, idm: bool, file: int)
    requires
        rest.len() == 0 || !is_digit(rest[0]),
    ensures
        decode_rank(run_text(e) + rest, idm, file - e) == decode_rank(rest, idm, file),
{
    if e > 0 {
        lemma_dec_digits(e);
        let d = dec_digits(e);
        let t = d + rest;
        lemma_digit_run_prefix(d, rest);
        assert(t.take(d.len() as int) =~= d);
        assert(t.skip(d.len() as int) =~= rest);
        assert(is_digit(t[0]));
    } else {
        assert(run_text(e) + rest =~= rest);
    }
}

/// A square's token is read as that square.
proof fn lemma_decode_token(p: Piece, id: char, idm: bool, rest: Seq<char>, file: int)
    requires
        p != Piece::Empty,
        id != NO_PIECE_ID ==> identity_char(id) && owner_of(identity_piece(id)->0) == owner_of(p),
        0 <= file < 12,
        rest.len() == 0 || rest[0] != ':',
    ensures
        decode_rank(cell_token(cell_char(p, id), p, idm) + rest, idm, file) == match decode_rank(
            rest,
            idm,
            file + 1,
        ) {
            None => None,
            Some(cells) => Some(seq![(file, p, read_id(p, id, idm))] + cells),
        },
{
    lemma_token(p, id, idm);
    lemma_piece_char(p);
    let c = cell_char(p, id);
    let k = cell_token(c, p, idm);
    let kr = k + rest;
    assert(kr[0] == k[0]);
    lemma_identity_piece(k[0]);
    if hfen_piece(c, idm) == Some(p) {
        assert(k == seq![c]);
        if rest.len() > 0 {
            assert(kr[1] == rest[0]);
        }
        assert(kr.skip(1) =~= rest);
    } else if idm {
        assert(k == seq![c, ':', piece_char(p)]);
        assert(kr[1] == ':');
        assert(kr[2] == piece_char(p));
        assert(kr.skip(3) =~= rest);
    } else {
        assert(k == seq![piece_char(p)]);
        if rest.len() > 0 {
            assert(kr[1] == rest[0]);
        }
        assert(kr.skip(1) =~= rest);
    }
}

/// A written rank reads back as its occupied squares.
pub proof fn lemma_rank_decode(locs: Seq<Piece>, ids: Seq<char>, idm: bool, rank: int, file: int, empty: nat)
    requires
        0 <= rank < 12,
        0 <= file <= 12,
        empty <= file,
        locs.len() == 144,
        ids.len() == 144,
        ids_writable(locs, ids),
    ensures
        decode_rank(rank_text(locs, ids, idm, rank, file, empty), idm, file - empty) == Some(
            rank_cells(locs, ids, idm, rank, file),
        ),
    decreases 12 - file,
{
    let t = rank_text(locs, ids, idm, rank, file, empty);
    if file >= 12 {
        assert(t == run_text(empty));
        lemma_decode_run(empty, Seq::<char>::empty(), idm, 12);
        assert(run_text(empty) + Seq::<char>::empty() =~= t);
    } else {
        let s = rank * 12 + file;
        if locs[s] == Piece::Empty {
            lemma_rank_decode(locs, ids, idm, rank, file + 1, empty + 1);
        } else {
            lemma_rank_decode(locs, ids, idm, rank, file + 1, 0);
            lemma_rank_text_chars(locs, ids, idm, rank, file + 1, 0);
            let p = locs[s];
            let k = cell_token(cell_char(p, ids[s]), p, idm);
            let rest = rank_text(locs, ids, idm, rank, file + 1, 0);
            lemma_token(p, ids[s], idm);
            lemma_decode_token(p, ids[s], idm, rest, file);
            assert((k + rest)[0] == k[0]);
            lemma_identity_piece(k[0]);
            lemma_decode_run(empty, k + rest, idm, file);
            assert(t =~= run_text(empty) + (k + rest));
        }
    }
}


// ── The position field ──────────────────────────────────────────────────────

/// The texts of the top `n` ranks, top rank first.
pub open spec fn rank_texts(locs: Seq<Piece>, ids: Seq<char>, idm: bool, n: int) -> Seq<Seq<char>> {
    Seq::new(n as nat, |k: int| rank_text(locs, ids, idm, 11 - k, 0, 0))
}

/// The decoded cells of the top `n` ranks, top rank first.
pub open spec fn board_cells(locs: Seq<Piece>, ids: Seq<char>, idm: bool, n: int) -> Seq<(SQ, Piece, char)>
    decreases n,
{
    if n <= 0 {
        Seq::empty()
    } else {
        board_cells(locs, ids, idm, n - 1) + cells_on_rank(rank_cells(locs, ids, idm, 11 - (n - 1), 0), 11 - (n - 1))
    }
}

/// The written ranks are the parts of the position field between slashes.
proof fn lemma_top_ranks_split(locs: Seq<Piece>, ids: Seq<char>, idm: bool, n: int)
    requires
        1 <= n <= 12,
        locs.len() == 144,
        ids.len() == 144,
        ids_writable(locs, ids),
    ensures
        split_on(top_ranks_text(locs, ids, idm, n), '/') == rank_texts(locs, ids, idm, n),
    decreases n,
{
    let r = rank_text(locs, ids, idm, 12 - n, 0, 0);
    lemma_rank_text_chars(locs, ids, idm, 12 - n, 0, 0);
    assert forall|i: int| 0 <= i < r.len() implies r[i] != '/' by {
        assert(rank_char(r[i]));
    }
    lemma_split_on_single(r, '/');
    if n == 1 {
        assert(rank_texts(locs, ids, idm, 1) =~= seq![r]);
    } else {
        lemma_top_ranks_split(locs, ids, idm, n - 1);
        lemma_split_on_concat(top_ranks_text(locs, ids, idm, n - 1), '/', r);
        assert(rank_texts(locs, ids, idm, n - 1) + seq![r] =~= rank_texts(locs, ids, idm, n));
    }
}

/// The written ranks read back as the cells of the board.
proof fn lemma_ranks_decode(locs: Seq<Piece>, ids: Seq<char>, idm: bool, n: int)
    requires
        0 <= n <= 12,
        locs.len() == 144,
        ids.len() == 144,
        ids_writable(locs, ids),
    ensures
        decode_ranks(rank_texts(locs, ids, idm, 12), idm, n) == Some(board_cells(locs, ids, idm, n)),
    decreases n,
{
    if n > 0 {
        lemma_ranks_decode(locs, ids, idm, n - 1);
        lemma_rank_decode(locs, ids, idm, 11 - (n - 1), 0, 0);
        assert(rank_texts(locs, ids, idm, 12)[n - 1] == rank_text(locs, ids, idm, 11 - (n - 1), 0, 0));
    }
}

/// A square is written with a character that reads only as an identity.
pub open spec fn square_idonly(locs: Seq<Piece>, ids: Seq<char>, s: int) -> bool {
    locs[s] != Piece::Empty && identity_only_char(cell_char(locs[s], ids[s]))
}

/// The identity-only characters of a written rank come from its squares.
proof fn lemma_rank_idonly_sound(locs: Seq<Piece>, ids: Seq<char>, idm: bool, rank: int, file: int, empty: nat, i: int)
    requires
        0 <= rank < 12,
        0 <= file <= 12,
        locs.len() == 144,
        ids.len() == 144,
        ids_writable(locs, ids),
        0 <= i < rank_text(locs, ids, idm, rank, file, empty).len(),
        identity_only_char(rank_text(locs, ids, idm, rank, file, empty)[i]),
    ensures
        exists|f: int| file <= f < 12 && #[trigger] square_idonly(locs, ids, rank * 12 + f),
    decreases 12 - file,
{
    let t = rank_text(locs, ids, idm, rank, file, empty);
    if empty > 0 {
        lemma_dec_digits(empty);
    }
    if file >= 12 {
        assert(t == run_text(empty));
        assert(is_digit(t[i]));
    } else {
        let s = rank * 12 + file;
        if locs[s] == Piece::Empty {
            lemma_rank_idonly_sound(locs, ids, idm, rank, file + 1, empty + 1, i);
            let f = choose|f: int| file + 1 <= f < 12 && #[trigger] square_idonly(locs, ids, rank * 12 + f);
            assert(square_idonly(locs, ids, rank * 12 + f));
        } else {
            lemma_token(locs[s], ids[s], idm);
            lemma_piece_char(locs[s]);
            let p = locs[s];
            let c = cell_char(p, ids[s]);
            let r = run_text(empty);
            let k = cell_token(c, p, idm);
            let rest = rank_text(locs, ids, idm, rank, file + 1, 0);
            assert(t == r + k + rest);
            if i < r.len() {
                assert(t[i] == r[i]);
                assert(is_digit(r[i]));
            } else if i < r.len() + k.len() {
                assert(t[i] == k[i - r.len()]);
                if hfen_piece(c, idm) == Some(p) {
                    assert(k[i - r.len()] == c);
                } else if idm {
                    assert(k[i - r.len()] == c || k[i - r.len()] == ':' || k[i - r.len()] == piece_char(p));
                } else {
                    assert(k[i - r.len()] == piece_char(p));
                }
                assert(square_idonly(locs, ids, rank * 12 + file));
            } else {
                assert(t[i] == rest[i - r.len() - k.len()]);
                lemma_rank_idonly_sound(locs, ids, idm, rank, file + 1, 0, i - r.len() - k.len());
                let f = choose|f: int| file + 1 <= f < 12 && #[trigger] square_idonly(locs, ids, rank * 12 + f);
                assert(square_idonly(locs, ids, rank * 12 + f));
            }
        }
    }
}

/// In identity mode a square written with an identity-only character shows
/// it in its rank's text.
proof fn lemma_rank_idonly_complete(locs: Seq<Piece>, ids: Seq<char>, rank: int, file: int, empty: nat, f: int)
    requires
        0 <= rank < 12,
        0 <= file <= f < 12,
        locs.len() == 144,
        ids.len() == 144,
        ids_writable(locs, ids),
        square_idonly(locs, ids, rank * 12 + f),
    ensures
        exists|i: int|
            0 <= i < rank_text(locs, ids, true, rank, file, empty).len() && #[trigger] identity_only_char(
                rank_text(locs, ids, true, rank, file, empty)[i],
            ),
    decreases 12 - file,
{
    let t = rank_text(locs, ids, true, rank, file, empty);
    let s = rank * 12 + file;
    if locs[s] == Piece::Empty {
        assert(f != file);
        lemma_rank_idonly_complete(locs, ids, rank, file + 1, empty + 1, f);
    } else {
        lemma_token(locs[s], ids[s], true);
        let p = locs[s];
        let c = cell_char(p, ids[s]);
        let r = run_text(empty);
        let k = cell_token(c, p, true);
        let rest = rank_text(locs, ids, true, rank, file + 1, 0);
        assert(t == r + k + rest);
        if f == file {
            assert(k[0] == c);
            assert(t[r.len() as int] == k[0]);
            assert(identity_only_char(t[r.len() as int]));
        } else {
            lemma_rank_idonly_complete(locs, ids, rank, file + 1, 0, f);
            let j = choose|j: int| 0 <= j < rest.len() && #[trigger] identity_only_char(rest[j]);
            assert(t[r.len() + k.len() + j] == rest[j]);
            assert(identity_only_char(t[r.len() + k.len() + j]));
        }
    }
}


/// The identity-only characters of the position field come from squares.
proof fn lemma_top_idonly_sound(locs: Seq<Piece>, ids: Seq<char>, idm: bool, n: int, i: int)
    requires
        1 <= n <= 12,
        locs.len() == 144,
        ids.len() == 144,
        ids_writable(locs, ids),
        0 <= i < top_ranks_text(locs, ids, idm, n).len(),
        identity_only_char(top_ranks_text(locs, ids, idm, n)[i]),
    ensures
        board_uses_identity(locs, ids),
    decreases n,
{
    let r = rank_text(locs, ids, idm, 12 - n, 0, 0);
    let t = top_ranks_text(locs, ids, idm, n);
    let mut j: int = i;
    if n > 1 {
        let prev = top_ranks_text(locs, ids, idm, n - 1);
        assert(t == prev + seq!['/'] + r);
        if i < prev.len() {
            assert(t[i] == prev[i]);
            lemma_top_idonly_sound(locs, ids, idm, n - 1, i);
            return;
        }
        assert(i != prev.len());
        j = i - prev.len() - 1;
        assert(t[i] == r[j]);
    }
    lemma_rank_idonly_sound(locs, ids, idm, 12 - n, 0, 0, j);
    let f = choose|f: int| 0 <= f < 12 && #[trigger] square_idonly(locs, ids, (12 - n) * 12 + f);
    let sq = (12 - n) * 12 + f;
    assert(identity_only_char(cell_char(locs[sq], ids[sq])));
}

/// A square written with an identity-only character shows it in the
/// position field written in identity mode.
proof fn lemma_top_idonly_complete(locs: Seq<Piece>, ids: Seq<char>, n: int, rank: int, f: int)
    requires
        1 <= n <= 12,
        12 - n <= rank < 12,
        0 <= f < 12,
        locs.len() == 144,
        ids.len() == 144,
        ids_writable(locs, ids),
        square_idonly(locs, ids, rank * 12 + f),
    ensures
        uses_identity(top_ranks_text(locs, ids, true, n)),
    decreases n,
{
    let t = top_ranks_text(locs, ids, true, n);
    if rank == 12 - n {
        lemma_rank_idonly_complete(locs, ids, rank, 0, 0, f);
        let r = rank_text(locs, ids, true, rank, 0, 0);
        let j = choose|j: int| 0 <= j < r.len() && #[trigger] identity_only_char(r[j]);
        if n == 1 {
            assert(t == r);
            assert(identity_only_char(t[j]));
        } else {
            let prev = top_ranks_text(locs, ids, true, n - 1);
            assert(t == prev + seq!['/'] + r);
            assert(t[prev.len() + 1 + j] == r[j]);
            assert(identity_only_char(t[prev.len() + 1 + j]));
        }
    } else {
        lemma_top_idonly_complete(locs, ids, n - 1, rank, f);
        let prev = top_ranks_text(locs, ids, true, n - 1);
        let r = rank_text(locs, ids, true, 12 - n, 0, 0);
        let j = choose|j: int| 0 <= j < prev.len() && #[trigger] identity_only_char(prev[j]);
        assert(t == prev + seq!['/'] + r);
        assert(t[j] == prev[j]);
        assert(identity_only_char(t[j]));
    }
}

/// The position field of a board reads back as the cells of its squares,
/// in the mode it was written in.
pub proof fn lemma_position_decode(locs: Seq<Piece>, ids: Seq<char>)
    requires
        locs.len() == 144,
        ids.len() == 144,
        ids_writable(locs, ids),
    ensures
        uses_identity(position_text(locs, ids)) == board_uses_identity(locs, ids),
        decode_position(position_text(locs, ids)) == Some(
            board_cells(locs, ids, board_uses_identity(locs, ids), 12),
        ),
{
    let idm = board_uses_identity(locs, ids);
    let pos = position_text(locs, ids);
    if uses_identity(pos) {
        let i = choose|i: int| 0 <= i < pos.len() && #[trigger] identity_only_char(pos[i]);
        lemma_top_idonly_sound(locs, ids, idm, 12, i);
    }
    if idm {
        let s = choose|s: int|
            0 <= s < 144 && locs[s] != Piece::Empty && #[trigger] identity_only_char(cell_char(locs[s], ids[s]));
        assert(square_idonly(locs, ids, (s / 12) * 12 + s % 12));
        lemma_top_idonly_complete(locs, ids, 12, s / 12, s % 12);
    }
    lemma_top_ranks_split(locs, ids, idm, 12);
    lemma_ranks_decode(locs, ids, idm, 12);
}


// ── Squares of the read-back cells ──────────────────────────────────────────

/// `m` with the pieces of the cells placed in order.
pub open spec fn layout_over(m: Seq<Piece>, c: Seq<(SQ, Piece, char)>) -> Seq<Piece>
    decreases c.len(),
{
    if c.len() == 0 {
        m
    } else {
        layout_over(m, c.drop_last()).update(c.last().0.0 as int, c.last().1)
    }
}

/// `m` with the identities of the cells placed in order.
pub open spec fn id_layout_over(m: Seq<char>, c: Seq<(SQ, Piece, char)>) -> Seq<char>
    decreases c.len(),
{
    if c.len() == 0 {
        m
    } else {
        id_layout_over(m, c.drop_last()).update(c.last().0.0 as int, c.last().2)
    }
}

/// The identities a board reads back with: none on empty squares.
pub open spec fn read_ids(locs: Seq<Piece>, ids: Seq<char>, idm: bool) -> Seq<char> {
    Seq::new(144, |s: int| if locs[s] == Piece::Empty { NO_PIECE_ID } else { read_id(locs[s], ids[s], idm) })
}

/// Placing cells after others places the others first.
proof fn lemma_layout_concat(p: Seq<(SQ, Piece, char)>, c: Seq<(SQ, Piece, char)>)
    ensures
        layout(p + c) == layout_over(layout(p), c),
        id_layout(p + c) == id_layout_over(id_layout(p), c),
    decreases c.len(),
{
    if c.len() == 0 {
        assert(p + c =~= p);
    } else {
        lemma_layout_concat(p, c.drop_last());
        assert((p + c).drop_last() =~= p + c.drop_last());
        assert((p + c).last() == c.last());
    }
}

/// Placing a concatenation places its parts in turn.
proof fn lemma_layout_over_concat(m: Seq<Piece>, n: Seq<char>, a: Seq<(SQ, Piece, char)>, b: Seq<(SQ, Piece, char)>)
    ensures
        layout_over(m, a + b) == layout_over(layout_over(m, a), b),
        id_layout_over(n, a + b) == id_layout_over(id_layout_over(n, a), b),
    decreases b.len(),
{
    if b.len() == 0 {
        assert(a + b =~= a);
    } else {
        lemma_layout_over_concat(m, n, a, b.drop_last());
        assert((a + b).drop_last() =~= a + b.drop_last());
        assert((a + b).last() == b.last());
    }
}

/// The files of a rank's cells lie from `file` to the last file.
proof fn lemma_rank_cells_files(locs: Seq<Piece>, ids: Seq<char>, idm: bool, rank: int, file: int)
    requires
        0 <= file,
    ensures
        forall|k: int|
            0 <= k < rank_cells(locs, ids, idm, rank, file).len() ==> file <= #[trigger] rank_cells(
                locs,
                ids,
                idm,
                rank,
                file,
            )[k].0 < 12,
    decreases 12 - file,
{
    if file < 12 {
        lemma_rank_cells_files(locs, ids, idm, rank, file + 1);
        let rc = rank_cells(locs, ids, idm, rank, file);
        let rest = rank_cells(locs, ids, idm, rank, file + 1);
        if locs[rank * 12 + file] != Piece::Empty {
            assert forall|k: int| 0 <= k < rc.len() implies file <= #[trigger] rc[k].0 < 12 by {
                if k > 0 {
                    assert(rc[k] == rest[k - 1]);
                }
            }
        }
    }
}

/// Placing a rank's cells puts its pieces and identities on its squares.
proof fn lemma_rank_layout(
    locs: Seq<Piece>,
    ids: Seq<char>,
    idm: bool,
    rank: int,
    file: int,
    m: Seq<Piece>,
    n: Seq<char>,
)
    requires
        0 <= rank < 12,
        0 <= file <= 12,
        locs.len() == 144,
        ids.len() == 144,
        m.len() == 144,
        n.len() == 144,
    ensures
        layout_over(m, cells_on_rank(rank_cells(locs, ids, idm, rank, file), rank)) =~= Seq::new(
            144,
            |t: int|
                if t / 12 == rank && t % 12 >= file && locs[t] != Piece::Empty {
                    locs[t]
                } else {
                    m[t]
                },
        ),
        id_layout_over(n, cells_on_rank(rank_cells(locs, ids, idm, rank, file), rank)) =~= Seq::new(
            144,
            |t: int|
                if t / 12 == rank && t % 12 >= file && locs[t] != Piece::Empty {
                    read_id(locs[t], ids[t], idm)
                } else {
                    n[t]
                },
        ),
    decreases 12 - file,
{
    let rc = rank_cells(locs, ids, idm, rank, file);
    if file >= 12 {
        assert(cells_on_rank(rc, rank) =~= Seq::<(SQ, Piece, char)>::empty());
    } else {
        let s = rank * 12 + file;
        let rest = rank_cells(locs, ids, idm, rank, file + 1);
        if locs[s] == Piece::Empty {
            lemma_rank_layout(locs, ids, idm, rank, file + 1, m, n);
        } else {
            let x = (file, locs[s], read_id(locs[s], ids[s], idm));
            let y = (SQ(s as u8), locs[s], read_id(locs[s], ids[s], idm));
            assert(rc == seq![x] + rest);
            assert(cells_on_rank(rc, rank) =~= seq![y] + cells_on_rank(rest, rank));
            lemma_layout_over_concat(m, n, seq![y], cells_on_rank(rest, rank));
            assert(seq![y].drop_last() =~= Seq::<(SQ, Piece, char)>::empty());
            assert(layout_over(m, Seq::<(SQ, Piece, char)>::empty()) == m);
            assert(id_layout_over(n, Seq::<(SQ, Piece, char)>::empty()) == n);
            assert(0 <= s < 144);
            assert(y.0.0 as int == s);
            assert(seq![y].last() == y);
            let m2 = m.update(s, locs[s]);
            let n2 = n.update(s, read_id(locs[s], ids[s], idm));
            assert(layout_over(m, seq![y]) == m2);
            assert(id_layout_over(n, seq![y]) == n2);
            lemma_rank_layout(locs, ids, idm, rank, file + 1, m2, n2);
        }
    }
}

/// The read-back cells of the top `n` ranks put every piece and identity of
/// those ranks back on its square.
proof fn lemma_board_layout(locs: Seq<Piece>, ids: Seq<char>, idm: bool, n: int)
    requires
        0 <= n <= 12,
        locs.len() == 144,
        ids.len() == 144,
    ensures
        layout(board_cells(locs, ids, idm, n)) =~= Seq::new(
            144,
            |t: int| if t / 12 >= 12 - n { locs[t] } else { Piece::Empty },
        ),
        id_layout(board_cells(locs, ids, idm, n)) =~= Seq::new(
            144,
            |t: int|
                if t / 12 >= 12 - n && locs[t] != Piece::Empty {
                    read_id(locs[t], ids[t], idm)
                } else {
                    NO_PIECE_ID
                },
        ),
    decreases n,
{
    if n > 0 {
        lemma_board_layout(locs, ids, idm, n - 1);
        let p = board_cells(locs, ids, idm, n - 1);
        let r = 11 - (n - 1);
        let c = cells_on_rank(rank_cells(locs, ids, idm, r, 0), r);
        lemma_layout_concat(p, c);
        lemma_rank_layout(locs, ids, idm, r, 0, layout(p), id_layout(p));
    }
}

/// The read-back cells of a board put its pieces back, and its identities
/// as they read back.
pub proof fn lemma_cells_layout(locs: Seq<Piece>, ids: Seq<char>, idm: bool)
    requires
        locs.len() == 144,
        ids.len() == 144,
    ensures
        layout(board_cells(locs, ids, idm, 12)) == locs,
        id_layout(board_cells(locs, ids, idm, 12)) == read_ids(locs, ids, idm),
{
    lemma_board_layout(locs, ids, idm, 12);
    assert(layout(board_cells(locs, ids, idm, 12)) =~= locs);
    assert(id_layout(board_cells(locs, ids, idm, 12)) =~= read_ids(locs, ids, idm));
}


/// The cells of the top `n` ranks are on the board.
proof fn lemma_board_cells_squares(locs: Seq<Piece>, ids: Seq<char>, idm: bool, n: int)
    requires
        0 <= n <= 12,
    ensures
        forall|q: int|
            0 <= q < board_cells(locs, ids, idm, n).len() ==> (#[trigger] board_cells(locs, ids, idm, n)[q]).0.0
                < 144,
    decreases n,
{
    if n > 0 {
        lemma_board_cells_squares(locs, ids, idm, n - 1);
        let p = board_cells(locs, ids, idm, n - 1);
        let r = 11 - (n - 1);
        let rc = rank_cells(locs, ids, idm, r, 0);
        lemma_rank_cells_files(locs, ids, idm, r, 0);
        let c = cells_on_rank(rc, r);
        let all = board_cells(locs, ids, idm, n);
        assert forall|q: int| 0 <= q < all.len() implies (#[trigger] all[q]).0.0 < 144 by {
            if q < p.len() {
                assert(all[q] == p[q]);
            } else {
                assert(all[q] == c[q - p.len()]);
                assert(0 <= rc[q - p.len()].0 < 12);
            }
        }
    }
}

/// A piece the layout shows on a square comes from a cell on that square.
proof fn lemma_layout_member(pieces: Seq<(SQ, Piece, char)>, s: int)
    requires
        forall|q: int| 0 <= q < pieces.len() ==> (#[trigger] pieces[q]).0.0 < 144,
        0 <= s < 144,
        layout(pieces)[s] != Piece::Empty,
    ensures
        exists|q: int| 0 <= q < pieces.len() && (#[trigger] pieces[q]).0.0 == s && pieces[q].1 == layout(pieces)[s],
    decreases pieces.len(),
{
    super::lemma_layout_len(pieces);
    if pieces.len() > 0 {
        let init = pieces.drop_last();
        assert forall|q: int| 0 <= q < init.len() implies (#[trigger] init[q]).0.0 < 144 by {
            assert(init[q] == pieces[q]);
        }
        super::lemma_layout_len(init);
        let last = pieces[pieces.len() - 1];
        if last.0.0 != s {
            lemma_layout_member(init, s);
            let q = choose|q: int| 0 <= q < init.len() && (#[trigger] init[q]).0.0 == s && init[q].1 == layout(init)[s];
            assert(pieces[q] == init[q]);
        } else {
            assert(pieces[pieces.len() - 1].0.0 == s);
        }
    }
}

/// A list with a king of `side` records a king square for `side`.
proof fn lemma_king_found(pieces: Seq<(SQ, Piece, char)>, side: Player)
    requires
        forall|q: int| 0 <= q < pieces.len() ==> (#[trigger] pieces[q]).0.0 < 144,
        exists|q: int| 0 <= q < pieces.len() && (#[trigger] pieces[q]).1 == piece_of(side, PieceType::K),
    ensures
        king_layout(pieces).len() == 2,
        king_layout(pieces)[player_index(side)].0 < 144,
    decreases pieces.len(),
{
    super::lemma_layout_len(pieces);
    let init = pieces.drop_last();
    let last = pieces[pieces.len() - 1];
    assert forall|q: int| 0 <= q < init.len() implies (#[trigger] init[q]).0.0 < 144 by {
        assert(init[q] == pieces[q]);
    }
    super::lemma_layout_len(init);
    let k = piece_of(side, PieceType::K);
    assert(type_of_piece(k) == PieceType::K && owner_lossy(k) == side);
    if last.1 != k {
        let q = choose|q: int| 0 <= q < pieces.len() && (#[trigger] pieces[q]).1 == k;
        assert(q < init.len());
        assert(init[q] == pieces[q]);
        lemma_king_found(init, side);
        if type_of_piece(last.1) == PieceType::K {
            assert(last.0.0 < 144);
        }
    }
}


// ── The other fields ────────────────────────────────────────────────────────

/// Adding a letter, or nothing, adds its bits.
proof fn lemma_castle_bits_push(a: Seq<char>, t: Seq<char>, x: u8)
    requires
        (t.len() == 0 && x == 0) || (t.len() == 1 && super::castle_rights::castle_letter_bits(t[0]) == x),
    ensures
        castle_bits_of(a + t) == castle_bits_of(a) | x,
{
    let v = castle_bits_of(a);
    if t.len() == 0 {
        assert(a + t =~= a);
        assert(v | 0u8 == v) by (bit_vector);
    } else {
        assert((a + t).drop_last() =~= a);
        assert((a + t).last() == t[0]);
    }
}

/// Castling letters read back as the rights they were written from.
pub proof fn lemma_castle_text_round_trip(c: u8)
    requires
        c < 16,
    ensures
        c == 0 ==> castle_text(c) == seq!['-'],
        c != 0 ==> castle_text(c) != seq!['-'] && castle_bits_of(castle_text(c)) == c,
        castle_text(c).len() >= 1,
        forall|i: int| 0 <= i < castle_text(c).len() ==> !is_ws(#[trigger] castle_text(c)[i]),
{
    if c != 0 {
        let b3 = c & 8 != 0;
        let b2 = c & 4 != 0;
        let b1 = c & 2 != 0;
        let b0 = c & 1 != 0;
        let s3 = if b3 { seq!['K'] } else { Seq::<char>::empty() };
        let s2 = if b2 { seq!['Q'] } else { Seq::<char>::empty() };
        let s1 = if b1 { seq!['k'] } else { Seq::<char>::empty() };
        let s0 = if b0 { seq!['q'] } else { Seq::<char>::empty() };
        let x3: u8 = if b3 { 8 } else { 0 };
        let x2: u8 = if b2 { 4 } else { 0 };
        let x1: u8 = if b1 { 2 } else { 0 };
        let x0: u8 = if b0 { 1 } else { 0 };
        assert(castle_text(c) == s3 + s2 + s1 + s0);
        lemma_castle_bits_push(Seq::<char>::empty(), s3, x3);
        assert(Seq::<char>::empty() + s3 =~= s3);
        lemma_castle_bits_push(s3, s2, x2);
        lemma_castle_bits_push(s3 + s2, s1, x1);
        lemma_castle_bits_push(s3 + s2 + s1, s0, x0);
        assert(castle_bits_of(Seq::<char>::empty()) == 0);
        assert(c < 16 ==> (((((0u8 | (if c & 8 != 0 { 8u8 } else { 0u8 })) | (if c & 4 != 0 { 4u8 } else { 0u8 })) | (
        if c & 2 != 0 { 2u8 } else { 0u8 })) | (if c & 1 != 0 { 1u8 } else { 0u8 })) == c)) by (bit_vector);
        assert(c != 0 && c < 16 ==> (c & 8 != 0 || c & 4 != 0 || c & 2 != 0 || c & 1 != 0)) by (bit_vector);
        let t = castle_text(c);
        assert(t.len() >= 1);
        assert(t[0] == 'K' || t[0] == 'Q' || t[0] == 'k' || t[0] == 'q');
        assert forall|i: int| 0 <= i < t.len() implies !is_ws(#[trigger] t[i]) by {
            assert(t[i] == 'K' || t[i] == 'Q' || t[i] == 'k' || t[i] == 'q');
        }
    }
}


/// Decimal digits parse back as their number.
proof fn lemma_parse_dec_digits(n: nat, max: int)
    requires
        n <= max,
    ensures
        parse_unsigned(dec_digits(n), max) == Some(n as int),
        dec_digits(n).len() >= 1,
        forall|i: int| 0 <= i < dec_digits(n).len() ==> !is_ws(#[trigger] dec_digits(n)[i]),
{
    lemma_dec_digits(n);
    let d = dec_digits(n);
    assert(is_digit(d[0]));
    assert forall|i: int| 0 <= i < d.len() implies !is_ws(#[trigger] d[i]) by {
        assert(is_digit(d[i]));
    }
}

/// The en passant field reads back as the square it was written from.
proof fn lemma_ep_text_round_trip(ep: int)
    requires
        0 <= ep <= 144,
    ensures
        ep_square_of(ep_text(ep)) == ep,
        ep_text(ep).len() >= 1,
        forall|i: int| 0 <= i < ep_text(ep).len() ==> !is_ws(#[trigger] ep_text(ep)[i]),
{
    let t = ep_text(ep);
    if ep < 144 {
        let r = ep / 12;
        let f = ep % 12;
        lemma_parse_dec_digits((r + 1) as nat, 255);
        let d = dec_digits((r + 1) as nat);
        assert(t == seq![crate::core_types::file_rank::file_letter(f)] + d);
        assert(t.drop_first() =~= d);
        assert(t[0] as int == f + 'a' as int);
        assert forall|i: int| 0 <= i < t.len() implies !is_ws(#[trigger] t[i]) by {
            if i > 0 {
                assert(t[i] == d[i - 1]);
            }
        }
    } else {
        assert(t == seq!['-']);
    }
}

/// The position field is non-empty text without whitespace.
proof fn lemma_top_ranks_chars(locs: Seq<Piece>, ids: Seq<char>, idm: bool, n: int)
    requires
        1 <= n <= 12,
        locs.len() == 144,
        ids.len() == 144,
        ids_writable(locs, ids),
    ensures
        top_ranks_text(locs, ids, idm, n).len() >= n - 1,
        forall|i: int|
            0 <= i < top_ranks_text(locs, ids, idm, n).len() ==> !is_ws(#[trigger] top_ranks_text(locs, ids, idm, n)[i]),
    decreases n,
{
    let t = top_ranks_text(locs, ids, idm, n);
    let r = rank_text(locs, ids, idm, 12 - n, 0, 0);
    lemma_rank_text_chars(locs, ids, idm, 12 - n, 0, 0);
    assert forall|i: int| 0 <= i < r.len() implies !is_ws(#[trigger] r[i]) by {
        assert(rank_char(r[i]));
    }
    if n > 1 {
        lemma_top_ranks_chars(locs, ids, idm, n - 1);
        let prev = top_ranks_text(locs, ids, idm, n - 1);
        assert(t == prev + seq!['/'] + r);
        assert forall|i: int| 0 <= i < t.len() implies !is_ws(#[trigger] t[i]) by {
            if i < prev.len() {
                assert(t[i] == prev[i]);
            } else if i == prev.len() {
                assert(t[i] == '/');
            } else {
                assert(t[i] == r[i - prev.len() - 1]);
            }
        }
    }
}

/// The fields of a written HFEN text.
proof fn lemma_hfen_fields(
    locs: Seq<Piece>,
    ids: Seq<char>,
    turn: Player,
    castling: u8,
    ep: int,
    rule50: nat,
    fullmove: nat,
)
    requires
        locs.len() == 144,
        ids.len() == 144,
        ids_writable(locs, ids),
        castling < 16,
        0 <= ep <= 144,
    ensures
        split_ws(hfen_text(locs, ids, turn, castling, ep, rule50, fullmove)) == seq![
            position_text(locs, ids),
            seq![turn_char(turn)],
            castle_text(castling),
            ep_text(ep),
            dec_digits(rule50),
            dec_digits(fullmove),
        ],
{
    let pos = position_text(locs, ids);
    let tc = seq![turn_char(turn)];
    let c = castle_text(castling);
    let e = ep_text(ep);
    let d1 = dec_digits(rule50);
    let d2 = dec_digits(fullmove);
    lemma_top_ranks_chars(locs, ids, board_uses_identity(locs, ids), 12);
    lemma_castle_text_round_trip(castling);
    lemma_ep_text_round_trip(ep);
    lemma_parse_dec_digits(rule50, rule50 as int);
    lemma_parse_dec_digits(fullmove, fullmove as int);
    assert forall|i: int| 0 <= i < tc.len() implies !is_ws(#[trigger] tc[i]) by {
        assert(tc[i] == 'w' || tc[i] == 'b');
    }
    lemma_split_ws_single(pos);
    lemma_split_ws_single(tc);
    lemma_split_ws_single(c);
    lemma_split_ws_single(e);
    lemma_split_ws_single(d1);
    lemma_split_ws_single(d2);
    let x2 = pos + seq![' '] + tc;
    let x3 = x2 + seq![' '] + c;
    let x4 = x3 + seq![' '] + e;
    let x5 = x4 + seq![' '] + d1;
    let x6 = x5 + seq![' '] + d2;
    lemma_split_ws_concat(pos, tc);
    lemma_split_ws_concat(x2, c);
    lemma_split_ws_concat(x3, e);
    lemma_split_ws_concat(x4, d1);
    lemma_split_ws_concat(x5, d2);
    assert(hfen_text(locs, ids, turn, castling, ep, rule50, fullmove) =~= x6);
    assert(split_ws(x6) =~= seq![pos, tc, c, e, d1, d2]);
}

/// What a board's HFEN text reads back as: the board's pieces, side to move,
/// castling rights, en passant square and counters, with each occupied
/// square's identity as written (in identity mode its identity, or its piece
/// letter where it has none; otherwise its piece letter). It reads back
/// whenever the board's identities can be written, its side to move has a
/// king, and its castling rights and en passant square are in range.
pub proof fn lemma_hfen_round_trip(b: Board, b2: Board)
    requires
        b.wf(),
        ids_writable(b.locs(), b.ids()),
        exists|s: int| 0 <= s < 144 && #[trigger] b.locs()[s] == piece_of(b.side(), PieceType::K),
        b.st().castling.0 < 16,
        b.st().ep_square.0 <= 144,
        hfen_board(board_hfen(b), b2),
    ensures
        b2.locs() == b.locs(),
        b2.ids() == read_ids(b.locs(), b.ids(), board_uses_identity(b.locs(), b.ids())),
        b2.side() == b.side(),
        b2.st().castling == b.st().castling,
        b2.st().ep_square == b.st().ep_square,
        b2.st().rule50 == b.st().rule50,
        b2.st().fullmove == b.st().fullmove,
{
    lemma_hfen_reads_back(b);
    let locs = b.locs();
    let ids = b.ids();
    let idm = board_uses_identity(locs, ids);
    let parts = split_ws(board_hfen(b));
    lemma_castle_text_round_trip(b.st().castling.0);
    lemma_ep_text_round_trip(b.st().ep_square.0 as int);
    lemma_parse_dec_digits(b.st().rule50 as nat, 65535);
    lemma_parse_dec_digits(b.st().fullmove as nat, 65535);
    lemma_cells_layout(locs, ids, idm);
    assert(parts[2] == castle_text(b.st().castling.0));
    if b.st().castling.0 == 0 {
        assert(b2.st().castling.0 == 0);
    }
    assert(b2.st().castling.0 == b.st().castling.0);
}

/// A board's HFEN text can start a game whenever the board's identities can
/// be written, its side to move has a king, and its castling rights and en
/// passant square are in range.
pub proof fn lemma_hfen_reads_back(b: Board)
    requires
        b.wf(),
        ids_writable(b.locs(), b.ids()),
        exists|s: int| 0 <= s < 144 && #[trigger] b.locs()[s] == piece_of(b.side(), PieceType::K),
        b.st().castling.0 < 16,
        b.st().ep_square.0 <= 144,
    ensures
        hfen_start_ok(board_hfen(b)),
        decode_position(split_ws(board_hfen(b))[0]) == Some(
            board_cells(b.locs(), b.ids(), board_uses_identity(b.locs(), b.ids()), 12),
        ),
        split_ws(board_hfen(b)) == seq![
            position_text(b.locs(), b.ids()),
            seq![turn_char(b.side())],
            castle_text(b.st().castling.0),
            ep_text(b.st().ep_square.0 as int),
            dec_digits(b.st().rule50 as nat),
            dec_digits(b.st().fullmove as nat),
        ],
        turn_of(seq![turn_char(b.side())]) == Some(b.side()),
{
    let locs = b.locs();
    let ids = b.ids();
    let idm = board_uses_identity(locs, ids);
    assert(locs.len() == 144 && ids.len() == 144);
    lemma_hfen_fields(
        locs,
        ids,
        b.side(),
        b.st().castling.0,
        b.st().ep_square.0 as int,
        b.st().rule50 as nat,
        b.st().fullmove as nat,
    );
    lemma_position_decode(locs, ids);
    reveal_strlit("w");
    reveal_strlit("b");
    assert(seq!['w'] =~= "w"@);
    assert(seq!['b'] =~= "b"@);
    match b.side() {
        Player::White => {
            assert(turn_char(b.side()) == 'w');
        },
        Player::Black => {
            assert(turn_char(b.side()) == 'b');
            assert(seq!['b'] != "w"@) by {
                assert(seq!['b'][0] != "w"@[0]);
            }
        },
    }
    assert(turn_of(seq![turn_char(b.side())]) == Some(b.side()));
    let cells = board_cells(locs, ids, idm, 12);
    lemma_cells_layout(locs, ids, idm);
    lemma_board_cells_squares(locs, ids, idm, 12);
    let s = choose|s: int| 0 <= s < 144 && #[trigger] locs[s] == piece_of(b.side(), PieceType::K);
    assert(piece_of(b.side(), PieceType::K) != Piece::Empty);
    lemma_layout_member(cells, s);
    lemma_king_found(cells, b.side());
}

// ── Writing again ───────────────────────────────────────────────────────────

/// Two ways of writing the occupied squares of `locs` give the same token
/// on every square.
pub open spec fn same_tokens(locs: Seq<Piece>, i1: Seq<char>, m1: bool, i2: Seq<char>, m2: bool) -> bool {
    forall|s: int|
        0 <= s < 144 && locs[s] != Piece::Empty ==> #[trigger] cell_token(cell_char(locs[s], i1[s]), locs[s], m1)
            == cell_token(cell_char(locs[s], i2[s]), locs[s], m2)
}

proof fn lemma_rank_text_congr(
    locs: Seq<Piece>,
    i1: Seq<char>,
    m1: bool,
    i2: Seq<char>,
    m2: bool,
    rank: int,
    file: int,
    empty: nat,
)
    requires
        0 <= rank < 12,
        0 <= file,
        same_tokens(locs, i1, m1, i2, m2),
    ensures
        rank_text(locs, i1, m1, rank, file, empty) == rank_text(locs, i2, m2, rank, file, empty),
    decreases 12 - file,
{
    if file < 12 {
        lemma_rank_text_congr(locs, i1, m1, i2, m2, rank, file + 1, empty + 1);
        lemma_rank_text_congr(locs, i1, m1, i2, m2, rank, file + 1, 0);
        let s = rank * 12 + file;
        if locs[s] != Piece::Empty {
            assert(cell_token(cell_char(locs[s], i1[s]), locs[s], m1) == cell_token(
                cell_char(locs[s], i2[s]),
                locs[s],
                m2,
            ));
        }
    }
}

proof fn lemma_top_ranks_congr(locs: Seq<Piece>, i1: Seq<char>, m1: bool, i2: Seq<char>, m2: bool, n: int)
    requires
        n <= 12,
        same_tokens(locs, i1, m1, i2, m2),
    ensures
        top_ranks_text(locs, i1, m1, n) == top_ranks_text(locs, i2, m2, n),
    decreases n,
{
    if n > 1 {
        lemma_top_ranks_congr(locs, i1, m1, i2, m2, n - 1);
        lemma_rank_text_congr(locs, i1, m1, i2, m2, 12 - n, 0, 0);
    } else if n == 1 {
        lemma_rank_text_congr(locs, i1, m1, i2, m2, 11, 0, 0);
    }
}

/// A character that reads as a piece letter is that piece's letter.
proof fn lemma_letter(c: char, p: Piece)
    requires
        piece_from_char(c) == Some(p),
    ensures
        c == piece_char(p),
        !identity_only_char(c),
{
}

/// The identities a board reads back with are written the same way as the
/// board's own.
proof fn lemma_read_ids_position(locs: Seq<Piece>, ids: Seq<char>)
    requires
        locs.len() == 144,
        ids.len() == 144,
    ensures
        position_text(locs, read_ids(locs, ids, board_uses_identity(locs, ids))) == position_text(
            locs,
            ids,
        ),
{
    let idm = board_uses_identity(locs, ids);
    let ids2 = read_ids(locs, ids, idm);
    assert forall|s: int| 0 <= s < 144 && locs[s] != Piece::Empty implies #[trigger] cell_char(
        locs[s],
        ids2[s],
    ) == read_id(locs[s], ids[s], idm) by {
        assert(piece_char(locs[s]) != NO_PIECE_ID);
    }
    if idm {
        assert(board_uses_identity(locs, ids2)) by {
            let w = choose|s: int|
                0 <= s < 144 && locs[s] != Piece::Empty && #[trigger] identity_only_char(cell_char(locs[s], ids[s]));
            assert(identity_only_char(cell_char(locs[w], ids2[w])));
        }
    } else {
        assert(!board_uses_identity(locs, ids2)) by {
            if board_uses_identity(locs, ids2) {
                let w = choose|s: int|
                    0 <= s < 144 && locs[s] != Piece::Empty && #[trigger] identity_only_char(cell_char(locs[s], ids2[s]));
                lemma_letter(piece_char(locs[w]), locs[w]);
            }
        }
        assert forall|s: int| 0 <= s < 144 && locs[s] != Piece::Empty implies #[trigger] cell_token(
            cell_char(locs[s], ids[s]),
            locs[s],
            false,
        ) == cell_token(cell_char(locs[s], ids2[s]), locs[s], false) by {
            let p = locs[s];
            let c = cell_char(p, ids[s]);
            lemma_letter(piece_char(p), p);
            assert(!identity_only_char(c));
            if hfen_piece(c, false) == Some(p) {
                if piece_from_char(c) is Some {
                    lemma_letter(c, p);
                }
            }
        }
    }
    lemma_top_ranks_congr(locs, ids, idm, ids2, idm, 12);
}

/// Writing a board's HFEN text, reading it back and writing it again gives
/// the same text, and the board read back has the hash of the position when
/// the board's stored hash is the hash of its position (the conditions of
/// [`lemma_hfen_round_trip`]).
pub proof fn lemma_hfen_rewrite_stable(b: Board, b2: Board)
    requires
        b.wf(),
        ids_writable(b.locs(), b.ids()),
        exists|s: int| 0 <= s < 144 && #[trigger] b.locs()[s] == piece_of(b.side(), PieceType::K),
        b.st().castling.0 < 16,
        b.st().ep_square.0 <= 144,
        hfen_board(board_hfen(b), b2),
    ensures
        board_hfen(b2) == board_hfen(b),
        b.hash_ok() ==> b2.st().zobrist == b.st().zobrist,
{
    lemma_hfen_round_trip(b, b2);
    lemma_read_ids_position(b.locs(), b.ids());
}

// ── The start position ──────────────────────────────────────────────────────

/// The parts `rs` joined with `d` between them.
pub open spec fn joined_with(rs: Seq<Seq<char>>, d: char) -> Seq<char>
    decreases rs.len(),
{
    if rs.len() <= 1 {
        if rs.len() == 0 {
            Seq::empty()
        } else {
            rs[0]
        }
    } else {
        joined_with(rs.drop_last(), d) + seq![d] + rs.last()
    }
}

/// Parts without the separator split back out of their joining.
proof fn lemma_split_joined(rs: Seq<Seq<char>>, d: char)
    requires
        rs.len() >= 1,
        forall|k: int, i: int| 0 <= k < rs.len() && 0 <= i < rs[k].len() ==> #[trigger] rs[k][i] != d,
    ensures
        split_on(joined_with(rs, d), d) == rs,
    decreases rs.len(),
{
    if rs.len() == 1 {
        lemma_split_on_single(rs[0], d);
        assert(seq![rs[0]] =~= rs);
    } else {
        let init = rs.drop_last();
        assert forall|k: int, i: int| 0 <= k < init.len() && 0 <= i < init[k].len() implies #[trigger] init[k][i]
            != d by {
            assert(init[k] == rs[k]);
        }
        lemma_split_joined(init, d);
        lemma_split_on_concat(joined_with(init, d), d, rs.last());
        assert forall|i: int| 0 <= i < rs.last().len() implies rs.last()[i] != d by {
            assert(rs[rs.len() - 1][i] != d);
        }
        lemma_split_on_single(rs.last(), d);
        assert(init + seq![rs.last()] =~= rs);
    }
}

/// Non-empty fields without whitespace split back out of their joining with
/// spaces.
proof fn lemma_split_ws_joined(fs: Seq<Seq<char>>)
    requires
        fs.len() >= 1,
        forall|k: int| 0 <= k < fs.len() ==> (#[trigger] fs[k]).len() > 0,
        forall|k: int, i: int| 0 <= k < fs.len() && 0 <= i < fs[k].len() ==> !is_ws(#[trigger] fs[k][i]),
    ensures
        split_ws(joined_with(fs, ' ')) == fs,
    decreases fs.len(),
{
    if fs.len() == 1 {
        assert(fs[0].len() > 0);
        assert forall|i: int| 0 <= i < fs[0].len() implies !is_ws(fs[0][i]) by {
            assert(!is_ws(fs[0][i]));
        }
        lemma_split_ws_single(fs[0]);
        assert(seq![fs[0]] =~= fs);
    } else {
        let init = fs.drop_last();
        assert forall|k: int| 0 <= k < init.len() implies (#[trigger] init[k]).len() > 0 by {
            assert(init[k] == fs[k]);
        }
        assert forall|k: int, i: int| 0 <= k < init.len() && 0 <= i < init[k].len() implies !is_ws(
            #[trigger] init[k][i],
        ) by {
            assert(init[k] == fs[k]);
        }
        lemma_split_ws_joined(init);
        lemma_split_ws_concat(joined_with(init, ' '), fs.last());
        assert(fs[fs.len() - 1].len() > 0);
        assert forall|i: int| 0 <= i < fs.last().len() implies !is_ws(fs.last()[i]) by {
            assert(!is_ws(fs[fs.len() - 1][i]));
        }
        lemma_split_ws_single(fs.last());
        assert(init + seq![fs.last()] =~= fs);
    }
}

/// A rank of identity characters filling files `file..12` reads as those
/// pieces, one per file.
proof fn lemma_decode_identity_rank(r: Seq<char>, file: int)
    requires
        0 <= file,
        file + r.len() == 12,
        forall|i: int| 0 <= i < r.len() ==> identity_char(#[trigger] r[i]),
    ensures
        decode_rank(r, true, file) == Some(
            Seq::new(r.len(), |k: int| (file + k, identity_piece(r[k])->0, r[k])),
        ),
    decreases r.len(),
{
    if r.len() > 0 {
        let c = r[0];
        lemma_identity_piece(c);
        let rest = r.skip(1);
        assert forall|i: int| 0 <= i < rest.len() implies identity_char(#[trigger] rest[i]) by {
            assert(rest[i] == r[i + 1]);
        }
        lemma_decode_identity_rank(rest, file + 1);
        if r.len() >= 2 {
            lemma_identity_piece(r[1]);
        }
        assert(Seq::new(r.len(), |k: int| (file + k, identity_piece(r[k])->0, r[k])) =~= seq![
            (file, identity_piece(c)->0, c),
        ] + Seq::new(rest.len(), |k: int| (file + 1 + k, identity_piece(rest[k])->0, rest[k])));
    }
}

/// A rank written `12` is empty.
proof fn lemma_decode_empty_rank(idm: bool)
    ensures
        decode_rank(seq!['1', '2'], idm, 0) == Some(Seq::<(int, Piece, char)>::empty()),
{
    reveal_with_fuel(dec_digits, 3);
    assert(dec_digits(12) =~= seq!['1', '2']);
    lemma_decode_run(12, Seq::empty(), idm, 12);
    assert(run_text(12) + Seq::<char>::empty() =~= seq!['1', '2']);
}

/// The ranks of the start position, top rank first.
pub open spec fn start_ranks() -> Seq<Seq<char>> {
    seq![seq!['1', '2'], seq!['a', 'b', 'c', 'd', 'e', 'f', 'g', 'h', 'i', 'j', 'k', 'l'], seq!['m', 'n', 'o', 'p', 'q', 'r', 's', 't', 'u', 'v', 'w', 'x'], seq!['1', '2'], seq!['1', '2'], seq!['1', '2'], seq!['1', '2'], seq!['1', '2'], seq!['1', '2'], seq!['M', 'N', 'O', 'P', 'Q', 'R', 'S', 'T', 'U', 'V', 'W', 'X'], seq!['A', 'B', 'C', 'D', 'E', 'F', 'G', 'H', 'I', 'J', 'K', 'L'], seq!['1', '2']]
}

/// The fields of the start position text.
pub open spec fn start_fields() -> Seq<Seq<char>> {
    seq![joined_with(start_ranks(), '/'), seq!['w'], seq!['-'], seq!['-'], seq!['0'], seq!['1']]
}

/// A king layout has an entry for each side.
proof fn lemma_king_layout_len(ps: Seq<(SQ, Piece, char)>)
    ensures
        king_layout(ps).len() == 2,
    decreases ps.len(),
{
    if ps.len() > 0 {
        lemma_king_layout_len(ps.drop_last());
    }
}

/// The king layout of pieces ending in a white king followed by no king is
/// that king's square for White.
proof fn lemma_king_last(xs: Seq<(SQ, Piece, char)>, ys: Seq<(SQ, Piece, char)>)
    requires
        ys.len() > 0,
        ys[0].1 == Piece::WhiteKing,
        forall|k: int| 1 <= k < ys.len() ==> type_of_piece(#[trigger] ys[k].1) != PieceType::K,
    ensures
        king_layout(xs + ys)[player_index(Player::White)] == ys[0].0,
    decreases ys.len(),
{
    if ys.len() == 1 {
        assert((xs + ys).drop_last() =~= xs);
        assert((xs + ys).last() == ys[0]);
        lemma_king_layout_len(xs);
        assert(type_of_piece(Piece::WhiteKing) == PieceType::K);
        assert(owner_lossy(Piece::WhiteKing) == Player::White);
    } else {
        let yi = ys.drop_last();
        assert forall|k: int| 1 <= k < yi.len() implies type_of_piece(#[trigger] yi[k].1) != PieceType::K by {
            assert(yi[k] == ys[k]);
        }
        lemma_king_last(xs, yi);
        assert((xs + ys).drop_last() =~= xs + yi);
        assert((xs + ys).last() == ys[ys.len() - 1]);
        assert(type_of_piece(ys[ys.len() - 1].1) != PieceType::K);
    }
}

/// The position field of the start position.
pub open spec fn start_position_chars() -> Seq<char> {
    seq!['1', '2', '/', 'a', 'b', 'c', 'd', 'e', 'f', 'g', 'h', 'i', 'j', 'k', 'l', '/', 'm', 'n', 'o', 'p', 'q', 'r', 's', 't', 'u', 'v', 'w', 'x', '/', '1', '2', '/', '1', '2', '/', '1', '2', '/', '1', '2', '/', '1', '2', '/', '1', '2', '/', 'M', 'N', 'O', 'P', 'Q', 'R', 'S', 'T', 'U', 'V', 'W', 'X', '/', 'A', 'B', 'C', 'D', 'E', 'F', 'G', 'H', 'I', 'J', 'K', 'L', '/', '1', '2']
}

/// The start position text is its fields joined by spaces, and splits back
/// into them.
proof fn lemma_start_fields()
    ensures
        split_ws(crate::core_types::masks::START_HFEN@) == start_fields(),
        start_fields()[0] == start_position_chars(),
        start_position_chars() == joined_with(start_ranks(), '/'),
{
    reveal_strlit("12/abcdefghijkl/mnopqrstuvwx/12/12/12/12/12/12/MNOPQRSTUVWX/ABCDEFGHIJKL/12 w - - 0 1");
    let rs = start_ranks();
    let fs = start_fields();
    reveal_with_fuel(joined_with, 13);
    assert(joined_with(rs, '/') =~= start_position_chars());
    assert(crate::core_types::masks::START_HFEN@ =~= joined_with(fs, ' '));
    let pos = start_position_chars();
    assert forall|k: int| 0 <= k < fs.len() implies (#[trigger] fs[k]).len() > 0 by {}
    assert forall|k: int, i: int| 0 <= k < fs.len() && 0 <= i < fs[k].len() implies !is_ws(#[trigger] fs[k][i]) by {
        if k == 0 {
            assert(fs[0] == pos);
        }
    }
    lemma_split_ws_joined(fs);
}

/// The start position field reads as its pieces, with White's king on g2 and
/// no king after it.
#[verifier::rlimit(50)]
proof fn lemma_start_decode()
    ensures
        decode_position(start_position_chars()) is Some,
        king_layout(decode_position(start_position_chars())->0)[player_index(Player::White)].0 < 144,
{
    let rs = start_ranks();
    let pos = start_position_chars();
    assert(pos == joined_with(rs, '/')) by {
        lemma_start_fields();
    }
    assert forall|k: int, i: int| 0 <= k < rs.len() && 0 <= i < rs[k].len() implies #[trigger] rs[k][i] != '/' by {}
    lemma_split_joined(rs, '/');
    assert(identity_only_char(pos[3]));
    assert(uses_identity(pos));
    let e = seq!['1', '2'];
    lemma_decode_empty_rank(true);
    assert(rs[0] == e && rs[3] == e && rs[4] == e && rs[5] == e && rs[6] == e && rs[7] == e && rs[8] == e
        && rs[11] == e);
    lemma_decode_identity_rank(rs[1], 0);
    lemma_decode_identity_rank(rs[2], 0);
    lemma_decode_identity_rank(rs[9], 0);
    lemma_decode_identity_rank(rs[10], 0);
    assert(decode_ranks(rs, true, 0) == Some(Seq::<(SQ, Piece, char)>::empty()));
    assert(decode_rank(rs[0], true, 0) is Some);
    assert(decode_ranks(rs, true, 1) is Some);
    assert(decode_ranks(rs, true, 2) is Some);
    assert(decode_ranks(rs, true, 3) is Some);
    assert(decode_ranks(rs, true, 4) is Some);
    assert(decode_ranks(rs, true, 5) is Some);
    assert(decode_ranks(rs, true, 6) is Some);
    assert(decode_ranks(rs, true, 7) is Some);
    assert(decode_ranks(rs, true, 8) is Some);
    assert(decode_ranks(rs, true, 9) is Some);
    assert(decode_ranks(rs, true, 10) is Some);
    let before = decode_ranks(rs, true, 10)->0;
    let cb = Seq::new(12, |k: int| (k, identity_piece(rs[10][k])->0, rs[10][k]));
    let row = cells_on_rank(cb, 1);
    assert(decode_ranks(rs, true, 11) == Some(before + row));
    assert(decode_ranks(rs, true, 12) == Some(before + row + cells_on_rank(Seq::<(int, Piece, char)>::empty(), 0)));
    let pieces = decode_ranks(rs, true, 12)->0;
    let xs = before + row.take(6);
    let ys = row.skip(6);
    assert(pieces =~= xs + ys);
    assert(rs[10][6] == 'G');
    assert(ys[0].1 == Piece::WhiteKing);
    assert(ys[0].0 == SQ(18));
    assert forall|k: int| 1 <= k < ys.len() implies type_of_piece(#[trigger] ys[k].1) != PieceType::K by {
        assert(ys[k] == row[6 + k]);
        assert(rs[10][6 + k] == 'H' || rs[10][6 + k] == 'I' || rs[10][6 + k] == 'J' || rs[10][6 + k] == 'K'
            || rs[10][6 + k] == 'L');
    }
    lemma_king_last(xs, ys);
}

/// The start position text reads as a position with White to move and a
/// White king on the board.
pub proof fn lemma_start_hfen_ok()
    ensures
        hfen_start_ok(crate::core_types::masks::START_HFEN@),
{
    reveal_strlit("w");
    lemma_start_fields();
    lemma_start_decode();
    let parts = split_ws(crate::core_types::masks::START_HFEN@);
    assert(parts[1] =~= "w"@);
    assert(turn_of(parts[1]) == Some(Player::White));
}

} // verus!
