//! HFEN-I / HPGN-I game records.
//!
//! [`GameRecord`] reads and writes a HyperChess game:
//! - `.hpgni` text — tag pairs + numbered HPGN-I movetext (`to_hpgni` /
//!   `from_hpgni`).
//! - `.hfeni` text — every HFEN-I position of the game, one per line,
//!   produced by replaying `start_hfen` through `moves` (`to_hfeni` /
//!   `positions`).

use vstd::prelude::*;

use crate::board::hfen::{board_hfen, split_chars, split_on};
use crate::board::{hfen_board, hfen_start_ok, Board};
use crate::core_types::masks::START_HFEN;
use crate::core_types::piece_identity::NO_PIECE_ID;
use crate::core_types::piece_move::{move_text_with_identity, strip_identity_chars, uci_part, HyperMove};
use crate::game_replay::{
    board_has_room, game_positions, has_room, legal_move_by_text, play, played, played_at,
    replay_chain, written_move,
};
use crate::io::hsan_parse::first_index;
use crate::text::{
    all_digits, chars_eq_str, chars_of, dec_digits, extend_chars, extend_str, is_ascii_digit, push_decimal,
    split_whitespace, split_ws, string_from, sub_chars, trim, trim_chars, trim_matches,
    trim_matches_chars,
};

verus! {

/// A full HyperChess game: metadata tags, the starting HFEN-I position, and
/// the HPGN-I move list (one entry per ply).
#[derive(Debug, Clone, PartialEq, Eq)]
pub struct GameRecord {
    /// HPGN `Event` tag.
    pub event: String,
    /// HPGN `Site` tag.
    pub site: String,
    /// HPGN `Date` tag, conventionally `YYYY.MM.DD`.
    pub date: String,
    /// White player or engine name.
    pub white: String,
    /// Black player or engine name.
    pub black: String,
    /// `"1-0"` | `"0-1"` | `"1/2-1/2"` | `"*"` (in progress / unknown).
    pub result: String,
    /// Position the move list starts from.
    pub start_hfen: String,
    /// One HPGN-I string per ply, e.g. `"M:a3a4"`, or plain UCI (`"a3a4"`).
    pub moves: Vec<String>,
}

/// The texts of a list of strings.
pub open spec fn texts_of(v: Seq<String>) -> Seq<Seq<char>> {
    v.map_values(|s: String| s@)
}

/// The plain UCI parts of a list of HPGN-I moves.
pub open spec fn uci_texts(v: Seq<String>) -> Seq<Seq<char>> {
    v.map_values(|s: String| uci_part(s@))
}

/// The HFEN text of the standard start position as the library builds it.
pub open spec fn is_start_hfen(t: Seq<char>) -> bool {
    exists|b: Board|
        {
            &&& b.ready()
            &&& (hfen_start_ok(START_HFEN@) ==> hfen_board(START_HFEN@, b))
            &&& t == board_hfen(b)
        }
}

// ── HPGN-I writing ──────────────────────────────────────────────────────────

/// `s` with backslashes and double quotes escaped by a backslash.
pub open spec fn escape_text(s: Seq<char>) -> Seq<char>
    decreases s.len(),
{
    if s.len() == 0 {
        Seq::empty()
    } else {
        escape_text(s.drop_last()) + if s.last() == '\\' {
            seq!['\\', '\\']
        } else if s.last() == '"' {
            seq!['\\', '"']
        } else {
            seq![s.last()]
        }
    }
}

/// A tag pair line.
pub open spec fn tag_text(name: Seq<char>, value: Seq<char>) -> Seq<char> {
    seq!['['] + name + seq![' ', '"'] + escape_text(value) + seq!['"', ']', '\n']
}

/// Numbered movetext: the move number before every white move, each move
/// followed by a space.
pub open spec fn movetext(ms: Seq<Seq<char>>) -> Seq<char>
    decreases ms.len(),
{
    if ms.len() == 0 {
        Seq::empty()
    } else {
        let i = ms.len() - 1;
        movetext(ms.drop_last()) + (if i % 2 == 0 {
            dec_digits((i / 2 + 1) as nat) + seq!['.', ' ']
        } else {
            Seq::<char>::empty()
        }) + ms.last() + seq![' ']
    }
}

/// The `.hpgni` text of a record.
pub open spec fn hpgni_text(r: GameRecord) -> Seq<char> {
    tag_text("Event"@, r.event@) + tag_text("Site"@, r.site@) + tag_text("Date"@, r.date@) + tag_text(
        "White"@,
        r.white@,
    ) + tag_text("Black"@, r.black@) + tag_text("Result"@, r.result@) + tag_text("HFEN"@, r.start_hfen@)
        + seq!['\n'] + movetext(texts_of(r.moves@)) + r.result@ + seq!['\n']
}

/// Appends `s` escaped.
pub(crate) fn push_escaped(out: &mut Vec<char>, s: &String)
    ensures
        final(out)@ == old(out)@ + escape_text(s@),
{
    let v = chars_of(s.as_str());
    let ghost start = out@;
    let mut i: usize = 0;
    while i < v.len()
        invariant
            i <= v.len(),
            v@ == s@,
            out@ == start + escape_text(v@.take(i as int)),
        decreases v.len() - i,
    {
        let c = v[i];
        assert(v@.take(i + 1).drop_last() =~= v@.take(i as int));
        if c == '\\' {
            out.push('\\');
            out.push('\\');
        } else if c == '"' {
            out.push('\\');
            out.push('"');
        } else {
            out.push(c);
        }
        i += 1;
        assert(out@ =~= start + escape_text(v@.take(i as int)));
    }
    assert(v@.take(v.len() as int) =~= v@);
}

/// Appends a tag pair line.
fn push_tag(out: &mut Vec<char>, name: &str, value: &String)
    ensures
        final(out)@ == old(out)@ + tag_text(name@, value@),
{
    let ghost start = out@;
    out.push('[');
    extend_str(out, name);
    out.push(' ');
    out.push('"');
    push_escaped(out, value);
    out.push('"');
    out.push(']');
    out.push('\n');
    assert(out@ =~= start + tag_text(name@, value@));
}

// ── HPGN-I reading ──────────────────────────────────────────────────────────

/// The non-blank lines of raw lines, trimmed.
pub open spec fn kept_lines(raw: Seq<Seq<char>>) -> Seq<Seq<char>>
    decreases raw.len(),
{
    if raw.len() == 0 {
        Seq::empty()
    } else {
        kept_lines(raw.drop_last()) + if trim(raw.last()).len() > 0 {
            seq![trim(raw.last())]
        } else {
            Seq::<Seq<char>>::empty()
        }
    }
}

/// The trimmed non-blank lines of a text.
pub open spec fn text_lines(text: Seq<char>) -> Seq<Seq<char>> {
    kept_lines(split_on(text, '\n'))
}

/// A tag pair line starts with `[`.
pub open spec fn is_tag_line(l: Seq<char>) -> bool {
    l.len() > 0 && l[0] == '['
}

/// The inside of a tag line: without the `[` and one closing `]`.
pub open spec fn tag_body(l: Seq<char>) -> Seq<char> {
    let rest = l.drop_first();
    if rest.len() > 0 && rest.last() == ']' {
        rest.drop_last()
    } else {
        rest
    }
}

/// The key and value of a tag line: the key up to the first space, the
/// value after it, trimmed and without surrounding double quotes.
pub open spec fn tag_of(l: Seq<char>) -> Option<(Seq<char>, Seq<char>)> {
    if !is_tag_line(l) {
        None
    } else {
        let b = tag_body(l);
        let k = first_index(b, ' ');
        if k >= b.len() {
            None
        } else {
            Some((b.take(k), trim_matches(trim(b.skip(k + 1)), '"')))
        }
    }
}

/// The value of the last tag `key` among the lines.
pub open spec fn last_tag(ls: Seq<Seq<char>>, key: Seq<char>) -> Option<Seq<char>>
    decreases ls.len(),
{
    if ls.len() == 0 {
        None
    } else {
        match tag_of(ls.last()) {
            Some(kv) => if kv.0 == key {
                Some(kv.1)
            } else {
                last_tag(ls.drop_last(), key)
            },
            None => last_tag(ls.drop_last(), key),
        }
    }
}

/// Adding a line to the lines updates the last tag only for its own key.
proof fn lemma_last_tag_push(prev: Seq<Seq<char>>, l: Seq<char>, key: Seq<char>)
    ensures
        last_tag(prev.push(l), key) == match tag_of(l) {
            Some(kv) => if kv.0 == key {
                Some(kv.1)
            } else {
                last_tag(prev, key)
            },
            None => last_tag(prev, key),
        },
{
    assert(prev.push(l).drop_last() =~= prev);
}

/// The value of the last tag `key`, or `default`.
pub open spec fn tag_or(ls: Seq<Seq<char>>, key: Seq<char>, default: Seq<char>) -> Seq<char> {
    match last_tag(ls, key) {
        Some(v) => v,
        None => default,
    }
}

/// The whitespace-separated tokens of the movetext lines.
pub open spec fn movetext_tokens(ls: Seq<Seq<char>>) -> Seq<Seq<char>>
    decreases ls.len(),
{
    if ls.len() == 0 {
        Seq::empty()
    } else {
        movetext_tokens(ls.drop_last()) + if is_tag_line(ls.last()) {
            Seq::<Seq<char>>::empty()
        } else {
            split_ws(ls.last())
        }
    }
}

/// The tokens of the lines `prev` followed by a movetext line `l`.
pub open spec fn prev_tokens_then(prev: Seq<Seq<char>>, l: Seq<char>) -> Seq<Seq<char>> {
    movetext_tokens(prev) + split_ws(l)
}

/// A move number token: digits then a dot.
pub open spec fn is_move_number(t: Seq<char>) -> bool {
    t.len() >= 2 && t.last() == '.' && all_digits(t.drop_last())
}

/// A game result token.
pub open spec fn is_result_token(t: Seq<char>) -> bool {
    t == "1-0"@ || t == "0-1"@ || t == "1/2-1/2"@ || t == "*"@
}

/// The move tokens: neither move numbers nor results.
pub open spec fn is_move_token(t: Seq<char>) -> bool {
    !is_move_number(t) && !is_result_token(t)
}

/// The last result token.
pub open spec fn last_result(toks: Seq<Seq<char>>) -> Option<Seq<char>>
    decreases toks.len(),
{
    if toks.len() == 0 {
        None
    } else if is_result_token(toks.last()) {
        Some(toks.last())
    } else {
        last_result(toks.drop_last())
    }
}

/// The record `.hpgni` text describes, given the start position text
/// `start` used when no `HFEN` tag is present.
pub open spec fn hpgni_record_ok(text: Seq<char>, r: GameRecord) -> bool {
    let ls = text_lines(text);
    let toks = movetext_tokens(ls);
    &&& r.event@ == tag_or(ls, "Event"@, "HyperChess"@)
    &&& r.site@ == tag_or(ls, "Site"@, "-"@)
    &&& r.date@ == tag_or(ls, "Date"@, "-"@)
    &&& r.white@ == tag_or(ls, "White"@, "?"@)
    &&& r.black@ == tag_or(ls, "Black"@, "?"@)
    &&& r.result@ == match last_result(toks) {
        Some(t) => t,
        None => tag_or(ls, "Result"@, "*"@),
    }
    &&& match last_tag(ls, "HFEN"@) {
        Some(v) => r.start_hfen@ == v,
        None => is_start_hfen(r.start_hfen@),
    }
    &&& texts_of(r.moves@) == toks.filter(|t: Seq<char>| is_move_token(t))
}

/// Executable [`is_move_number`].
fn move_number(t: &Vec<char>) -> (r: bool)
    ensures
        r == is_move_number(t@),
{
    let n = t.len();
    if n < 2 || t[n - 1] != '.' {
        return false;
    }
    let mut i: usize = 0;
    while i < n - 1
        invariant
            n == t.len(),
            n >= 2,
            i <= n - 1,
            forall|j: int| 0 <= j < i ==> crate::text::is_digit(#[trigger] t@[j]),
        decreases n - 1 - i,
    {
        if !is_ascii_digit(t[i]) {
            assert(!crate::text::is_digit(t@.drop_last()[i as int]));
            return false;
        }
        i += 1;
    }
    assert(all_digits(t@.drop_last()));
    true
}

/// Executable [`is_result_token`].
fn result_token(t: &Vec<char>) -> (r: bool)
    ensures
        r == is_result_token(t@),
{
    chars_eq_str(t, "1-0") || chars_eq_str(t, "0-1") || chars_eq_str(t, "1/2-1/2") || chars_eq_str(t, "*")
}

/// The key and value of a tag line.
fn parse_tag_line(line: &Vec<char>) -> (r: Option<(Vec<char>, Vec<char>)>)
    requires
        is_tag_line(line@),
    ensures
        match r {
            Some((k, v)) => tag_of(line@) == Some((k@, v@)),
            None => tag_of(line@) is None,
        },
{
    let n = line.len();
    let mut rest = sub_chars(line, 1, n);
    assert(rest@ =~= line@.drop_first());
    let m = rest.len();
    if m > 0 && rest[m - 1] == ']' {
        rest = sub_chars(&rest, 0, m - 1);
        assert(rest@ =~= line@.drop_first().drop_last());
    }
    assert(rest@ == tag_body(line@));
    let mut k: usize = 0;
    while k < rest.len() && rest[k] != ' '
        invariant
            k <= rest.len(),
            forall|j: int| 0 <= j < k ==> rest@[j] != ' ',
        decreases rest.len() - k,
    {
        k += 1;
    }
    proof {
        crate::io::hsan_parse::lemma_first_index(rest@, ' ');
        let f = first_index(rest@, ' ');
        if f < k {
            assert(rest@[f] == ' ');
        }
        if k < rest.len() {
            assert(rest@[k as int] == ' ');
        }
        assert(f == k);
    }
    if k >= rest.len() {
        return None;
    }
    let key = sub_chars(&rest, 0, k);
    let after = sub_chars(&rest, k + 1, rest.len());
    assert(after@ =~= rest@.skip(k + 1));
    let t = trim_chars(&after);
    let value = trim_matches_chars(&t, '"');
    assert(key@ =~= rest@.take(k as int));
    Some((key, value))
}

impl GameRecord {
    /// A new, empty game starting from the standard HyperChess position.
    pub fn new(white: &str, black: &str) -> (r: Self)
        ensures
            r.event@ == "HyperChess"@,
            r.site@ == "-"@,
            r.date@ == "-"@,
            r.white@ == white@,
            r.black@ == black@,
            r.result@ == "*"@,
            is_start_hfen(r.start_hfen@),
            r.moves@.len() == 0,
    {
        let b = Board::start_pos();
        let start_hfen = b.get_hfen();
        GameRecord {
            event: text_string("HyperChess"),
            site: text_string("-"),
            date: text_string("-"),
            white: text_string(white),
            black: text_string(black),
            result: text_string("*"),
            start_hfen,
            moves: Vec::new(),
        }
    }

    /// Append one ply, already rendered as HPGN-I. The record does no
    /// legality checking here; that only happens on replay in
    /// [`GameRecord::positions`].
    pub fn push_move(&mut self, hpgn_i_move: &str)
        ensures
            final(self).moves@.len() == old(self).moves@.len() + 1,
            texts_of(final(self).moves@) == texts_of(old(self).moves@).push(hpgn_i_move@),
            final(self).event == old(self).event,
            final(self).site == old(self).site,
            final(self).date == old(self).date,
            final(self).white == old(self).white,
            final(self).black == old(self).black,
            final(self).result == old(self).result,
            final(self).start_hfen == old(self).start_hfen,
    {
        let s = text_string(hpgn_i_move);
        self.moves.push(s);
        assert(texts_of(self.moves@) =~= texts_of(old(self).moves@).push(hpgn_i_move@));
    }

    /// Parse `.hpgni` text back into a `GameRecord`. Movetext tokens may be
    /// HPGN-I (`M:a3a4`) or plain UCI (`a3a4`); moves are not checked here.
    pub fn from_hpgni(text: &str) -> (r: Result<Self, String>)
        ensures
            r matches Ok(rec) && hpgni_record_ok(text@, rec),
    {
        proof {
            reveal_strlit("Event");
            reveal_strlit("Site");
            reveal_strlit("Date");
            reveal_strlit("White");
            reveal_strlit("Black");
            reveal_strlit("Result");
            reveal_strlit("HFEN");
        }
        let mut rec = GameRecord::new("?", "?");
        let chars = chars_of(text);
        let raw = split_chars(&chars, '\n');
        let ghost rawv = split_on(text@, '\n');
        let ghost mut kept: Seq<Seq<char>> = Seq::empty();
        let mut tokens: Vec<Vec<char>> = Vec::new();
        let mut i: usize = 0;
        assert(rawv.take(0) =~= Seq::<Seq<char>>::empty());
        assert(tokens@.map_values(|t: Vec<char>| t@) =~= Seq::<Seq<char>>::empty());
        while i < raw.len()
            invariant
                i <= raw@.len(),
                raw@.len() == rawv.len(),
                rawv == split_on(text@, '\n'),
                forall|k: int| 0 <= k < raw@.len() ==> #[trigger] raw@[k]@ == rawv[k],
                kept == kept_lines(rawv.take(i as int)),
                rec.event@ == tag_or(kept, "Event"@, "HyperChess"@),
                rec.site@ == tag_or(kept, "Site"@, "-"@),
                rec.date@ == tag_or(kept, "Date"@, "-"@),
                rec.white@ == tag_or(kept, "White"@, "?"@),
                rec.black@ == tag_or(kept, "Black"@, "?"@),
                rec.result@ == tag_or(kept, "Result"@, "*"@),
                match last_tag(kept, "HFEN"@) {
                    Some(v) => rec.start_hfen@ == v,
                    None => is_start_hfen(rec.start_hfen@),
                },
                rec.moves@.len() == 0,
                tokens@.map_values(|t: Vec<char>| t@) == movetext_tokens(kept),
            decreases raw@.len() - i,
        {
            let line = trim_chars(&raw[i]);
            let ghost prev = kept;
            proof {
                assert(rawv.take(i + 1).drop_last() =~= rawv.take(i as int));
                assert(rawv.take(i + 1).last() == rawv[i as int]);
            }
            if line.len() > 0 {
                proof {
                    kept = prev.push(line@);
                    assert(kept.drop_last() =~= prev);
                    assert(kept == kept_lines(rawv.take(i + 1)));
                    lemma_last_tag_push(prev, line@, "Event"@);
                    lemma_last_tag_push(prev, line@, "Site"@);
                    lemma_last_tag_push(prev, line@, "Date"@);
                    lemma_last_tag_push(prev, line@, "White"@);
                    lemma_last_tag_push(prev, line@, "Black"@);
                    lemma_last_tag_push(prev, line@, "Result"@);
                    lemma_last_tag_push(prev, line@, "HFEN"@);
                }
                if line[0] == '[' {
                    assert(movetext_tokens(kept) == movetext_tokens(prev));
                    match parse_tag_line(&line) {
                        Some((key, value)) => {
                            rec.apply_tag(&key, &value);
                        },
                        None => {},
                    }
                } else {
                    let toks = split_whitespace(&line);
                    let ghost base = tokens@.map_values(|t: Vec<char>| t@);
                    let mut j: usize = 0;
                    while j < toks.len()
                        invariant
                            j <= toks@.len(),
                            toks@.len() == split_ws(line@).len(),
                            forall|k: int| 0 <= k < toks@.len() ==> #[trigger] toks@[k]@ == split_ws(line@)[k],
                            tokens@.map_values(|t: Vec<char>| t@) == base + split_ws(line@).take(j as int),
                        decreases toks@.len() - j,
                    {
                        let t = sub_chars(&toks[j], 0, toks[j].len());
                        assert(t@ =~= toks@[j as int]@);
                        let ghost old_view = tokens@.map_values(|t: Vec<char>| t@);
                        tokens.push(t);
                        assert(tokens@.map_values(|t: Vec<char>| t@) =~= old_view.push(t@));
                        assert(split_ws(line@).take(j + 1) =~= split_ws(line@).take(j as int).push(
                            split_ws(line@)[j as int],
                        ));
                        j += 1;
                        assert(tokens@.map_values(|t: Vec<char>| t@) =~= base + split_ws(line@).take(j as int));
                    }
                    assert(split_ws(line@).take(toks@.len() as int) =~= split_ws(line@));
                    assert(movetext_tokens(kept) == prev_tokens_then(prev, line@));
                }
            } else {
                assert(kept == kept_lines(rawv.take(i + 1)));
            }
            i += 1;
        }
        assert(rawv.take(raw@.len() as int) =~= rawv);
        let ghost toks = movetext_tokens(kept);
        let mut moves: Vec<String> = Vec::new();
        let mut res_tok: Option<Vec<char>> = None;
        let mut j: usize = 0;
        assert(texts_of(moves@) =~= Seq::<Seq<char>>::empty());
        while j < tokens.len()
            invariant
                j <= tokens@.len(),
                tokens@.map_values(|t: Vec<char>| t@) == toks,
                texts_of(moves@) == toks.take(j as int).filter(|t: Seq<char>| is_move_token(t)),
                match res_tok {
                    Some(t) => last_result(toks.take(j as int)) == Some(t@),
                    None => last_result(toks.take(j as int)) is None,
                },
            decreases tokens@.len() - j,
        {
            let tok = &tokens[j];
            let ghost pre = toks.take(j as int);
            let ghost next = toks.take(j + 1);
            proof {
                reveal(Seq::filter);
                assert(next.drop_last() =~= pre);
                assert(next.last() == tok@);
            }
            if move_number(tok) {
                assert(!is_result_token(tok@)) by {
                    reveal_strlit("1-0");
                    reveal_strlit("0-1");
                    reveal_strlit("1/2-1/2");
                    reveal_strlit("*");
                    if is_result_token(tok@) {
                        assert(tok@.last() == '.');
                    }
                }
                assert(last_result(next) == last_result(pre));
            } else if result_token(tok) {
                res_tok = Some(sub_chars(tok, 0, tok.len()));
                assert(res_tok->0@ =~= tok@);
                assert(last_result(next) == Some(tok@));
            } else {
                assert(last_result(next) == last_result(pre));
                moves.push(string_from(tok));
                assert(texts_of(moves@) =~= texts_of(moves@).drop_last().push(tok@));
            }
            j += 1;
        }
        assert(toks.take(tokens@.len() as int) =~= toks);
        match res_tok {
            Some(t) => {
                rec.result = string_from(&t);
            },
            None => {},
        }
        rec.moves = moves;
        Ok(rec)
    }

    /// Sets the field a tag names (`Event`, `Site`, `Date`, `White`,
    /// `Black`, `Result` or `HFEN`); other tags are ignored.
    fn apply_tag(&mut self, key: &Vec<char>, value: &Vec<char>)
        ensures
            final(self).event@ == (if key@ == "Event"@ { value@ } else { old(self).event@ }),
            final(self).site@ == (if key@ == "Site"@ { value@ } else { old(self).site@ }),
            final(self).date@ == (if key@ == "Date"@ { value@ } else { old(self).date@ }),
            final(self).white@ == (if key@ == "White"@ { value@ } else { old(self).white@ }),
            final(self).black@ == (if key@ == "Black"@ { value@ } else { old(self).black@ }),
            final(self).result@ == (if key@ == "Result"@ { value@ } else { old(self).result@ }),
            final(self).start_hfen@ == (if key@ == "HFEN"@ { value@ } else { old(self).start_hfen@ }),
            final(self).moves == old(self).moves,
    {
        proof {
            reveal_strlit("Event");
            reveal_strlit("Site");
            reveal_strlit("Date");
            reveal_strlit("White");
            reveal_strlit("Black");
            reveal_strlit("Result");
            reveal_strlit("HFEN");
            assert("Event"@[0] == 'E' && "Site"@[0] == 'S' && "Date"@[0] == 'D' && "White"@[0] == 'W'
                && "Black"@[0] == 'B' && "Result"@[0] == 'R' && "HFEN"@[0] == 'H');
        }
        if chars_eq_str(key, "Event") {
            self.event = string_from(value);
        } else if chars_eq_str(key, "Site") {
            self.site = string_from(value);
        } else if chars_eq_str(key, "Date") {
            self.date = string_from(value);
        } else if chars_eq_str(key, "White") {
            self.white = string_from(value);
        } else if chars_eq_str(key, "Black") {
            self.black = string_from(value);
        } else if chars_eq_str(key, "Result") {
            self.result = string_from(value);
        } else if chars_eq_str(key, "HFEN") {
            self.start_hfen = string_from(value);
        }
    }

    /// Replay `start_hfen` through `moves` and return every HFEN-I position
    /// in the game: the start first, then the position after each ply.
    /// Fails when the start does not parse or a move is not legal where it
    /// is played.
    pub fn positions(&self) -> (r: Result<Vec<String>, String>)
        ensures
            !hfen_start_ok(self.start_hfen@) ==> r is Err,
            r is Err && hfen_start_ok(self.start_hfen@) ==> exists|i: int, boards: Seq<Board>|
                0 <= i < self.moves@.len() && #[trigger] game_positions(
                    self.start_hfen@,
                    uci_texts(self.moves@).take(i),
                    boards,
                ) && (!written_move(boards.last(), uci_texts(self.moves@)[i]) || !has_room(
                    boards.last(),
                )),
            r matches Ok(out) ==> exists|boards: Seq<Board>|
                {
                    &&& game_positions(self.start_hfen@, uci_texts(self.moves@), boards)
                    &&& boards.len() == self.moves@.len() + 1
                    &&& texts_of(out@) == boards.map_values(|b: Board| board_hfen(b))
                },
    {
        let mut board = match Board::from_hfen(self.start_hfen.as_str()) {
            Ok(b) => b,
            Err(e) => {
                return Err(e);
            },
        };
        let ghost texts = uci_texts(self.moves@);
        let ghost mut boards: Seq<Board> = seq![board];
        let mut out: Vec<String> = Vec::new();
        out.push(board.get_hfen());
        assert(texts_of(out@) =~= boards.map_values(|b: Board| board_hfen(b)));
        let mut i: usize = 0;
        while i < self.moves.len()
            invariant
                i <= self.moves@.len(),
                texts == uci_texts(self.moves@),
                board.ready(),
                hfen_board(self.start_hfen@, boards[0]),
                replay_chain(boards, texts.take(i as int)),
                boards.last() == board,
                texts_of(out@) == boards.map_values(|b: Board| board_hfen(b)),
            decreases self.moves@.len() - i,
        {
            let mv = chars_of(self.moves[i].as_str());
            let uci = strip_identity_chars(&mv);
            let found = legal_move_by_text(&board, &uci);
            proof {
                assert(game_positions(self.start_hfen@, texts.take(i as int), boards)) by {
                    reveal(game_positions);
                }
                assert(uci@ == texts[i as int]);
            }
            let m = match found {
                Some(m) => m,
                None => {
                    return Err(illegal_move_message(i + 1, &mv));
                },
            };
            if !board_has_room(&board) {
                return Err(illegal_move_message(i + 1, &mv));
            }
            let ghost before = board;
            play(&mut board, m);
            let h = board.get_hfen();
            let ghost old_out = out@;
            out.push(h);
            proof {
                let next = boards.push(board);
                let t1 = texts.take(i + 1);
                assert(t1[i as int] == uci@);
                assert(played(before, m, t1[i as int], board));
                assert forall|j: int| 0 <= j < t1.len() implies #[trigger] played_at(next, t1, j) by {
                    if j < i {
                        assert(played_at(boards, texts.take(i as int), j));
                        assert(next[j] == boards[j] && next[j + 1] == boards[j + 1]);
                        assert(t1[j] == texts.take(i as int)[j]);
                    } else {
                        assert(next[j] == before && next[j + 1] == board);
                    }
                }
                assert(texts_of(out@) =~= texts_of(old_out).push(board_hfen(board)));
                assert(next.map_values(|b: Board| board_hfen(b)) =~= boards.map_values(
                    |b: Board| board_hfen(b),
                ).push(board_hfen(board)));
                boards = next;
            }
            i += 1;
        }
        assert(texts.take(self.moves@.len() as int) =~= texts);
        assert(game_positions(self.start_hfen@, texts, boards)) by {
            reveal(game_positions);
        }
        Ok(out)
    }

    /// Replay the full game and return the final HFEN-I position.
    pub fn final_hfen(&self) -> (r: Result<String, String>)
        ensures
            !hfen_start_ok(self.start_hfen@) ==> r is Err,
            r is Err && hfen_start_ok(self.start_hfen@) ==> exists|i: int, boards: Seq<Board>|
                0 <= i < self.moves@.len() && #[trigger] game_positions(
                    self.start_hfen@,
                    uci_texts(self.moves@).take(i),
                    boards,
                ) && (!written_move(boards.last(), uci_texts(self.moves@)[i]) || !has_room(
                    boards.last(),
                )),
            r matches Ok(h) ==> exists|boards: Seq<Board>|
                {
                    &&& game_positions(self.start_hfen@, uci_texts(self.moves@), boards)
                    &&& boards.len() == self.moves@.len() + 1
                    &&& h@ == board_hfen(boards.last())
                },
    {
        let mut ps = match self.positions() {
            Ok(ps) => ps,
            Err(e) => {
                return Err(e);
            },
        };
        let ghost boards = choose|boards: Seq<Board>|
            {
                &&& game_positions(self.start_hfen@, uci_texts(self.moves@), boards)
                &&& boards.len() == self.moves@.len() + 1
                &&& texts_of(ps@) == boards.map_values(|b: Board| board_hfen(b))
            };
        assert(texts_of(ps@).len() == ps@.len());
        assert(boards.map_values(|b: Board| board_hfen(b)).len() == boards.len());
        assert(ps@.len() == boards.len());
        let ghost all = ps@;
        match ps.pop() {
            Some(h) => {
                assert(h == all[all.len() - 1]);
                assert(texts_of(all)[all.len() - 1] == h@);
                Ok(h)
            },
            None => Err(text_string("empty position list")),
        }
    }

    /// Serialize every position of the game as HFEN-I, one per line (start
    /// position first).
    pub fn to_hfeni(&self) -> (r: Result<String, String>)
        ensures
            !hfen_start_ok(self.start_hfen@) ==> r is Err,
            r is Err && hfen_start_ok(self.start_hfen@) ==> exists|i: int, boards: Seq<Board>|
                0 <= i < self.moves@.len() && #[trigger] game_positions(
                    self.start_hfen@,
                    uci_texts(self.moves@).take(i),
                    boards,
                ) && (!written_move(boards.last(), uci_texts(self.moves@)[i]) || !has_room(
                    boards.last(),
                )),
            r matches Ok(t) ==> exists|boards: Seq<Board>|
                {
                    &&& game_positions(self.start_hfen@, uci_texts(self.moves@), boards)
                    &&& boards.len() == self.moves@.len() + 1
                    &&& t@ == joined_lines(boards.map_values(|b: Board| board_hfen(b))) + seq!['\n']
                },
    {
        let ps = match self.positions() {
            Ok(ps) => ps,
            Err(e) => {
                return Err(e);
            },
        };
        let mut out: Vec<char> = Vec::new();
        let mut i: usize = 0;
        while i < ps.len()
            invariant
                i <= ps@.len(),
                out@ == joined_lines(texts_of(ps@).take(i as int)),
            decreases ps@.len() - i,
        {
            let ghost before = out@;
            let ghost t = texts_of(ps@).take(i + 1);
            assert(t.drop_last() =~= texts_of(ps@).take(i as int));
            if i > 0 {
                out.push('\n');
            }
            let p = chars_of(ps[i].as_str());
            extend_chars(&mut out, &p);
            proof {
                if i == 0 {
                    assert(out@ =~= t[0]);
                } else {
                    assert(out@ =~= before + seq!['\n'] + t.last());
                }
            }
            i += 1;
        }
        assert(texts_of(ps@).take(ps@.len() as int) =~= texts_of(ps@));
        out.push('\n');
        Ok(string_from(&out))
    }

    /// Serialize to the canonical `.hpgni` text: tag pairs, a blank line,
    /// then numbered HPGN-I movetext terminated by the result.
    pub fn to_hpgni(&self) -> (r: String)
        ensures
            r@ == hpgni_text(*self),
    {
        let mut out: Vec<char> = Vec::new();
        push_tag(&mut out, "Event", &self.event);
        push_tag(&mut out, "Site", &self.site);
        push_tag(&mut out, "Date", &self.date);
        push_tag(&mut out, "White", &self.white);
        push_tag(&mut out, "Black", &self.black);
        push_tag(&mut out, "Result", &self.result);
        push_tag(&mut out, "HFEN", &self.start_hfen);
        out.push('\n');
        let ghost head = out@;
        let mut i: usize = 0;
        while i < self.moves.len()
            invariant
                i <= self.moves@.len(),
                out@ == head + movetext(texts_of(self.moves@).take(i as int)),
            decreases self.moves@.len() - i,
        {
            let ghost before = out@;
            let ghost ms = texts_of(self.moves@).take(i + 1);
            assert(ms.drop_last() =~= texts_of(self.moves@).take(i as int));
            if i % 2 == 0 {
                push_decimal(&mut out, (i / 2 + 1) as u64);
                out.push('.');
                out.push(' ');
            }
            let mv = chars_of(self.moves[i].as_str());
            extend_chars(&mut out, &mv);
            out.push(' ');
            proof {
                assert(ms.last() == self.moves@[i as int]@);
                let num = if i % 2 == 0 {
                    dec_digits((i / 2 + 1) as nat) + seq!['.', ' ']
                } else {
                    Seq::<char>::empty()
                };
                assert(out@ =~= before + num + ms.last() + seq![' ']);
            }
            i += 1;
        }
        assert(texts_of(self.moves@).take(self.moves@.len() as int) =~= texts_of(self.moves@));
        let res = chars_of(self.result.as_str());
        extend_chars(&mut out, &res);
        out.push('\n');
        string_from(&out)
    }
}

/// Line `i` of `parts` (the text split at newlines) without its line
/// ending: a carriage return before the newline goes with it.
pub open spec fn line_at(parts: Seq<Seq<char>>, i: int) -> Seq<char> {
    let p = parts[i];
    if i + 1 < parts.len() && p.len() > 0 && p.last() == '\r' {
        p.drop_last()
    } else {
        p
    }
}

/// The non-empty lines among the first `n` of `parts`.
pub open spec fn nonempty_lines(parts: Seq<Seq<char>>, n: int) -> Seq<Seq<char>>
    decreases n,
{
    if n <= 0 {
        Seq::empty()
    } else if line_at(parts, n - 1).len() > 0 {
        nonempty_lines(parts, n - 1).push(line_at(parts, n - 1))
    } else {
        nonempty_lines(parts, n - 1)
    }
}

/// The positions of a `.hfeni` text: its non-empty lines.
pub fn hfeni_position_lines(text: &str) -> (r: Vec<String>)
    ensures
        texts_of(r@) == nonempty_lines(split_on(text@, '\n'), split_on(text@, '\n').len() as int),
{
    let chars = chars_of(text);
    let parts = split_chars(&chars, '\n');
    let ghost ps = split_on(text@, '\n');
    let mut out: Vec<String> = Vec::new();
    let mut i: usize = 0;
    while i < parts.len()
        invariant
            i <= parts@.len(),
            parts@.len() == ps.len(),
            forall|k: int| 0 <= k < parts@.len() ==> #[trigger] parts@[k]@ == ps[k],
            texts_of(out@) == nonempty_lines(ps, i as int),
        decreases parts@.len() - i,
    {
        let p = &parts[i];
        let n = p.len();
        let line = if i + 1 < parts.len() && n > 0 && p[n - 1] == '\r' {
            sub_chars(p, 0, n - 1)
        } else {
            sub_chars(p, 0, n)
        };
        assert(line@ =~= line_at(ps, i as int));
        if line.len() > 0 {
            let ghost before = out@;
            out.push(string_from(&line));
            assert(texts_of(out@) =~= texts_of(before).push(line@));
        }
        i += 1;
    }
    out
}

/// The lines joined by newlines.
pub open spec fn joined_lines(ps: Seq<Seq<char>>) -> Seq<char>
    decreases ps.len(),
{
    if ps.len() == 0 {
        Seq::empty()
    } else if ps.len() == 1 {
        ps[0]
    } else {
        joined_lines(ps.drop_last()) + seq!['\n'] + ps.last()
    }
}

/// The error for a recorded move that cannot be replayed.
fn illegal_move_message(n: usize, mv: &Vec<char>) -> (r: String)
    ensures
        r@ == "move "@ + dec_digits(n as nat) + ": '"@ + mv@ + "' is not legal"@,
{
    let mut v: Vec<char> = Vec::new();
    extend_str(&mut v, "move ");
    push_decimal(&mut v, n as u64);
    extend_str(&mut v, ": '");
    extend_chars(&mut v, mv);
    extend_str(&mut v, "' is not legal");
    string_from(&v)
}

// ── Free functions ──────────────────────────────────────────────────────────

/// Parse an HFEN-I position string into a `Board`.
pub fn parse_hfen_i(hfen: &str) -> (r: Result<Board, String>)
    ensures
        match r {
            Ok(b) => hfen_board(hfen@, b),
            Err(_) => !hfen_start_ok(hfen@),
        },
{
    Board::from_hfen(hfen)
}

/// Serialize a `Board` to its canonical HFEN-I position string.
pub fn serialize_hfen_i(board: &Board) -> (r: String)
    requires
        board.wf(),
    ensures
        r@ == board_hfen(*board),
{
    board.get_hfen()
}

/// Build the HPGN-I string for `m`: the identity on its source square on
/// `board` (read before `m` is applied), a colon, and the UCI text.
pub fn move_to_hpgn_i(board: &Board, m: HyperMove) -> (r: String)
    requires
        board.wf(),
        m.src_index() < 144,
    ensures
        r@ == move_text_with_identity(
            m,
            if board.ids()[m.src_index()] == NO_PIECE_ID {
                None
            } else {
                Some(board.ids()[m.src_index()])
            },
        ),
{
    m.stringify_with_identity(board.piece_identity_at(m.get_src()))
}

/// A `String` holding the characters of `s`.
fn text_string(s: &str) -> (r: String)
    ensures
        r@ == s@,
{
    let v = chars_of(s);
    string_from(&v)
}

} // verus!
