//! What the `.hpgni` reader makes of the writer's text: a record whose tag
//! values and moves the text can carry reads back as itself.

use vstd::prelude::*;

use crate::board::hfen::split_on;
use crate::board::hfen_laws::{
    lemma_dec_digits, lemma_split_on_concat, lemma_split_on_single, lemma_split_ws_concat,
    lemma_split_ws_single,
};
use crate::io::hsan_parse::{first_index, lemma_first_index};
use crate::notation::{
    escape_text, hpgni_record_ok, hpgni_text, is_move_number, is_move_token, is_result_token,
    is_tag_line, kept_lines, last_result, last_tag, movetext, movetext_tokens, tag_of, tag_text,
    text_lines, texts_of, GameRecord,
};
use vstd::seq_lib::lemma_concat_associative;
use crate::text::{
    all_digits, dec_digits, is_digit, is_ws, split_ws, strip_end, strip_start, trim, trim_end,
    trim_matches, trim_start,
};

verus! {

// ── What the text can carry ─────────────────────────────────────────────────

/// A tag value the writer keeps intact: no backslash, quote or newline.
pub open spec fn plain_value(v: Seq<char>) -> bool {
    forall|i: int| 0 <= i < v.len() ==> v[i] != '\\' && v[i] != '"' && v[i] != '\n'
}

/// A move the movetext carries as one token: non-empty, without
/// whitespace, and read neither as a move number nor as a result.
pub open spec fn plain_move(m: Seq<char>) -> bool {
    &&& m.len() > 0
    &&& forall|i: int| 0 <= i < m.len() ==> !is_ws(m[i])
    &&& is_move_token(m)
}

/// A record whose `.hpgni` text can carry it: plain tag values, a result
/// token as the result, and plain moves.
pub open spec fn hpgni_writable(r: GameRecord) -> bool {
    &&& plain_value(r.event@)
    &&& plain_value(r.site@)
    &&& plain_value(r.date@)
    &&& plain_value(r.white@)
    &&& plain_value(r.black@)
    &&& plain_value(r.start_hfen@)
    &&& is_result_token(r.result@)
    &&& forall|k: int| 0 <= k < r.moves@.len() ==> plain_move(#[trigger] texts_of(r.moves@)[k])
}

// ── Lines ───────────────────────────────────────────────────────────────────

/// The lines, each followed by a newline.
pub open spec fn lines_text(ls: Seq<Seq<char>>) -> Seq<char>
    decreases ls.len(),
{
    if ls.len() == 0 {
        Seq::empty()
    } else {
        lines_text(ls.drop_last()) + ls.last() + seq!['\n']
    }
}

/// A text without a newline.
pub open spec fn one_line(l: Seq<char>) -> bool {
    forall|i: int| 0 <= i < l.len() ==> l[i] != '\n'
}

proof fn lemma_lines_push(a: Seq<Seq<char>>, l: Seq<char>)
    ensures
        lines_text(a.push(l)) == lines_text(a) + l + seq!['\n'],
{
    assert(a.push(l).drop_last() =~= a);
}

/// Lines followed by one more line split back into those lines.
proof fn lemma_split_lines_then(ls: Seq<Seq<char>>, l: Seq<char>)
    requires
        forall|k: int| 0 <= k < ls.len() ==> one_line(#[trigger] ls[k]),
        one_line(l),
    ensures
        split_on(lines_text(ls) + l, '\n') == ls.push(l),
    decreases ls.len(),
{
    if ls.len() == 0 {
        assert(lines_text(ls) + l =~= l);
        lemma_split_on_single(l, '\n');
        assert(ls.push(l) =~= seq![l]);
    } else {
        let init = ls.drop_last();
        let k = ls.last();
        assert forall|j: int| 0 <= j < init.len() implies one_line(#[trigger] init[j]) by {
            assert(init[j] == ls[j]);
        }
        assert(one_line(ls[ls.len() - 1]));
        lemma_split_lines_then(init, k);
        lemma_split_on_single(l, '\n');
        assert(lines_text(ls) + l =~= (lines_text(init) + k) + seq!['\n'] + l);
        lemma_split_on_concat(lines_text(init) + k, '\n', l);
        assert(init.push(k) =~= ls);
        assert(ls + seq![l] =~= ls.push(l));
    }
}

/// Lines split back into those lines and an empty tail.
proof fn lemma_split_lines(ls: Seq<Seq<char>>)
    requires
        ls.len() > 0,
        forall|k: int| 0 <= k < ls.len() ==> one_line(#[trigger] ls[k]),
    ensures
        split_on(lines_text(ls), '\n') == ls.push(Seq::<char>::empty()),
{
    let init = ls.drop_last();
    let k = ls.last();
    assert forall|j: int| 0 <= j < init.len() implies one_line(#[trigger] init[j]) by {
        assert(init[j] == ls[j]);
    }
    assert(one_line(ls[ls.len() - 1]));
    lemma_split_lines_then(init, k);
    assert(lines_text(ls) =~= (lines_text(init) + k) + seq!['\n'] + Seq::<char>::empty());
    lemma_split_on_concat(lines_text(init) + k, '\n', Seq::<char>::empty());
    assert(init.push(k) =~= ls);
    assert(ls + seq![Seq::<char>::empty()] =~= ls.push(Seq::<char>::empty()));
}

proof fn lemma_kept_push(a: Seq<Seq<char>>, l: Seq<char>)
    ensures
        kept_lines(a.push(l)) == kept_lines(a) + if trim(l).len() > 0 {
            seq![trim(l)]
        } else {
            Seq::<Seq<char>>::empty()
        },
{
    assert(a.push(l).drop_last() =~= a);
}

proof fn lemma_tokens_push(a: Seq<Seq<char>>, l: Seq<char>)
    ensures
        movetext_tokens(a.push(l)) == movetext_tokens(a) + if is_tag_line(l) {
            Seq::<Seq<char>>::empty()
        } else {
            split_ws(l)
        },
{
    assert(a.push(l).drop_last() =~= a);
}

/// Text that starts and ends with a non-space character is its own trim.
proof fn lemma_trim_fixed(s: Seq<char>)
    requires
        s.len() > 0,
        !is_ws(s[0]),
        !is_ws(s.last()),
    ensures
        trim(s) == s,
{
    assert(trim_start(s) == s);
    assert(trim_end(s) == s);
}

// ── Tag lines ───────────────────────────────────────────────────────────────

/// A tag pair line without its newline.
pub open spec fn tag_line(name: Seq<char>, value: Seq<char>) -> Seq<char> {
    seq!['['] + name + seq![' ', '"'] + value + seq!['"', ']']
}

proof fn lemma_escape_plain(v: Seq<char>)
    requires
        plain_value(v),
    ensures
        escape_text(v) == v,
    decreases v.len(),
{
    if v.len() > 0 {
        let init = v.drop_last();
        assert forall|i: int| 0 <= i < init.len() implies init[i] != '\\' && init[i] != '"'
            && init[i] != '\n' by {
            assert(init[i] == v[i]);
        }
        lemma_escape_plain(init);
        assert(v[v.len() - 1] != '\\' && v[v.len() - 1] != '"');
        assert(init.push(v.last()) =~= v);
    }
}

/// The tag pair line of a plain value, read back.
proof fn lemma_tag_line(name: Seq<char>, value: Seq<char>)
    requires
        plain_value(value),
        forall|i: int| 0 <= i < name.len() ==> name[i] != ' ' && name[i] != '\n',
    ensures
        tag_text(name, value) == tag_line(name, value) + seq!['\n'],
        one_line(tag_line(name, value)),
        is_tag_line(tag_line(name, value)),
        trim(tag_line(name, value)) == tag_line(name, value),
        tag_of(tag_line(name, value)) == Some((name, value)),
{
    lemma_escape_plain(value);
    let l = tag_line(name, value);
    assert(tag_text(name, value) =~= l + seq!['\n']);
    assert forall|i: int| 0 <= i < l.len() implies l[i] != '\n' by {
        if 1 <= i < 1 + name.len() {
            assert(l[i] == name[i - 1]);
        } else if 3 + name.len() <= i < 3 + name.len() + value.len() {
            assert(l[i] == value[i - 3 - name.len()]);
        }
    }
    assert(l[0] == '[');
    lemma_trim_fixed(l);
    let rest = l.drop_first();
    assert(rest =~= name + seq![' ', '"'] + value + seq!['"', ']']);
    let b = name + seq![' ', '"'] + value + seq!['"'];
    assert(rest.drop_last() =~= b);
    lemma_first_index(b, ' ');
    let k = first_index(b, ' ');
    assert(b[name.len() as int] == ' ');
    if k < name.len() {
        assert(b[k] == name[k]);
    }
    assert(k == name.len());
    assert(b.take(k) =~= name);
    let q = seq!['"'] + value + seq!['"'];
    assert(b.skip(k + 1) =~= q);
    lemma_trim_fixed(q);
    let vq = value + seq!['"'];
    assert(q.drop_first() =~= vq);
    if value.len() > 0 {
        assert(vq[0] == value[0]);
        assert(strip_start(vq, '"') == vq);
        assert(vq.drop_last() =~= value);
        assert(value[value.len() - 1] != '"');
        assert(strip_end(value, '"') == value);
    } else {
        assert(vq =~= seq!['"']);
        assert(vq.drop_first().len() == 0);
        assert(strip_start(vq.drop_first(), '"') == vq.drop_first());
        assert(vq.drop_first() =~= value);
        assert(strip_end(value, '"') == value);
    }
    assert(strip_start(q, '"') == strip_start(vq, '"'));
    assert(trim_matches(q, '"') == value);
}

/// The tag, if any, is not one for `key`.
pub open spec fn not_for(t: Option<(Seq<char>, Seq<char>)>, key: Seq<char>) -> bool {
    match t {
        Some(kv) => kv.0 != key,
        None => true,
    }
}

/// Among lines that are tag lines up to `i`, the last one with `key` is
/// the one at `i`.
proof fn lemma_last_tag_at(ls: Seq<Seq<char>>, i: int, key: Seq<char>, v: Seq<char>)
    requires
        0 <= i < ls.len(),
        tag_of(ls[i]) == Some((key, v)),
        forall|j: int| i < j < ls.len() ==> not_for(#[trigger] tag_of(ls[j]), key),
    ensures
        last_tag(ls, key) == Some(v),
    decreases ls.len(),
{
    if ls.len() - 1 > i {
        let init = ls.drop_last();
        assert forall|j: int| i < j < init.len() implies not_for(#[trigger] tag_of(init[j]), key) by {
            assert(init[j] == ls[j]);
        }
        assert(init[i] == ls[i]);
        lemma_last_tag_at(init, i, key, v);
        assert(not_for(tag_of(ls[ls.len() - 1]), key));
    }
}

// ── Movetext ────────────────────────────────────────────────────────────────

/// The move number written before the `i`-th move, if any.
pub open spec fn number_before(i: int) -> Seq<Seq<char>> {
    if i % 2 == 0 {
        seq![dec_digits((i / 2 + 1) as nat).push('.')]
    } else {
        Seq::empty()
    }
}

/// The tokens of numbered movetext: each white move after its number.
pub open spec fn numbered(ms: Seq<Seq<char>>) -> Seq<Seq<char>>
    decreases ms.len(),
{
    if ms.len() == 0 {
        Seq::empty()
    } else {
        numbered(ms.drop_last()) + number_before(ms.len() - 1) + seq![ms.last()]
    }
}

/// A token is non-empty and free of whitespace.
pub open spec fn solid(t: Seq<char>) -> bool {
    t.len() > 0 && forall|i: int| 0 <= i < t.len() ==> !is_ws(t[i])
}

/// A move number is a solid token read as a move number.
proof fn lemma_number(n: nat)
    ensures
        solid(dec_digits(n).push('.')),
        is_move_number(dec_digits(n).push('.')),
        !is_move_token(dec_digits(n).push('.')),
{
    lemma_dec_digits(n);
    let d = dec_digits(n);
    let t = d.push('.');
    assert forall|i: int| 0 <= i < t.len() implies !is_ws(t[i]) by {
        if i < d.len() {
            assert(t[i] == d[i]);
            assert(is_digit(d[i]));
        }
    }
    assert(t.drop_last() =~= d);
    assert(all_digits(t.drop_last()));
}

/// Numbered movetext followed by a token splits into its numbers, moves and
/// that token.
proof fn lemma_movetext_split(ms: Seq<Seq<char>>, y: Seq<char>)
    requires
        forall|k: int| 0 <= k < ms.len() ==> solid(#[trigger] ms[k]),
        solid(y),
    ensures
        split_ws(movetext(ms) + y) == numbered(ms).push(y),
    decreases ms.len(),
{
    if ms.len() == 0 {
        assert(movetext(ms) + y =~= y);
        lemma_split_ws_single(y);
        assert(numbered(ms).push(y) =~= seq![y]);
    } else {
        let init = ms.drop_last();
        let m = ms.last();
        let i = ms.len() - 1;
        assert forall|k: int| 0 <= k < init.len() implies solid(#[trigger] init[k]) by {
            assert(init[k] == ms[k]);
        }
        assert(solid(ms[i]));
        lemma_split_ws_single(y);
        lemma_split_ws_single(m);
        if i % 2 == 0 {
            let num = dec_digits((i / 2 + 1) as nat).push('.');
            lemma_number((i / 2 + 1) as nat);
            lemma_movetext_split(init, num);
            assert(movetext(ms) + y =~= (((movetext(init) + num) + seq![' '] + m) + seq![' '] + y));
            lemma_split_ws_concat((movetext(init) + num) + seq![' '] + m, y);
            lemma_split_ws_concat(movetext(init) + num, m);
            assert(numbered(ms) == numbered(init) + seq![num] + seq![m]);
            assert(numbered(init).push(num) + seq![m] + seq![y] =~= numbered(ms).push(y));
        } else {
            lemma_movetext_split(init, m);
            assert(movetext(ms) + y =~= (movetext(init) + m) + seq![' '] + y);
            lemma_split_ws_concat(movetext(init) + m, y);
            assert(numbered(ms) =~= numbered(init) + seq![m]);
            assert(numbered(init).push(m) + seq![y] =~= numbered(ms).push(y));
        }
    }
}

/// The move tokens of numbered movetext are its moves.
proof fn lemma_numbered_moves(ms: Seq<Seq<char>>)
    requires
        forall|k: int| 0 <= k < ms.len() ==> is_move_token(#[trigger] ms[k]),
    ensures
        numbered(ms).filter(|t: Seq<char>| is_move_token(t)) == ms,
    decreases ms.len(),
{
    let pred = |t: Seq<char>| is_move_token(t);
    if ms.len() == 0 {
        reveal(Seq::filter);
        assert(numbered(ms).filter(pred) =~= ms);
    } else {
        let init = ms.drop_last();
        let i = ms.len() - 1;
        assert forall|k: int| 0 <= k < init.len() implies is_move_token(#[trigger] init[k]) by {
            assert(init[k] == ms[k]);
        }
        assert(is_move_token(ms[i]));
        lemma_numbered_moves(init);
        let nb = number_before(i);
        Seq::filter_distributes_over_add(numbered(init) + nb, seq![ms.last()], pred);
        Seq::filter_distributes_over_add(numbered(init), nb, pred);
        reveal(Seq::filter);
        if i % 2 == 0 {
            lemma_number((i / 2 + 1) as nat);
            assert(nb.drop_last() =~= Seq::<Seq<char>>::empty());
            assert(nb.filter(pred) =~= Seq::<Seq<char>>::empty());
        } else {
            assert(nb.filter(pred) =~= Seq::<Seq<char>>::empty());
        }
        assert(seq![ms.last()].drop_last() =~= Seq::<Seq<char>>::empty());
        assert(seq![ms.last()].filter(pred) =~= seq![ms.last()]);
        assert(init + seq![ms.last()] =~= ms);
    }
}

/// Numbered movetext starts with the first move number, and has no newline.
proof fn lemma_movetext_shape(ms: Seq<Seq<char>>)
    requires
        forall|k: int| 0 <= k < ms.len() ==> solid(#[trigger] ms[k]),
    ensures
        one_line(movetext(ms)),
        ms.len() > 0 ==> movetext(ms).len() > 0 && movetext(ms)[0] == '1',
    decreases ms.len(),
{
    if ms.len() > 0 {
        let init = ms.drop_last();
        let i = ms.len() - 1;
        let m = ms.last();
        assert forall|k: int| 0 <= k < init.len() implies solid(#[trigger] init[k]) by {
            assert(init[k] == ms[k]);
        }
        assert(solid(ms[i]));
        lemma_movetext_shape(init);
        let num = if i % 2 == 0 {
            dec_digits((i / 2 + 1) as nat) + seq!['.', ' ']
        } else {
            Seq::<char>::empty()
        };
        let t = movetext(ms);
        let a = movetext(init);
        assert(t == a + num + m + seq![' ']);
        if i % 2 == 0 {
            lemma_dec_digits((i / 2 + 1) as nat);
        }
        assert forall|j: int| 0 <= j < t.len() implies t[j] != '\n' by {
            if j < a.len() {
                assert(t[j] == a[j]);
            } else if j < a.len() + num.len() {
                assert(t[j] == num[j - a.len()]);
                if i % 2 == 0 {
                    let d = dec_digits((i / 2 + 1) as nat);
                    if j - a.len() < d.len() {
                        assert(num[j - a.len()] == d[j - a.len()]);
                        assert(is_digit(d[j - a.len()]));
                    }
                }
            } else if j < a.len() + num.len() + m.len() {
                assert(t[j] == m[j - a.len() - num.len()]);
                assert(!is_ws(m[j - a.len() - num.len()]));
            }
        }
        if i == 0 {
            assert(init.len() == 0);
            assert(a.len() == 0);
            assert(dec_digits(1) == seq!['1']);
            assert(t[0] == num[0]);
        } else {
            assert(t[0] == a[0]);
        }
    }
}

// ── The law ─────────────────────────────────────────────────────────────────

/// The lines of a record's `.hpgni` text, newline-free.
pub open spec fn hpgni_lines(r: GameRecord) -> Seq<Seq<char>> {
    seq![
        tag_line("Event"@, r.event@),
        tag_line("Site"@, r.site@),
        tag_line("Date"@, r.date@),
        tag_line("White"@, r.white@),
        tag_line("Black"@, r.black@),
        tag_line("Result"@, r.result@),
        tag_line("HFEN"@, r.start_hfen@),
        Seq::<char>::empty(),
        movetext(texts_of(r.moves@)) + r.result@,
    ]
}

/// The non-blank lines of a record's `.hpgni` text.
pub open spec fn hpgni_kept(r: GameRecord) -> Seq<Seq<char>> {
    seq![
        tag_line("Event"@, r.event@),
        tag_line("Site"@, r.site@),
        tag_line("Date"@, r.date@),
        tag_line("White"@, r.white@),
        tag_line("Black"@, r.black@),
        tag_line("Result"@, r.result@),
        tag_line("HFEN"@, r.start_hfen@),
        movetext(texts_of(r.moves@)) + r.result@,
    ]
}

/// The moves of a writable record are solid move tokens, and its result a
/// solid plain value.
proof fn lemma_writable_parts(r: GameRecord)
    requires
        hpgni_writable(r),
    ensures
        forall|k: int|
            0 <= k < texts_of(r.moves@).len() ==> solid(#[trigger] texts_of(r.moves@)[k])
                && is_move_token(texts_of(r.moves@)[k]),
        solid(r.result@),
        plain_value(r.result@),
        !is_move_token(r.result@),
        r.result@[0] != '[',
{
    reveal_strlit("1-0");
    reveal_strlit("0-1");
    reveal_strlit("1/2-1/2");
    reveal_strlit("*");
    let ms = texts_of(r.moves@);
    assert forall|k: int| 0 <= k < ms.len() implies solid(#[trigger] ms[k]) && is_move_token(
        ms[k],
    ) by {
        assert(plain_move(ms[k]));
    }
}

/// The movetext line of a writable record: one line, its own trim, not a
/// tag line.
proof fn lemma_movetext_line(r: GameRecord)
    requires
        hpgni_writable(r),
    ensures
        one_line(movetext(texts_of(r.moves@)) + r.result@),
        trim(movetext(texts_of(r.moves@)) + r.result@) == movetext(texts_of(r.moves@)) + r.result@,
        (movetext(texts_of(r.moves@)) + r.result@).len() > 0,
        !is_tag_line(movetext(texts_of(r.moves@)) + r.result@),
{
    lemma_writable_parts(r);
    let ms = texts_of(r.moves@);
    let res = r.result@;
    lemma_movetext_shape(ms);
    let mt = movetext(ms);
    let mr = mt + res;
    assert forall|j: int| 0 <= j < mr.len() implies mr[j] != '\n' by {
        if j < mt.len() {
            assert(mr[j] == mt[j]);
        } else {
            assert(mr[j] == res[j - mt.len()]);
        }
    }
    if ms.len() == 0 {
        assert(mt.len() == 0);
        assert(mr[0] == res[0]);
    } else {
        assert(mr[0] == mt[0]);
    }
    assert(mr.last() == res[res.len() - 1]);
    lemma_trim_fixed(mr);
}

/// The tag lines of a writable record.
proof fn lemma_tag_lines(r: GameRecord)
    requires
        hpgni_writable(r),
    ensures
        forall|k: int|
            0 <= k < 7 ==> {
                let l = #[trigger] hpgni_lines(r)[k];
                &&& one_line(l)
                &&& is_tag_line(l)
                &&& trim(l) == l
            },
        tag_text("Event"@, r.event@) == hpgni_lines(r)[0] + seq!['\n'],
        tag_text("Site"@, r.site@) == hpgni_lines(r)[1] + seq!['\n'],
        tag_text("Date"@, r.date@) == hpgni_lines(r)[2] + seq!['\n'],
        tag_text("White"@, r.white@) == hpgni_lines(r)[3] + seq!['\n'],
        tag_text("Black"@, r.black@) == hpgni_lines(r)[4] + seq!['\n'],
        tag_text("Result"@, r.result@) == hpgni_lines(r)[5] + seq!['\n'],
        tag_text("HFEN"@, r.start_hfen@) == hpgni_lines(r)[6] + seq!['\n'],
        tag_of(hpgni_lines(r)[0]) == Some(("Event"@, r.event@)),
        tag_of(hpgni_lines(r)[1]) == Some(("Site"@, r.site@)),
        tag_of(hpgni_lines(r)[2]) == Some(("Date"@, r.date@)),
        tag_of(hpgni_lines(r)[3]) == Some(("White"@, r.white@)),
        tag_of(hpgni_lines(r)[4]) == Some(("Black"@, r.black@)),
        tag_of(hpgni_lines(r)[5]) == Some(("Result"@, r.result@)),
        tag_of(hpgni_lines(r)[6]) == Some(("HFEN"@, r.start_hfen@)),
{
    reveal_strlit("Event");
    reveal_strlit("Site");
    reveal_strlit("Date");
    reveal_strlit("White");
    reveal_strlit("Black");
    reveal_strlit("Result");
    reveal_strlit("HFEN");
    lemma_writable_parts(r);
    lemma_tag_line("Event"@, r.event@);
    lemma_tag_line("Site"@, r.site@);
    lemma_tag_line("Date"@, r.date@);
    lemma_tag_line("White"@, r.white@);
    lemma_tag_line("Black"@, r.black@);
    lemma_tag_line("Result"@, r.result@);
    lemma_tag_line("HFEN"@, r.start_hfen@);
}

/// The text of a writable record splits into its lines.
proof fn lemma_hpgni_split(r: GameRecord)
    requires
        hpgni_writable(r),
    ensures
        split_on(hpgni_text(r), '\n') == hpgni_lines(r).push(Seq::<char>::empty()),
{
    lemma_tag_lines(r);
    lemma_movetext_line(r);
    lemma_hpgni_lines_text(r);
    let ls = hpgni_lines(r);
    assert forall|k: int| 0 <= k < ls.len() implies one_line(#[trigger] ls[k]) by {
        if k == 7 {
            assert(one_line(Seq::<char>::empty()));
        }
    }
    lemma_split_lines(ls);
}

/// A writable record's text is its lines, each ended by a newline.
proof fn lemma_hpgni_lines_text(r: GameRecord)
    requires
        hpgni_writable(r),
    ensures
        lines_text(hpgni_lines(r)) == hpgni_text(r),
{
    lemma_tag_lines(r);
    let ls = hpgni_lines(r);
    let p0 = Seq::<Seq<char>>::empty();
    let p1 = p0.push(ls[0]);
    let p2 = p1.push(ls[1]);
    let p3 = p2.push(ls[2]);
    let p4 = p3.push(ls[3]);
    let p5 = p4.push(ls[4]);
    let p6 = p5.push(ls[5]);
    let p7 = p6.push(ls[6]);
    let p8 = p7.push(ls[7]);
    let p9 = p8.push(ls[8]);
    assert(p9 =~= ls);
    let t1 = tag_text("Event"@, r.event@);
    let t2 = t1 + tag_text("Site"@, r.site@);
    let t3 = t2 + tag_text("Date"@, r.date@);
    let t4 = t3 + tag_text("White"@, r.white@);
    let t5 = t4 + tag_text("Black"@, r.black@);
    let t6 = t5 + tag_text("Result"@, r.result@);
    let t7 = t6 + tag_text("HFEN"@, r.start_hfen@);
    let t8 = t7 + seq!['\n'];
    let e = Seq::<char>::empty();
    assert(lines_text(p0) + t1 =~= t1);
    lemma_lines_step(p0, ls[0], lines_text(p0), t1);
    lemma_lines_step(p1, ls[1], t1, tag_text("Site"@, r.site@));
    lemma_lines_step(p2, ls[2], t2, tag_text("Date"@, r.date@));
    lemma_lines_step(p3, ls[3], t3, tag_text("White"@, r.white@));
    lemma_lines_step(p4, ls[4], t4, tag_text("Black"@, r.black@));
    lemma_lines_step(p5, ls[5], t5, tag_text("Result"@, r.result@));
    lemma_lines_step(p6, ls[6], t6, tag_text("HFEN"@, r.start_hfen@));
    assert(e + seq!['\n'] =~= seq!['\n']);
    lemma_lines_step(p7, ls[7], t7, seq!['\n']);
    let mt = movetext(texts_of(r.moves@));
    let res = r.result@;
    lemma_lines_step(p8, ls[8], t8, (mt + res) + seq!['\n']);
    lemma_concat_associative(t8, mt, res);
    lemma_concat_associative(t8 + mt, res, seq!['\n']);
    lemma_concat_associative(t8, mt + res, seq!['\n']);
}

/// One more line after the text of some lines.
proof fn lemma_lines_step(a: Seq<Seq<char>>, l: Seq<char>, t: Seq<char>, tt: Seq<char>)
    requires
        lines_text(a) == t,
        tt == l + seq!['\n'],
    ensures
        lines_text(a.push(l)) == t + tt,
{
    lemma_lines_push(a, l);
    lemma_concat_associative(t, l, seq!['\n']);
}

/// The non-blank lines of a writable record's text.
proof fn lemma_hpgni_kept(r: GameRecord)
    requires
        hpgni_writable(r),
    ensures
        text_lines(hpgni_text(r)) == hpgni_kept(r),
{
    reveal_strlit("Event");
    reveal_strlit("Site");
    reveal_strlit("Date");
    reveal_strlit("White");
    reveal_strlit("Black");
    reveal_strlit("Result");
    reveal_strlit("HFEN");
    lemma_hpgni_split(r);
    lemma_writable_parts(r);
    lemma_tag_line("Event"@, r.event@);
    lemma_tag_line("Site"@, r.site@);
    lemma_tag_line("Date"@, r.date@);
    lemma_tag_line("White"@, r.white@);
    lemma_tag_line("Black"@, r.black@);
    lemma_tag_line("Result"@, r.result@);
    lemma_tag_line("HFEN"@, r.start_hfen@);
    lemma_movetext_line(r);
    let ls = hpgni_lines(r);
    let e = Seq::<char>::empty();
    assert(trim(e) == e) by {
        assert(trim_start(e) == e);
        assert(trim_end(e) == e);
    }
    let p0 = Seq::<Seq<char>>::empty();
    let p1 = p0.push(ls[0]);
    let p2 = p1.push(ls[1]);
    let p3 = p2.push(ls[2]);
    let p4 = p3.push(ls[3]);
    let p5 = p4.push(ls[4]);
    let p6 = p5.push(ls[5]);
    let p7 = p6.push(ls[6]);
    let p8 = p7.push(ls[7]);
    let p9 = p8.push(ls[8]);
    assert(p9.push(e) =~= ls.push(e));
    lemma_kept_push(p0, ls[0]);
    lemma_kept_push(p1, ls[1]);
    lemma_kept_push(p2, ls[2]);
    lemma_kept_push(p3, ls[3]);
    lemma_kept_push(p4, ls[4]);
    lemma_kept_push(p5, ls[5]);
    lemma_kept_push(p6, ls[6]);
    lemma_kept_push(p7, ls[7]);
    lemma_kept_push(p8, ls[8]);
    lemma_kept_push(p9, e);
    assert(kept_lines(p0) == Seq::<Seq<char>>::empty());
    assert(kept_lines(p9.push(e)) =~= hpgni_kept(r));
}

/// The tags and movetext tokens of the kept lines.
proof fn lemma_hpgni_reads(r: GameRecord)
    requires
        hpgni_writable(r),
    ensures
        last_tag(hpgni_kept(r), "Event"@) == Some(r.event@),
        last_tag(hpgni_kept(r), "Site"@) == Some(r.site@),
        last_tag(hpgni_kept(r), "Date"@) == Some(r.date@),
        last_tag(hpgni_kept(r), "White"@) == Some(r.white@),
        last_tag(hpgni_kept(r), "Black"@) == Some(r.black@),
        last_tag(hpgni_kept(r), "HFEN"@) == Some(r.start_hfen@),
        movetext_tokens(hpgni_kept(r)) == split_ws(movetext(texts_of(r.moves@)) + r.result@),
{
    reveal_strlit("Event");
    reveal_strlit("Site");
    reveal_strlit("Date");
    reveal_strlit("White");
    reveal_strlit("Black");
    reveal_strlit("Result");
    reveal_strlit("HFEN");
    lemma_writable_parts(r);
    lemma_tag_line("Event"@, r.event@);
    lemma_tag_line("Site"@, r.site@);
    lemma_tag_line("Date"@, r.date@);
    lemma_tag_line("White"@, r.white@);
    lemma_tag_line("Black"@, r.black@);
    lemma_tag_line("Result"@, r.result@);
    lemma_tag_line("HFEN"@, r.start_hfen@);
    lemma_movetext_line(r);
    let kl = hpgni_kept(r);
    let mr = kl[7];
    assert(tag_of(mr) is None);
    lemma_last_tag_at(kl, 0, "Event"@, r.event@);
    lemma_last_tag_at(kl, 1, "Site"@, r.site@);
    lemma_last_tag_at(kl, 2, "Date"@, r.date@);
    lemma_last_tag_at(kl, 3, "White"@, r.white@);
    lemma_last_tag_at(kl, 4, "Black"@, r.black@);
    lemma_last_tag_at(kl, 6, "HFEN"@, r.start_hfen@);
    let q0 = Seq::<Seq<char>>::empty();
    let q1 = q0.push(kl[0]);
    let q2 = q1.push(kl[1]);
    let q3 = q2.push(kl[2]);
    let q4 = q3.push(kl[3]);
    let q5 = q4.push(kl[4]);
    let q6 = q5.push(kl[5]);
    let q7 = q6.push(kl[6]);
    let q8 = q7.push(mr);
    assert(q8 =~= kl);
    lemma_tokens_push(q0, kl[0]);
    lemma_tokens_push(q1, kl[1]);
    lemma_tokens_push(q2, kl[2]);
    lemma_tokens_push(q3, kl[3]);
    lemma_tokens_push(q4, kl[4]);
    lemma_tokens_push(q5, kl[5]);
    lemma_tokens_push(q6, kl[6]);
    lemma_tokens_push(q7, mr);
    assert(movetext_tokens(q0) == Seq::<Seq<char>>::empty());
    assert(movetext_tokens(q8) =~= split_ws(mr));
}

/// Writing a record as `.hpgni` and reading the text back gives the record
/// again: every tag, the result and the moves, whenever the tag values are
/// free of backslashes, quotes and newlines, the result is a result token,
/// and every move is one token that reads neither as a move number nor as
/// a result.
pub proof fn lemma_hpgni_round_trip(r: GameRecord, r2: GameRecord)
    requires
        hpgni_writable(r),
        hpgni_record_ok(hpgni_text(r), r2),
    ensures
        r2.event@ == r.event@,
        r2.site@ == r.site@,
        r2.date@ == r.date@,
        r2.white@ == r.white@,
        r2.black@ == r.black@,
        r2.result@ == r.result@,
        r2.start_hfen@ == r.start_hfen@,
        texts_of(r2.moves@) == texts_of(r.moves@),
{
    lemma_hpgni_kept(r);
    lemma_hpgni_reads(r);
    lemma_writable_parts(r);
    let ms = texts_of(r.moves@);
    let res = r.result@;
    lemma_movetext_split(ms, res);
    let toks = movetext_tokens(hpgni_kept(r));
    assert(toks == numbered(ms).push(res));
    assert(toks.drop_last() =~= numbered(ms));
    assert(is_result_token(res));
    assert(last_result(toks) == Some(res));
    let pred = |t: Seq<char>| is_move_token(t);
    lemma_numbered_moves(ms);
    Seq::filter_distributes_over_add(numbered(ms), seq![res], pred);
    assert(seq![res].filter(pred) =~= Seq::<Seq<char>>::empty()) by {
        reveal(Seq::filter);
        assert(seq![res].drop_last() =~= Seq::<Seq<char>>::empty());
    }
    assert(numbered(ms) + seq![res] =~= toks);
    assert(toks.filter(pred) =~= ms);
}

} // verus!
