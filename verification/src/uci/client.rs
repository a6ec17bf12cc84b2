//! Parsing of a UCI engine's `info` lines.

use vstd::prelude::*;

use crate::text::{chars_eq_str, chars_of, parse_i32, parse_signed, split_whitespace, split_ws, string_from, sub_chars};

verus! {

/// The index of the first token equal to `t` (the token count when none is).
pub open spec fn first_token(parts: Seq<Seq<char>>, t: Seq<char>) -> int
    decreases parts.len(),
{
    if parts.len() == 0 {
        0
    } else if parts[0] == t {
        0
    } else {
        1 + first_token(parts.drop_first(), t)
    }
}

/// The centipawn score of an `info` line: the token after the first `cp`
/// token, read as an `i32`.
pub open spec fn score_of(line: Seq<char>) -> Option<i32> {
    let parts = split_ws(line);
    let k = first_token(parts, "cp"@);
    if k + 1 >= parts.len() {
        None
    } else {
        match parse_signed(parts[k + 1], i32::MIN as int, i32::MAX as int) {
            Some(v) => Some(v as i32),
            None => None,
        }
    }
}

/// `first_token` finds the first occurrence.
pub proof fn lemma_first_token(parts: Seq<Seq<char>>, t: Seq<char>)
    ensures
        0 <= first_token(parts, t) <= parts.len(),
        first_token(parts, t) < parts.len() ==> parts[first_token(parts, t)] == t,
        forall|j: int| 0 <= j < first_token(parts, t) ==> parts[j] != t,
    decreases parts.len(),
{
    if parts.len() > 0 && parts[0] != t {
        lemma_first_token(parts.drop_first(), t);
        assert forall|j: int| 0 <= j < first_token(parts, t) implies parts[j] != t by {
            if j > 0 {
                assert(parts[j] == parts.drop_first()[j - 1]);
            }
        }
    }
}

/// The centipawn score of an `info` line (`... score cp 42 ...`).
pub fn parse_score(line: &str) -> (r: Option<i32>)
    ensures
        r == score_of(line@),
{
    proof {
        reveal_strlit("cp");
    }
    let s = chars_of(line);
    let parts = split_whitespace(&s);
    let ghost ps = split_ws(line@);
    let mut k: usize = 0;
    while k < parts.len() && !chars_eq_str(&parts[k], "cp")
        invariant
            k <= parts@.len(),
            parts@.len() == ps.len(),
            forall|j: int| 0 <= j < parts@.len() ==> #[trigger] parts@[j]@ == ps[j],
            forall|j: int| 0 <= j < k ==> ps[j] != "cp"@,
        decreases parts@.len() - k,
    {
        k += 1;
    }
    proof {
        lemma_first_token(ps, "cp"@);
        let f = first_token(ps, "cp"@);
        if f < k {
            assert(ps[f] == "cp"@);
        }
        if k < parts@.len() {
            assert(ps[k as int] == "cp"@);
        }
        assert(f == k);
    }
    if k >= parts.len() || parts.len() - k < 2 {
        return None;
    }
    parse_i32(&parts[k + 1])
}

/// Whether `pat` occurs in `s` at index `k`.
pub open spec fn occurs_at(s: Seq<char>, pat: Seq<char>, k: int) -> bool {
    0 <= k && k + pat.len() <= s.len() && s.subrange(k, k + pat.len()) == pat
}

/// The first index from `k` on where `pat` occurs in `s` (-1 if none).
pub open spec fn find_from(s: Seq<char>, pat: Seq<char>, k: int) -> int
    decreases s.len() - k,
{
    if k < 0 || k >= s.len() || k + pat.len() > s.len() {
        -1
    } else if occurs_at(s, pat, k) {
        k
    } else {
        find_from(s, pat, k + 1)
    }
}

/// The principal variation of an `info` line: the tokens after the first
/// ` pv `.
pub open spec fn pv_of(line: Seq<char>) -> Option<Seq<Seq<char>>> {
    let k = find_from(line, " pv "@, 0);
    if k < 0 {
        None
    } else {
        Some(split_ws(line.skip(k + 4)))
    }
}

/// The principal variation of an `info` line (`... pv e2e4 e7e5`).
pub fn parse_pv(line: &str) -> (r: Option<Vec<String>>)
    ensures
        match r {
            Some(v) => pv_of(line@) == Some(v@.map_values(|s: String| s@)),
            None => pv_of(line@) is None,
        },
{
    proof {
        reveal_strlit(" pv ");
    }
    let s = chars_of(line);
    let n = s.len();
    let mut k: usize = 0;
    let mut found = false;
    while n >= 4 && k <= n - 4 && !found
        invariant
            n == s@.len(),
            s@ == line@,
            k <= n,
            find_from(line@, " pv "@, 0) == (if found {
                k as int
            } else {
                find_from(line@, " pv "@, k as int)
            }),
            found ==> occurs_at(line@, " pv "@, k as int),
        decreases n - k, if found { 0int } else { 1int },
    {
        proof {
            reveal_strlit(" pv ");
        }
        if s[k] == ' ' && s[k + 1] == 'p' && s[k + 2] == 'v' && s[k + 3] == ' ' {
            assert(s@.subrange(k as int, k + 4) =~= " pv "@);
            found = true;
        } else {
            assert(!occurs_at(line@, " pv "@, k as int)) by {
                if occurs_at(line@, " pv "@, k as int) {
                    assert(s@.subrange(k as int, k + 4)[0] == s@[k as int]);
                    assert(s@.subrange(k as int, k + 4)[1] == s@[k + 1]);
                    assert(s@.subrange(k as int, k + 4)[2] == s@[k + 2]);
                    assert(s@.subrange(k as int, k + 4)[3] == s@[k + 3]);
                }
            }
            k += 1;
        }
    }
    proof {
        reveal_strlit(" pv ");
    }
    if !found {
        return None;
    }
    let rest = sub_chars(&s, k + 4, n);
    assert(rest@ =~= line@.skip(k + 4));
    let toks = split_whitespace(&rest);
    let mut out: Vec<String> = Vec::new();
    let mut j: usize = 0;
    while j < toks.len()
        invariant
            j <= toks@.len(),
            toks@.len() == split_ws(rest@).len(),
            forall|i: int| 0 <= i < toks@.len() ==> #[trigger] toks@[i]@ == split_ws(rest@)[i],
            out@.map_values(|s: String| s@) == split_ws(rest@).take(j as int),
        decreases toks@.len() - j,
    {
        let t = string_from(&toks[j]);
        let ghost before = out@.map_values(|s: String| s@);
        out.push(t);
        assert(out@.map_values(|s: String| s@) =~= before.push(t@));
        assert(split_ws(rest@).take(j + 1) =~= split_ws(rest@).take(j as int).push(split_ws(rest@)[j as int]));
        j += 1;
    }
    assert(split_ws(rest@).take(toks@.len() as int) =~= split_ws(rest@));
    Some(out)
}

/// The first move of the principal variation of an `info` line.
pub fn parse_pv_move(line: &str) -> (r: Option<String>)
    ensures
        match r {
            Some(m) => pv_of(line@) matches Some(pv) && pv.len() > 0 && m@ == pv[0],
            None => pv_of(line@) is None || pv_of(line@)->0.len() == 0,
        },
{
    match parse_pv(line) {
        Some(mut v) => {
            let ghost all = v@.map_values(|s: String| s@);
            if v.len() == 0 {
                None
            } else {
                let m = v.remove(0);
                assert(all[0] == m@);
                Some(m)
            }
        },
        None => None,
    }
}

} // verus!
