//! Game export helpers: text escaping, material counting over recorded
//! positions, and the plain-text game record.

use vstd::prelude::*;

use crate::board::hfen::{hfen_piece, uses_identity};
use crate::core_types::piece::{owner_of, piece_from_char, Piece};
use crate::core_types::piece_identity::{
    chars_use_identity, identity_material_value, identity_piece, material_of, piece_material,
};
use crate::core_types::player::Player;
use crate::notation::{escape_text, push_escaped};
use crate::board::hfen::board_hfen;
use crate::board::Board;
use crate::notation::{is_start_hfen, texts_of, GameRecord};
use crate::text::{
    chars_eq, chars_eq_str, chars_of, dec_digits, extend_str, is_ascii_digit, is_digit, push_decimal,
    split_whitespace, split_ws, string_from, sub_chars,
};
use crate::uci::client::occurs_at;
use crate::cli::game::{to_lowercase, unicode_lowercase};

verus! {

/// Escapes backslashes and double quotes for a JSON or tag string.
pub fn esc(s: &str) -> (r: String)
    ensures
        r@ == escape_text(s@),
{
    let v = chars_of(s);
    let t = string_from(&v);
    let mut out: Vec<char> = Vec::new();
    push_escaped(&mut out, &t);
    assert(out@ =~= escape_text(s@));
    string_from(&out)
}

/// `p` belongs to the side named `side` (`"White"` or `"Black"`).
pub open spec fn side_owns(side: Seq<char>, p: Piece) -> bool {
    ||| side == "White"@ && owner_of(p) == Some(Player::White)
    ||| side == "Black"@ && owner_of(p) == Some(Player::Black)
}

/// The material of `side` in a position field: each square's piece counted
/// by its type, except that in identity mode an identity character counts
/// the piece it starts as; an `id:Type` pair counts the type.
pub open spec fn material_text(s: Seq<char>, idm: bool, side: Seq<char>) -> int
    decreases s.len(),
{
    if s.len() == 0 {
        0
    } else {
        let c = s[0];
        if is_digit(c) || c == '/' {
            material_text(s.drop_first(), idm, side)
        } else if s.len() >= 2 && s[1] == ':' {
            if s.len() < 3 {
                0
            } else {
                match piece_from_char(s[2]) {
                    None => material_text(s.skip(3), idm, side),
                    Some(p) => (if side_owns(side, p) {
                        piece_material(p)
                    } else {
                        0
                    }) + material_text(s.skip(3), idm, side),
                }
            }
        } else {
            match hfen_piece(c, idm) {
                None => material_text(s.drop_first(), idm, side),
                Some(p) => (if side_owns(side, p) {
                    if idm {
                        match identity_piece(c) {
                            Some(q) => piece_material(q),
                            None => 0,
                        }
                    } else {
                        piece_material(p)
                    }
                } else {
                    0
                }) + material_text(s.drop_first(), idm, side),
            }
        }
    }
}

/// The position field of an HFEN text: its first token, or the whole text
/// when it has none.
pub open spec fn board_part(h: Seq<char>) -> Seq<char> {
    let parts = split_ws(h);
    if parts.len() > 0 {
        parts[0]
    } else {
        h
    }
}

/// Material is between 0 and 900 per character.
proof fn lemma_material_bound(s: Seq<char>, idm: bool, side: Seq<char>)
    ensures
        0 <= material_text(s, idm, side) <= 900 * s.len(),
    decreases s.len(),
{
    if s.len() > 0 {
        if is_digit(s[0]) || s[0] == '/' {
            lemma_material_bound(s.drop_first(), idm, side);
        } else if s.len() >= 2 && s[1] == ':' {
            if s.len() >= 3 {
                lemma_material_bound(s.skip(3), idm, side);
            }
        } else {
            lemma_material_bound(s.drop_first(), idm, side);
        }
    }
}

/// The material of `side` (`"White"` or `"Black"`) in the position field of
/// an HFEN text, counted by hand from the characters.
pub fn get_material_value(hfen: &str, side: &str) -> (r: i32)
    requires
        material_text(board_part(hfen@), uses_identity(board_part(hfen@)), side@) <= i32::MAX,
    ensures
        r == material_text(board_part(hfen@), uses_identity(board_part(hfen@)), side@),
{
    proof {
        reveal_strlit("White");
        reveal_strlit("Black");
    }
    let h = chars_of(hfen);
    let parts = split_whitespace(&h);
    let s: Vec<char> = if parts.len() > 0 {
        crate::text::sub_chars(&parts[0], 0, parts[0].len())
    } else {
        h
    };
    assert(s@ =~= board_part(hfen@));
    let idm = chars_use_identity(&s);
    let white = chars_eq_str(&chars_of(side), "White");
    let black = chars_eq_str(&chars_of(side), "Black");
    let ghost total = material_text(s@, idm, side@);
    let mut val: i32 = 0;
    let mut i: usize = 0;
    assert(s@.skip(0) =~= s@);
    while i < s.len()
        invariant
            i <= s.len(),
            total <= i32::MAX,
            white == (side@ == "White"@),
            black == (side@ == "Black"@),
            total == material_text(s@, idm, side@),
            val + material_text(s@.skip(i as int), idm, side@) == total,
            0 <= val,
        decreases s.len() - i,
    {
        let ghost rest = s@.skip(i as int);
        proof {
            lemma_material_bound(rest, idm, side@);
            assert(rest[0] == s@[i as int]);
        }
        let c = s[i];
        if is_ascii_digit(c) || c == '/' {
            assert(rest.drop_first() =~= s@.skip(i + 1));
            i += 1;
        } else if s.len() - i >= 2 && s[i + 1] == ':' {
            assert(rest[1] == s@[i + 1]);
            if s.len() - i < 3 {
                i = s.len();
                assert(s@.skip(i as int) =~= Seq::<char>::empty());
            } else {
                assert(rest[2] == s@[i + 2]);
                assert(rest.skip(3) =~= s@.skip(i + 3));
                match Piece::from_char(s[i + 2]) {
                    Some(p) => {
                        let owned = match p.player() {
                            Some(Player::White) => white,
                            Some(Player::Black) => black,
                            None => false,
                        };
                        if owned {
                            proof {
                                lemma_material_bound(rest.skip(3), idm, side@);
                            }
                            val = val + material_of(p);
                        }
                    },
                    None => {},
                }
                i += 3;
            }
        } else {
            assert(rest.drop_first() =~= s@.skip(i + 1));
            let piece = if idm {
                match crate::core_types::piece_identity::piece_from_identity(c) {
                    Some(p) => Some(p),
                    None => Piece::from_char(c),
                }
            } else {
                match Piece::from_char(c) {
                    Some(p) => Some(p),
                    None => crate::core_types::piece_identity::piece_from_identity(c),
                }
            };
            assert(piece == hfen_piece(c, idm));
            match piece {
                Some(p) => {
                    let owned = match p.player() {
                        Some(Player::White) => white,
                        Some(Player::Black) => black,
                        None => false,
                    };
                    if owned {
                        let v = if idm {
                            match identity_material_value(c) {
                                Some(x) => x,
                                None => 0,
                            }
                        } else {
                            material_of(p)
                        };
                        proof {
                            lemma_material_bound(rest.drop_first(), idm, side@);
                        }
                        val = val + v;
                    }
                },
                None => {},
            }
            i += 1;
        }
    }
    assert(s@.skip(s.len() as int) =~= Seq::<char>::empty());
    val
}

// ── Plain-text record ───────────────────────────────────────────────────────

/// The move history lines of a text record: move number, side letter, move
/// and the HFEN after it.
pub open spec fn history_text(h: Seq<(String, String)>) -> Seq<char>
    decreases h.len(),
{
    if h.len() == 0 {
        Seq::empty()
    } else {
        let i = h.len() - 1;
        history_text(h.drop_last()) + dec_digits((i / 2 + 1) as nat) + seq!['.', ' ', if i % 2 == 0 {
            'W'
        } else {
            'B'
        }, ' '] + h.last().0@ + seq![' ', '|', ' '] + h.last().1@ + seq!['\n']
    }
}

/// The plain-text record of a game: players, result, the numbered move
/// history with the position after each move, then the final position.
pub fn game_record_text(
    board: &Board,
    move_history: &[(String, String)],
    result: &str,
    white_name: &str,
    black_name: &str,
) -> (r: String)
    requires
        board.wf(),
    ensures
        r@ == "=== HyperChess Game Record ===\n"@ + "White: "@ + white_name@ + "\nBlack: "@
            + black_name@ + "\nResult: "@ + result@ + "\nMoves: "@ + dec_digits(
            move_history@.len() as nat,
        ) + "\n\nMove History:\n"@ + history_text(move_history@) + "\nFinal Position:\n"@
            + board.pretty_print_text() + "\nHFEN: "@ + board_hfen(*board) + "\n"@,
{
    let mut out: Vec<char> = Vec::new();
    extend_str(&mut out, "=== HyperChess Game Record ===\n");
    extend_str(&mut out, "White: ");
    extend_str(&mut out, white_name);
    extend_str(&mut out, "\nBlack: ");
    extend_str(&mut out, black_name);
    extend_str(&mut out, "\nResult: ");
    extend_str(&mut out, result);
    extend_str(&mut out, "\nMoves: ");
    push_decimal(&mut out, move_history.len() as u64);
    extend_str(&mut out, "\n\nMove History:\n");
    let ghost head = out@;
    let mut i: usize = 0;
    while i < move_history.len()
        invariant
            i <= move_history@.len(),
            out@ == head + history_text(move_history@.take(i as int)),
        decreases move_history@.len() - i,
    {
        let ghost before = out@;
        let ghost h = move_history@.take(i + 1);
        assert(h.drop_last() =~= move_history@.take(i as int));
        push_decimal(&mut out, (i / 2 + 1) as u64);
        out.push('.');
        out.push(' ');
        out.push(if i % 2 == 0 {
            'W'
        } else {
            'B'
        });
        out.push(' ');
        extend_str(&mut out, move_history[i].0.as_str());
        out.push(' ');
        out.push('|');
        out.push(' ');
        extend_str(&mut out, move_history[i].1.as_str());
        out.push('\n');
        assert(h.last() == move_history@[i as int]);
        assert(out@ =~= head + history_text(h));
        i += 1;
    }
    assert(move_history@.take(move_history@.len() as int) =~= move_history@);
    extend_str(&mut out, "\nFinal Position:\n");
    let picture = board.pretty_print();
    extend_str(&mut out, picture.as_str());
    extend_str(&mut out, "\nHFEN: ");
    let h = board.get_hfen();
    extend_str(&mut out, h.as_str());
    extend_str(&mut out, "\n");
    assert(out@ =~= "=== HyperChess Game Record ===\n"@ + "White: "@ + white_name@ + "\nBlack: "@
        + black_name@ + "\nResult: "@ + result@ + "\nMoves: "@ + dec_digits(
        move_history@.len() as nat,
    ) + "\n\nMove History:\n"@ + history_text(move_history@) + "\nFinal Position:\n"@
        + board.pretty_print_text() + "\nHFEN: "@ + board_hfen(*board) + "\n"@);
    string_from(&out)
}

/// `pat` occurs somewhere in `s`.
pub open spec fn has_text(s: Seq<char>, pat: Seq<char>) -> bool {
    exists|k: int| #[trigger] occurs_at(s, pat, k)
}

/// Whether `pat` occurs in `s`.
pub fn contains_text(s: &Vec<char>, pat: &str) -> (r: bool)
    ensures
        r == has_text(s@, pat@),
{
    let p = chars_of(pat);
    let n = s.len();
    let m = p.len();
    if m > n {
        proof {
            assert forall|k: int| !#[trigger] occurs_at(s@, pat@, k) by {}
        }
        return false;
    }
    if m == 0 {
        assert(s@.subrange(0, 0) =~= pat@);
        assert(occurs_at(s@, pat@, 0));
        return true;
    }
    let mut k: usize = 0;
    while k <= n - m
        invariant
            0 < m <= n,
            k <= n - m + 1,
            n == s@.len(),
            p@ == pat@,
            m == pat@.len(),
            forall|j: int| 0 <= j < k ==> !#[trigger] occurs_at(s@, pat@, j),
        decreases n - m + 1 - k,
    {
        let w = sub_chars(s, k, k + m);
        if chars_eq(&w, &p) {
            assert(occurs_at(s@, pat@, k as int));
            return true;
        }
        k += 1;
    }
    proof {
        assert forall|j: int| !#[trigger] occurs_at(s@, pat@, j) by {
            if 0 <= j && j + m <= n {
                assert(j < k);
            }
        }
    }
    false
}

/// The HPGN-I result token of a game result message: `1-0` when it says
/// White wins, `0-1` when it says Black wins, a draw otherwise.
pub open spec fn result_token_text(result: Seq<char>) -> Seq<char> {
    if has_text(result, "White wins"@) {
        "1-0"@
    } else if has_text(result, "Black wins"@) {
        "0-1"@
    } else {
        "1/2-1/2"@
    }
}

/// The HPGN-I result token of a game result message.
pub fn result_token(result: &str) -> (r: String)
    ensures
        r@ == result_token_text(result@),
{
    let t = chars_of(result);
    let mut out: Vec<char> = Vec::new();
    if contains_text(&t, "White wins") {
        extend_str(&mut out, "1-0");
    } else if contains_text(&t, "Black wins") {
        extend_str(&mut out, "0-1");
    } else {
        extend_str(&mut out, "1/2-1/2");
    }
    string_from(&out)
}

/// The game record of a finished engine game: the engines as players, the
/// given date, the result token of the result message, and the HPGN-I
/// moves in order from the start position.
pub fn game_record_of(
    white_engine: &str,
    black_engine: &str,
    date: &str,
    result: &str,
    hpgn_i_moves: &Vec<String>,
) -> (r: GameRecord)
    ensures
        r.event@ == "HyperChess CUDA Engine Selfplay"@,
        r.site@ == "HyperChess"@,
        r.date@ == date@,
        r.white@ == white_engine@,
        r.black@ == black_engine@,
        r.result@ == result_token_text(result@),
        is_start_hfen(r.start_hfen@),
        texts_of(r.moves@) == texts_of(hpgn_i_moves@),
{
    let mut rec = GameRecord::new(white_engine, black_engine);
    let mut ev: Vec<char> = Vec::new();
    extend_str(&mut ev, "HyperChess CUDA Engine Selfplay");
    rec.event = string_from(&ev);
    let mut site: Vec<char> = Vec::new();
    extend_str(&mut site, "HyperChess");
    rec.site = string_from(&site);
    let d = chars_of(date);
    rec.date = string_from(&d);
    rec.result = result_token(result);
    let mut i: usize = 0;
    while i < hpgn_i_moves.len()
        invariant
            i <= hpgn_i_moves@.len(),
            rec.event@ == "HyperChess CUDA Engine Selfplay"@,
            rec.site@ == "HyperChess"@,
            rec.date@ == date@,
            rec.white@ == white_engine@,
            rec.black@ == black_engine@,
            rec.result@ == result_token_text(result@),
            is_start_hfen(rec.start_hfen@),
            texts_of(rec.moves@) == texts_of(hpgn_i_moves@.take(i as int)),
        decreases hpgn_i_moves@.len() - i,
    {
        rec.push_move(hpgn_i_moves[i].as_str());
        assert(texts_of(hpgn_i_moves@.take(i + 1)) =~= texts_of(hpgn_i_moves@.take(i as int)).push(
            hpgn_i_moves@[i as int]@,
        ));
        i += 1;
    }
    assert(hpgn_i_moves@.take(hpgn_i_moves@.len() as int) =~= hpgn_i_moves@);
    rec
}

/// The result of a game result message for training data: 1 when it says
/// White wins, -1 when it says Black wins, 0 otherwise.
pub open spec fn nnue_result_of(result: Seq<char>) -> int {
    if has_text(result, "White wins"@) {
        1
    } else if has_text(result, "Black wins"@) {
        -1
    } else {
        0
    }
}

/// The training-data result of a game result message.
pub fn nnue_result(result: &str) -> (r: i8)
    ensures
        r == nnue_result_of(result@),
{
    let t = chars_of(result);
    if contains_text(&t, "White wins") {
        1
    } else if contains_text(&t, "Black wins") {
        -1
    } else {
        0
    }
}

/// The decimal text of an integer, with a leading `-` when negative.
pub open spec fn signed_text(x: int) -> Seq<char> {
    if x < 0 {
        seq!['-'] + dec_digits((-x) as nat)
    } else {
        dec_digits(x as nat)
    }
}

/// Appends the decimal text of `x`.
fn push_signed(out: &mut Vec<char>, x: i64)
    requires
        x > i64::MIN,
    ensures
        final(out)@ == old(out)@ + signed_text(x as int),
{
    let ghost start = out@;
    if x < 0 {
        out.push('-');
        push_decimal(out, (-x) as u64);
        assert(out@ =~= start + signed_text(x as int));
    } else {
        push_decimal(out, x as u64);
    }
}

/// The plain training-data entry of one position: its HFEN, the move played
/// there, the score from White's view, the ply, the game result, and `e`,
/// one per line.
pub open spec fn nnue_entry_text(hfen_after: Seq<char>, move_str: Seq<char>, eval_score: int, ply: nat, result: int) -> Seq<char> {
    "fen "@ + hfen_after + "\nmove "@ + move_str + "\nscore "@ + signed_text(eval_score) + "\nply "@
        + dec_digits(ply) + "\nresult "@ + signed_text(result) + "\ne\n"@
}

/// Appends the plain training-data entry of one position.
pub fn push_nnue_entry(out: &mut Vec<char>, hfen_after: &str, move_str: &str, eval_score: i32, ply: u32, result: i8)
    ensures
        final(out)@ == old(out)@ + nnue_entry_text(
            hfen_after@,
            move_str@,
            eval_score as int,
            ply as nat,
            result as int,
        ),
{
    let ghost start = out@;
    extend_str(out, "fen ");
    extend_str(out, hfen_after);
    extend_str(out, "\nmove ");
    extend_str(out, move_str);
    extend_str(out, "\nscore ");
    push_signed(out, eval_score as i64);
    extend_str(out, "\nply ");
    push_decimal(out, ply as u64);
    extend_str(out, "\nresult ");
    push_signed(out, result as i64);
    extend_str(out, "\ne\n");
    assert(out@ =~= start + nnue_entry_text(hfen_after@, move_str@, eval_score as int, ply as nat, result as int));
}

/// A header line: the label, the value and a line break.
pub open spec fn field_line(label: Seq<char>, value: Seq<char>) -> Seq<char> {
    label + value + "\n"@
}

/// The search parameter lines of a game record header, from the lowercased
/// engine names: simulation counts for MCTS engines, depths for the others,
/// one shared line when both sides use the same kind and value.
pub open spec fn search_lines(wl: Seq<char>, bl: Seq<char>, ws: nat, bs: nat, wd: nat, bd: nat) -> Seq<char> {
    let wm = has_text(wl, "mcts"@);
    let bm = has_text(bl, "mcts"@);
    if wm && bm {
        if ws == bs {
            field_line("Simulations: "@, dec_digits(ws))
        } else {
            field_line("White Sims : "@, dec_digits(ws)) + field_line("Black Sims : "@, dec_digits(bs))
        }
    } else if wm {
        field_line("White Sims : "@, dec_digits(ws)) + field_line("Black Depth: "@, dec_digits(bd))
    } else if bm {
        field_line("White Depth: "@, dec_digits(wd)) + field_line("Black Sims : "@, dec_digits(bs))
    } else if wd == bd {
        field_line("Depth      : "@, dec_digits(wd))
    } else {
        field_line("White Depth: "@, dec_digits(wd)) + field_line("Black Depth: "@, dec_digits(bd))
    }
}

/// The skill line of a side, when its skill was given.
pub open spec fn skill_line(label: Seq<char>, skill: Option<u32>) -> Seq<char> {
    match skill {
        Some(k) => field_line(label, dec_digits(k as nat) + " / 20"@),
        None => Seq::empty(),
    }
}

/// The banner that opens a game record.
pub open spec fn record_banner() -> Seq<char> {
    "╔══════════════════════════════════════════════════════════════════╗\n"@
        + "║              HYPERCHESS CUDA ENGINE — GAME RECORD               ║\n"@
        + "╚══════════════════════════════════════════════════════════════════╝\n\n"@
}

/// The header of a game record: the banner, the date, the engines, the
/// search parameters (read from the lowercased engine names `wl`, `bl`), the
/// skills, the seed, the result, the move count in plies and full moves,
/// and the GPU, then a blank line.
pub open spec fn stats_header_text(
    date: Seq<char>,
    white: Seq<char>,
    black: Seq<char>,
    wl: Seq<char>,
    bl: Seq<char>,
    ws: nat,
    bs: nat,
    wd: nat,
    bd: nat,
    white_skill: Option<u32>,
    black_skill: Option<u32>,
    seed: nat,
    result: Seq<char>,
    total_moves: nat,
    gpu: Option<Seq<char>>,
) -> Seq<char> {
    record_banner() + field_line("Date/Time  : "@, date) + field_line("White      : "@, white)
        + field_line("Black      : "@, black) + search_lines(wl, bl, ws, bs, wd, bd) + skill_line(
        "White Skill: "@,
        white_skill,
    ) + skill_line("Black Skill: "@, black_skill) + field_line("Game Seed  : "@, dec_digits(seed))
        + field_line("Result     : "@, result) + field_line(
        "Total Moves: "@,
        dec_digits(total_moves) + " plies ("@ + dec_digits((total_moves + 1) / 2) + " full moves)"@,
    ) + match gpu {
        Some(g) => field_line("GPU        : "@, g),
        None => "GPU        : not used (CPU-only build)\n"@,
    } + "\n"@
}

/// Appends a header line whose value is a number.
fn push_number_line(out: &mut Vec<char>, label: &str, n: u64)
    ensures
        final(out)@ == old(out)@ + field_line(label@, dec_digits(n as nat)),
{
    let ghost start = out@;
    extend_str(out, label);
    push_decimal(out, n);
    extend_str(out, "\n");
    assert(out@ =~= start + field_line(label@, dec_digits(n as nat)));
}

/// Appends a header line whose value is a text.
fn push_text_line(out: &mut Vec<char>, label: &str, value: &str)
    ensures
        final(out)@ == old(out)@ + field_line(label@, value@),
{
    let ghost start = out@;
    extend_str(out, label);
    extend_str(out, value);
    extend_str(out, "\n");
    assert(out@ =~= start + field_line(label@, value@));
}

/// Appends the search parameter lines.
fn push_search_lines(out: &mut Vec<char>, wl: &Vec<char>, bl: &Vec<char>, ws: u32, bs: u32, wd: u32, bd: u32)
    ensures
        final(out)@ == old(out)@ + search_lines(wl@, bl@, ws as nat, bs as nat, wd as nat, bd as nat),
{
    let ghost start = out@;
    let wm = contains_text(wl, "mcts");
    let bm = contains_text(bl, "mcts");
    if wm && bm {
        if ws == bs {
            push_number_line(out, "Simulations: ", ws as u64);
        } else {
            push_number_line(out, "White Sims : ", ws as u64);
            push_number_line(out, "Black Sims : ", bs as u64);
        }
    } else if wm {
        push_number_line(out, "White Sims : ", ws as u64);
        push_number_line(out, "Black Depth: ", bd as u64);
    } else if bm {
        push_number_line(out, "White Depth: ", wd as u64);
        push_number_line(out, "Black Sims : ", bs as u64);
    } else if wd == bd {
        push_number_line(out, "Depth      : ", wd as u64);
    } else {
        push_number_line(out, "White Depth: ", wd as u64);
        push_number_line(out, "Black Depth: ", bd as u64);
    }
    assert(out@ =~= start + search_lines(wl@, bl@, ws as nat, bs as nat, wd as nat, bd as nat));
}

/// Appends the skill line of a side, when its skill was given.
fn push_skill_line(out: &mut Vec<char>, label: &str, skill: Option<u32>)
    ensures
        final(out)@ == old(out)@ + skill_line(label@, skill),
{
    let ghost start = out@;
    match skill {
        Some(k) => {
            extend_str(out, label);
            push_decimal(out, k as u64);
            extend_str(out, " / 20");
            extend_str(out, "\n");
            assert(out@ =~= start + skill_line(label@, skill));
        },
        None => {
            assert(out@ =~= start + skill_line(label@, skill));
        },
    }
}

/// The header of a game record (the section before the performance
/// summary); the date and time are given as text.
pub fn game_stats_header(
    date: &str,
    white_engine: &str,
    black_engine: &str,
    white_depth: u32,
    black_depth: u32,
    white_simulations: u32,
    black_simulations: u32,
    white_skill: Option<u32>,
    black_skill: Option<u32>,
    game_seed: u64,
    result: &str,
    total_moves: u32,
    gpu_name: &Option<String>,
) -> (r: String)
    ensures
        r@ == stats_header_text(
            date@,
            white_engine@,
            black_engine@,
            unicode_lowercase(white_engine@),
            unicode_lowercase(black_engine@),
            white_simulations as nat,
            black_simulations as nat,
            white_depth as nat,
            black_depth as nat,
            white_skill,
            black_skill,
            game_seed as nat,
            result@,
            total_moves as nat,
            match gpu_name {
                Some(g) => Some(g@),
                None => None,
            },
        ),
{
    let mut out: Vec<char> = Vec::new();
    extend_str(&mut out, "╔══════════════════════════════════════════════════════════════════╗\n");
    extend_str(&mut out, "║              HYPERCHESS CUDA ENGINE — GAME RECORD               ║\n");
    extend_str(&mut out, "╚══════════════════════════════════════════════════════════════════╝\n\n");
    let ghost banner = out@;
    assert(banner =~= record_banner());
    push_text_line(&mut out, "Date/Time  : ", date);
    push_text_line(&mut out, "White      : ", white_engine);
    push_text_line(&mut out, "Black      : ", black_engine);
    let wl = chars_of(to_lowercase(white_engine).as_str());
    let bl = chars_of(to_lowercase(black_engine).as_str());
    push_search_lines(&mut out, &wl, &bl, white_simulations, black_simulations, white_depth, black_depth);
    push_skill_line(&mut out, "White Skill: ", white_skill);
    push_skill_line(&mut out, "Black Skill: ", black_skill);
    push_number_line(&mut out, "Game Seed  : ", game_seed);
    push_text_line(&mut out, "Result     : ", result);
    let ghost before_total = out@;
    extend_str(&mut out, "Total Moves: ");
    push_decimal(&mut out, total_moves as u64);
    extend_str(&mut out, " plies (");
    push_decimal(&mut out, (total_moves / 2 + total_moves % 2) as u64);
    extend_str(&mut out, " full moves)");
    extend_str(&mut out, "\n");
    assert((total_moves / 2 + total_moves % 2) as nat == (total_moves as nat + 1) / 2);
    assert(out@ =~= before_total + field_line(
        "Total Moves: "@,
        dec_digits(total_moves as nat) + " plies ("@ + dec_digits((total_moves as nat + 1) / 2)
            + " full moves)"@,
    ));
    let ghost before_gpu = out@;
    match gpu_name {
        Some(g) => push_text_line(&mut out, "GPU        : ", g.as_str()),
        None => extend_str(&mut out, "GPU        : not used (CPU-only build)\n"),
    }
    extend_str(&mut out, "\n");
    assert(out@ =~= stats_header_text(
        date@,
        white_engine@,
        black_engine@,
        wl@,
        bl@,
        white_simulations as nat,
        black_simulations as nat,
        white_depth as nat,
        black_depth as nat,
        white_skill,
        black_skill,
        game_seed as nat,
        result@,
        total_moves as nat,
        match gpu_name {
            Some(g) => Some(g@),
            None => None,
        },
    ));
    string_from(&out)
}

} // verus!
