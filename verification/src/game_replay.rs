//! Game replay: play a list of moves from an HFEN-I start position and
//! report the final position.

use vstd::prelude::*;

use crate::board::hfen::board_hfen;
use crate::board::movegen::{legal_move, movable};
use crate::board::{hfen_board, hfen_start_ok, Board};
use crate::core_types::piece_move::{move_text, HyperMove};
use crate::uci::server_util::token_texts;
use crate::text::{chars_eq, chars_of, dec_digits, extend_str, push_decimal, string_from};

verus! {

/// `after` is `before` with `m`, a legal move written `text`, played.
pub open spec fn played(before: Board, m: HyperMove, text: Seq<char>, after: Board) -> bool {
    &&& movable(before, m)
    &&& move_text(m) == text
    &&& before.applied(m, after)
}

/// Step `i` of a replay: some legal move written `texts[i]` takes
/// `boards[i]` to `boards[i + 1]`.
pub open spec fn played_at(boards: Seq<Board>, texts: Seq<Seq<char>>, i: int) -> bool {
    exists|m: HyperMove| #[trigger] played(boards[i], m, texts[i], boards[i + 1])
}

/// `boards` are the positions of a game whose moves are written `texts`:
/// one more position than moves, each reached from the one before.
pub open spec fn replay_chain(boards: Seq<Board>, texts: Seq<Seq<char>>) -> bool {
    &&& boards.len() == texts.len() + 1
    &&& forall|i: int| 0 <= i < texts.len() ==> #[trigger] played_at(boards, texts, i)
}

/// `boards` are the positions of a game started from the HFEN text `start`
/// whose moves are written `texts`.
#[verifier::opaque]
pub open spec fn game_positions(start: Seq<char>, texts: Seq<Seq<char>>, boards: Seq<Board>) -> bool {
    &&& hfen_board(start, boards[0])
    &&& replay_chain(boards, texts)
}

/// The first move of `legal` written `text`.
pub open spec fn first_with_text(legal: Seq<HyperMove>, text: Seq<char>) -> Option<HyperMove> {
    let f = legal.filter(|m: HyperMove| move_text(m) == text);
    if f.len() > 0 {
        Some(f[0])
    } else {
        None
    }
}

/// What holds of every move of a list holds of every move it keeps.
pub proof fn lemma_filter_keeps(s: Seq<HyperMove>, pred: spec_fn(HyperMove) -> bool, p: spec_fn(HyperMove) -> bool)
    requires
        forall|k: int| 0 <= k < s.len() ==> #[trigger] p(s[k]),
    ensures
        forall|k: int| 0 <= k < s.filter(pred).len() ==> #[trigger] p(s.filter(pred)[k]),
    decreases s.len(),
{
    reveal(Seq::filter);
    if s.len() > 0 {
        let init = s.drop_last();
        assert forall|k: int| 0 <= k < init.len() implies #[trigger] p(init[k]) by {
            assert(init[k] == s[k]);
        }
        lemma_filter_keeps(init, pred, p);
        let f = s.filter(pred);
        let fi = init.filter(pred);
        assert forall|k: int| 0 <= k < f.len() implies #[trigger] p(f[k]) by {
            if k < fi.len() {
                assert(f[k] == fi[k]);
            } else {
                assert(f[k] == s[s.len() - 1]);
            }
        }
    }
}

/// The first move of `legal` written `text`.
pub fn find_by_text(legal: &Vec<HyperMove>, text: &Vec<char>) -> (r: Option<HyperMove>)
    ensures
        r == first_with_text(legal@, text@),
{
    let mut out: Vec<HyperMove> = Vec::new();
    let mut i: usize = 0;
    while i < legal.len()
        invariant
            i <= legal.len(),
            out@ == legal@.take(i as int).filter(|m: HyperMove| move_text(m) == text@),
        decreases legal.len() - i,
    {
        let m = legal[i];
        proof {
            reveal(Seq::filter);
            assert(legal@.take(i + 1).drop_last() =~= legal@.take(i as int));
        }
        let t = m.text();
        if chars_eq(&t, text) {
            out.push(m);
        }
        i += 1;
    }
    assert(legal@.take(legal.len() as int) =~= legal@);
    if out.len() > 0 {
        Some(out[0])
    } else {
        None
    }
}

/// The legal move of `board` written `uci`, if any (the first one the move
/// generator lists).
pub fn legal_move_by_text(board: &Board, uci: &Vec<char>) -> (r: Option<HyperMove>)
    requires
        board.ready(),
    ensures
        r matches Some(m) ==> movable(*board, m) && move_text(m) == uci@,
        r is None <==> !written_move(*board, uci@),
{
    let legal = board.generate_moves();
    let moves = legal.to_vec();
    let r = find_by_text(&moves, uci);
    proof {
        let pred = |m: HyperMove| move_text(m) == uci@;
        let p = |m: HyperMove| movable(*board, m);
        assert forall|k: int| 0 <= k < moves@.len() implies #[trigger] p(moves@[k]) by {
            assert(movable(*board, moves@[k]));
        }
        lemma_filter_keeps(moves@, pred, p);
        if r is Some {
            assert(p(moves@.filter(pred)[0]));
            moves@.lemma_filter_pred(pred, 0);
            assert(pred(moves@.filter(pred)[0]));
        }
        if written_move(*board, uci@) {
            let m = choose|m: HyperMove| movable(*board, m) && #[trigger] move_text(m) == uci@;
            assert(moves@.contains(m));
            let i = choose|i: int| 0 <= i < moves@.len() && moves@[i] == m;
            moves@.lemma_filter_contains(pred, i);
        }
    }
    r
}

/// The side to move can make a move written `text`.
pub open spec fn written_move(b: Board, text: Seq<char>) -> bool {
    exists|m: HyperMove| movable(b, m) && #[trigger] move_text(m) == text
}

/// The board can take one more move: the side to move next has a king and
/// the counters have room.
pub open spec fn has_room(b: Board) -> bool {
    &&& b.king_of(crate::core_types::player::opponent(b.side())) < 144
    &&& b.plies() < 0xffff
    &&& b.st().rule50 < 0xffff
    &&& b.st().fullmove < 0xffff
}

/// Executable [`has_room`].
pub fn board_has_room(b: &Board) -> (r: bool)
    requires
        b.wf(),
    ensures
        r == has_room(*b),
{
    b.king_sq(b.turn().other_player()).0 < 144 && b.ply() < 0xffff && b.state.rule50 < 0xffff
        && b.state.fullmove < 0xffff
}

/// Plays `m` on a board it is legal on; the board stays ready for the next
/// move.
pub fn play(board: &mut Board, m: HyperMove)
    requires
        old(board).ready(),
        has_room(*old(board)),
        legal_move(*old(board), m),
    ensures
        old(board).applied(m, *final(board)),
        final(board).ready(),
{
    board.apply_move(m);
}

/// A message naming a move by number.
fn move_message(n: usize, what: &str) -> (r: String)
    ensures
        r@ == "Move "@ + dec_digits(n as nat) + what@,
{
    let mut v: Vec<char> = Vec::new();
    extend_str(&mut v, "Move ");
    push_decimal(&mut v, n as u64);
    extend_str(&mut v, what);
    string_from(&v)
}

/// Result of a game replay operation.
#[derive(Debug, Clone, PartialEq, Eq)]
pub struct ReplayResult {
    /// Number of moves successfully applied.
    pub moves_applied: usize,
    /// Final board state after all moves.
    pub final_hfen: String,
    /// Whether the final position matches the expected HFEN (if provided).
    pub final_matches_expected: bool,
}

/// Parse a UCI move string (e.g., "a3a4", "a11a12q") against the current
/// board and return the first matching legal move.
fn parse_uci_move(board: &Board, uci: &str) -> (r: Option<HyperMove>)
    requires
        board.ready(),
    ensures
        r matches Some(m) ==> movable(*board, m) && move_text(m) == uci@,
        r is None <==> !written_move(*board, uci@),
{
    let t = chars_of(uci);
    legal_move_by_text(board, &t)
}

/// Replay a game from an HFEN-I starting position using a list of plain UCI
/// moves; fails when the start position does not parse or a move is not
/// legal where it is played.
pub fn replay_game(start_hfen: &str, moves: &[&str], expected_final_hfen: Option<&str>) -> (r: Result<
    ReplayResult,
    String,
>)
    ensures
        !hfen_start_ok(start_hfen@) ==> r is Err,
        r is Err && hfen_start_ok(start_hfen@) ==> exists|i: int, boards: Seq<Board>|
            0 <= i < moves@.len() && #[trigger] game_positions(
                start_hfen@,
                token_texts(moves@).take(i),
                boards,
            ) && (!written_move(boards.last(), moves@[i]@) || !has_room(boards.last())),
        r matches Ok(res) ==> {
            &&& res.moves_applied == moves@.len()
            &&& exists|boards: Seq<Board>|
                {
                    &&& game_positions(start_hfen@, moves@.map_values(|s: &str| s@), boards)
                    &&& boards.len() == moves@.len() + 1
                    &&& res.final_hfen@ == board_hfen(boards.last())
                }
            &&& res.final_matches_expected == match expected_final_hfen {
                None => true,
                Some(e) => res.final_hfen@ == e@,
            }
        },
{
    let mut board = match Board::from_hfen(start_hfen) {
        Ok(b) => b,
        Err(e) => {
            return Err(e);
        },
    };
    let ghost texts = token_texts(moves@);
    let ghost mut boards: Seq<Board> = seq![board];
    let mut i: usize = 0;
    while i < moves.len()
        invariant
            i <= moves@.len(),
            texts == token_texts(moves@),
            texts == moves@.map_values(|s: &str| s@),
            board.ready(),
            hfen_board(start_hfen@, boards[0]),
            replay_chain(boards, texts.take(i as int)),
            boards.last() == board,
        decreases moves@.len() - i,
    {
        let uci = moves[i];
        let found = parse_uci_move(&board, uci);
        proof {
            assert(game_positions(start_hfen@, texts.take(i as int), boards)) by {
                reveal(game_positions);
            }
        }
        let m = match found {
            Some(m) => m,
            None => {
                return Err(move_message(i + 1, ": the move is not legal or cannot be parsed"));
            },
        };
        if !board_has_room(&board) {
            return Err(move_message(i + 1, ": the position cannot take another move"));
        }
        let ghost before = board;
        play(&mut board, m);
        proof {
            let next = boards.push(board);
            let t1 = texts.take(i + 1);
            assert(t1[i as int] == uci@);
            assert(played(before, m, t1[i as int], board));
            assert forall|j: int| 0 <= j < t1.len() implies #[trigger] played_at(next, t1, j) by {
                if j < i {
                    assert(played_at(boards, texts.take(i as int), j));
                    assert(next[j] == boards[j] && next[j + 1] == boards[j + 1]);
                    assert(t1[j] == texts.take(i as int)[j]);
                } else {
                    assert(next[j] == before && next[j + 1] == board);
                }
            }
            boards = next;
        }
        i += 1;
    }
    assert(texts.take(moves@.len() as int) =~= texts);
    assert(game_positions(start_hfen@, texts, boards)) by {
        reveal(game_positions);
    }
    let final_hfen = board.get_hfen();
    let final_matches_expected = match expected_final_hfen {
        None => true,
        Some(expected) => {
            let a = chars_of(final_hfen.as_str());
            let b = chars_of(expected);
            chars_eq(&a, &b)
        },
    };
    Ok(ReplayResult { moves_applied: moves.len(), final_hfen, final_matches_expected })
}

} // verus!
