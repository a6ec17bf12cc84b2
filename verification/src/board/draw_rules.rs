//! Game-termination and draw rules: checkmate/stalemate, the move rule,
//! repetition and insufficient material — plus material adjudication for
//! move-limit endings.

use vstd::prelude::*;

use super::movegen::has_legal_move;
use super::Board;
use crate::core_types::piece::{owner_of, piece_of, type_of_piece, Piece};
use crate::core_types::piece_type::{pt_index, PieceType};
use crate::core_types::player::Player;
use crate::core_types::score::{piece_value_eg, value_eg_of, Value};

verus! {

/// Material edge (centipawns) required to award a move-limit adjudication win.
pub const MATERIAL_ADJUDICATION_MARGIN: Value = 100;

/// How often `z` occurs in `s`.
pub open spec fn occurrences(s: Seq<u64>, z: u64) -> nat
    decreases s.len(),
{
    if s.len() == 0 {
        0
    } else {
        occurrences(s.drop_last(), z) + if s.last() == z {
            1nat
        } else {
            0nat
        }
    }
}

/// How many of the first `n` squares hold a piece of `p` of kind `t`.
pub open spec fn piece_count(locs: Seq<Piece>, p: Player, t: PieceType, n: int) -> nat
    decreases n,
{
    if n <= 0 {
        0
    } else {
        piece_count(locs, p, t, n - 1) + if locs[n - 1] == piece_of(p, t) {
            1nat
        } else {
            0nat
        }
    }
}

/// White's material minus Black's over the first `n` squares, by the
/// endgame values (kings count nothing).
pub open spec fn material_balance(locs: Seq<Piece>, n: int) -> int
    decreases n,
{
    if n <= 0 {
        0
    } else {
        let x = locs[n - 1];
        let v = value_eg_of(pt_index(type_of_piece(x)));
        material_balance(locs, n - 1) + if owner_of(x) == Some(Player::White) {
            v
        } else if owner_of(x) == Some(Player::Black) {
            -v
        } else {
            0
        }
    }
}

/// Neither side can force mate: no pawn, rook, queen, eagle or hawk on the
/// board, and each side has at most one minor piece.
pub open spec fn insufficient(locs: Seq<Piece>) -> bool {
    &&& forall|p: Player, t: PieceType|
        (t == PieceType::P || t == PieceType::R || t == PieceType::Q || t == PieceType::E || t
            == PieceType::H) ==> #[trigger] piece_count(locs, p, t, 144) == 0
    &&& piece_count(locs, Player::White, PieceType::N, 144) + piece_count(
        locs,
        Player::White,
        PieceType::B,
        144,
    ) <= 1
    &&& piece_count(locs, Player::Black, PieceType::N, 144) + piece_count(
        locs,
        Player::Black,
        PieceType::B,
        144,
    ) <= 1
}

/// The game is drawn by rule: the move rule (224 half-moves), repetition
/// (two earlier occurrences) or insufficient material.
pub open spec fn drawn_by_rule(b: Board) -> bool {
    b.st().rule50 >= 224 || occurrences(b.hist(), b.st().zobrist) >= 2 || insufficient(b.locs())
}

/// The adjudication of a material balance: 1 White, 2 Black, 3 draw.
pub open spec fn adjudication(diff: int) -> u8 {
    if diff >= 100 {
        1
    } else if diff <= -100 {
        2
    } else {
        3
    }
}

/// The result code of a position from whether the side to move has a move
/// and is in check: 0 ongoing, 1 White wins, 2 Black wins, 3 draw.
pub open spec fn result_code(b: Board, has_moves: bool, in_check: bool) -> u8 {
    if !has_moves {
        if in_check {
            if b.side() == Player::White {
                2
            } else {
                1
            }
        } else {
            3
        }
    } else if drawn_by_rule(b) {
        3
    } else {
        0
    }
}

/// The termination reason of a position from whether the side to move has
/// a move and is in check.
pub open spec fn reason_text(b: Board, has_moves: bool, in_check: bool) -> Seq<char> {
    if !has_moves {
        if in_check {
            "checkmate"@
        } else {
            "stalemate"@
        }
    } else if b.st().rule50 >= 224 {
        "move_limit"@
    } else if occurrences(b.hist(), b.st().zobrist) >= 4 {
        "fivefold_repetition"@
    } else if occurrences(b.hist(), b.st().zobrist) >= 2 {
        "threefold_repetition"@
    } else if insufficient(b.locs()) {
        "insufficient_material"@
    } else {
        "ongoing"@
    }
}

/// The adjudicated result code given whether the side to move has a move.
pub open spec fn adjudicated_code(b: Board, has_moves: bool, capped: bool) -> u8 {
    let ic = !b.st().checkers.none_set();
    let base = result_code(b, has_moves, ic);
    if base == 0 && capped {
        adjudication(material_balance(b.locs(), 144))
    } else if base == 3 && reason_text(b, has_moves, ic) == "move_limit"@ {
        adjudication(material_balance(b.locs(), 144))
    } else {
        base
    }
}

impl Board {
    /// Returns true if the game is over (checkmate, stalemate, or draw by rule).
    pub fn is_game_over(&self) -> (r: bool)
        requires
            self.ready(),
        ensures
            r == (!has_legal_move(*self) || drawn_by_rule(*self)),
    {
        let moves = self.generate_moves();
        if moves.is_empty() {
            return true;
        }
        if self.state.rule50 >= 224 {
            return true;
        }
        let rep = self.repetition_count();
        if rep >= 4 {
            return true;
        }
        if rep >= 2 {
            return true;
        }
        if self.insufficient_material() {
            return true;
        }
        assert(!drawn_by_rule(*self));
        false
    }

    /// Returns why the game ended (or "ongoing"): "checkmate", "stalemate",
    /// "move_limit", "fivefold_repetition", "threefold_repetition", or
    /// "insufficient_material".
    pub fn termination_reason(&self) -> (r: &'static str)
        requires
            self.ready(),
        ensures
            r@ == reason_text(*self, has_legal_move(*self), !self.st().checkers.none_set()),
    {
        let moves = self.generate_moves();
        let in_check = self.in_check();
        if moves.is_empty() {
            let r = if in_check {
                "checkmate"
            } else {
                "stalemate"
            };
            proof {
                reveal_strlit("checkmate");
                reveal_strlit("stalemate");
                assert(r@ == reason_text(*self, false, in_check));
            }
            return r;
        }
        let rep = self.repetition_count();
        let insuff = self.insufficient_material();
        let r = if self.state.rule50 >= 224 {
            "move_limit"
        } else if rep >= 4 {
            "fivefold_repetition"
        } else if rep >= 2 {
            "threefold_repetition"
        } else if insuff {
            "insufficient_material"
        } else {
            "ongoing"
        };
        proof {
            reveal_strlit("move_limit");
            reveal_strlit("fivefold_repetition");
            reveal_strlit("threefold_repetition");
            reveal_strlit("insufficient_material");
            reveal_strlit("ongoing");
            assert(r@ == reason_text(*self, true, in_check));
        }
        r
    }

    /// Returns the game result: 0 = ongoing, 1 = White wins, 2 = Black
    /// wins, 3 = draw.
    pub fn game_result(&self) -> (r: u8)
        requires
            self.ready(),
        ensures
            r == result_code(*self, has_legal_move(*self), !self.st().checkers.none_set()),
    {
        let moves = self.generate_moves();
        let in_check = self.in_check();
        if moves.is_empty() {
            let r: u8 = if in_check {
                if self.turn() == Player::White {
                    2
                } else {
                    1
                }
            } else {
                3
            };
            assert(r == result_code(*self, false, in_check));
            return r;
        }
        let r: u8 = if self.state.rule50 >= 224 {
            3
        } else if self.repetition_count() >= 2 {
            3
        } else if self.insufficient_material() {
            3
        } else {
            0
        };
        assert(r == result_code(*self, true, in_check));
        r
    }

    /// Count how many times the current position occurred **before** now:
    /// the history holds the hashes of earlier positions only.
    pub fn repetition_count(&self) -> (r: usize)
        ensures
            r == occurrences(self.hist(), self.st().zobrist),
    {
        let cur = self.state.zobrist;
        let mut n: usize = 0;
        let mut i: usize = 0;
        while i < self.history.len()
            invariant
                i <= self.history@.len(),
                n == occurrences(self.history@.take(i as int), cur),
                n <= i,
            decreases self.history@.len() - i,
        {
            assert(self.history@.take(i + 1).drop_last() =~= self.history@.take(i as int));
            if self.history[i] == cur {
                n += 1;
            }
            i += 1;
        }
        assert(self.history@.take(self.history@.len() as int) =~= self.history@);
        n
    }

    /// How many pieces of `p` of kind `t` are on the board.
    fn count_pieces(&self, p: Player, t: PieceType) -> (r: u32)
        requires
            self.wf(),
        ensures
            r == piece_count(self.locs(), p, t, 144),
            r <= 144,
    {
        let target = Piece::make_lossy(p, t);
        let mut n: u32 = 0;
        let mut i: u8 = 0;
        while i < 144
            invariant
                i <= 144,
                self.wf(),
                target == piece_of(p, t),
                n == piece_count(self.locs(), p, t, i as int),
                n <= i,
            decreases 144 - i,
        {
            if self.piece_locs.piece_at(crate::core_types::sq::SQ(i)) == target {
                n += 1;
            }
            i += 1;
        }
        n
    }

    /// True if neither side has sufficient material to force checkmate.
    pub fn insufficient_material(&self) -> (r: bool)
        requires
            self.wf(),
        ensures
            r == insufficient(self.locs()),
    {
        let heavy = [PieceType::P, PieceType::R, PieceType::Q, PieceType::E, PieceType::H];
        let mut i: usize = 0;
        while i < 5
            invariant
                i <= 5,
                self.wf(),
                heavy@ == seq![PieceType::P, PieceType::R, PieceType::Q, PieceType::E, PieceType::H],
                forall|p: Player, k: int|
                    0 <= k < i ==> #[trigger] piece_count(self.locs(), p, heavy@[k], 144) == 0,
            decreases 5 - i,
        {
            if self.count_pieces(Player::White, heavy[i]) != 0 {
                return false;
            }
            if self.count_pieces(Player::Black, heavy[i]) != 0 {
                return false;
            }
            proof {
                assert forall|p: Player, k: int| 0 <= k < i + 1 implies #[trigger] piece_count(
                    self.locs(),
                    p,
                    heavy@[k],
                    144,
                ) == 0 by {
                    if k == i {
                        assert(p == Player::White || p == Player::Black);
                    }
                }
            }
            i += 1;
        }
        proof {
            assert forall|p: Player, t: PieceType|
                (t == PieceType::P || t == PieceType::R || t == PieceType::Q || t == PieceType::E
                    || t == PieceType::H) implies #[trigger] piece_count(self.locs(), p, t, 144) == 0 by {
                if t == PieceType::P {
                    assert(heavy@[0] == t);
                } else if t == PieceType::R {
                    assert(heavy@[1] == t);
                } else if t == PieceType::Q {
                    assert(heavy@[2] == t);
                } else if t == PieceType::E {
                    assert(heavy@[3] == t);
                } else {
                    assert(heavy@[4] == t);
                }
            }
        }
        let wn = self.count_pieces(Player::White, PieceType::N);
        let wb = self.count_pieces(Player::White, PieceType::B);
        let bn = self.count_pieces(Player::Black, PieceType::N);
        let bb = self.count_pieces(Player::Black, PieceType::B);
        wn + wb <= 1 && bn + bb <= 1
    }

    /// Raw material balance in centipawns, White minus Black (kings excluded).
    pub fn material_diff(&self) -> (r: Value)
        requires
            self.wf(),
        ensures
            r == material_balance(self.locs(), 144),
    {
        let mut diff: i32 = 0;
        let mut i: u8 = 0;
        while i < 144
            invariant
                i <= 144,
                self.wf(),
                diff == material_balance(self.locs(), i as int),
                -900 * i <= diff <= 900 * i,
            decreases 144 - i,
        {
            let x = self.piece_locs.piece_at(crate::core_types::sq::SQ(i));
            let v = piece_value_eg(x.type_of().index());
            match x.player() {
                Some(Player::White) => {
                    diff = diff + v;
                },
                Some(Player::Black) => {
                    diff = diff - v;
                },
                None => {},
            }
            i += 1;
        }
        diff
    }

    /// Adjudicate a position by material: 1 = White wins, 2 = Black wins,
    /// 3 = draw. The side with at least [`MATERIAL_ADJUDICATION_MARGIN`]
    /// more material wins; otherwise a draw.
    pub fn adjudicate_material(&self) -> (r: u8)
        requires
            self.wf(),
        ensures
            r == adjudication(material_balance(self.locs(), 144)),
    {
        let diff = self.material_diff();
        if diff >= MATERIAL_ADJUDICATION_MARGIN {
            1
        } else if diff <= -MATERIAL_ADJUDICATION_MARGIN {
            2
        } else {
            3
        }
    }

    /// [`Self::game_result`] with material adjudication for move-limit
    /// endings, and for otherwise-ongoing games that hit an external move
    /// cap (`capped`).
    pub fn game_result_adjudicated(&self, capped: bool) -> (r: u8)
        requires
            self.ready(),
        ensures
            r == adjudicated_code(*self, has_legal_move(*self), capped),
    {
        let moves = self.generate_moves();
        let has_moves = !moves.is_empty();
        let in_check = self.in_check();
        let base = self.game_result_from(has_moves, in_check);
        if base == 0 && capped {
            return self.adjudicate_material();
        }
        if base == 3 {
            let reason = self.termination_reason_from(has_moves, in_check);
            if crate::text::chars_eq_str(&crate::text::chars_of(reason), "move_limit") {
                proof {
                    reveal_strlit("move_limit");
                }
                return self.adjudicate_material();
            }
            proof {
                reveal_strlit("move_limit");
            }
        }
        base
    }

    /// The result code given whether the side to move has a move.
    fn game_result_from(&self, has_moves: bool, in_check: bool) -> (r: u8)
        requires
            self.wf(),
            in_check == !self.st().checkers.none_set(),
        ensures
            r == result_code(*self, has_moves, in_check),
    {
        if !has_moves {
            if in_check {
                if self.turn() == Player::White {
                    2
                } else {
                    1
                }
            } else {
                3
            }
        } else if self.state.rule50 >= 224 {
            3
        } else if self.repetition_count() >= 2 {
            3
        } else if self.insufficient_material() {
            3
        } else {
            0
        }
    }

    /// The termination reason given whether the side to move has a move.
    fn termination_reason_from(&self, has_moves: bool, in_check: bool) -> (r: &'static str)
        requires
            self.wf(),
        ensures
            r@ == reason_text(*self, has_moves, in_check),
    {
        proof {
            reveal_strlit("checkmate");
            reveal_strlit("stalemate");
            reveal_strlit("move_limit");
            reveal_strlit("fivefold_repetition");
            reveal_strlit("threefold_repetition");
            reveal_strlit("insufficient_material");
            reveal_strlit("ongoing");
        }
        if !has_moves {
            return if in_check {
                "checkmate"
            } else {
                "stalemate"
            };
        }
        let rep = self.repetition_count();
        if self.state.rule50 >= 224 {
            "move_limit"
        } else if rep >= 4 {
            "fivefold_repetition"
        } else if rep >= 2 {
            "threefold_repetition"
        } else if self.insufficient_material() {
            "insufficient_material"
        } else {
            "ongoing"
        }
    }
}

} // verus!
