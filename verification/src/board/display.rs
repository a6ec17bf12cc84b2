//! Human-readable board rendering.

use vstd::prelude::*;

use super::hfen::{board_hfen, cell_char};
use super::Board;
use crate::core_types::piece::Piece;
use crate::core_types::player::player_name;
use crate::core_types::sq::SQ;
use crate::text::{dec_digits, digit_char, extend_str, push_decimal, string_from};

verus! {

/// The glyphs of files `file..12` of rank `rank`: `.` for an empty square,
/// else the square's character, each followed by a space.
pub open spec fn square_glyphs(locs: Seq<Piece>, ids: Seq<char>, rank: int, file: int) -> Seq<char>
    decreases 12 - file,
{
    if file >= 12 {
        Seq::empty()
    } else {
        let s = rank * 12 + file;
        (if locs[s] == Piece::Empty {
            seq!['.', ' ']
        } else {
            seq![cell_char(locs[s], ids[s]), ' ']
        }) + square_glyphs(locs, ids, rank, file + 1)
    }
}

/// A rank number right-aligned in two columns.
pub open spec fn rank_label(n: nat) -> Seq<char> {
    if n < 10 {
        seq![' ', digit_char(n as int)]
    } else {
        dec_digits(n)
    }
}

/// The line drawn for rank `rank`.
pub open spec fn rank_line(locs: Seq<Piece>, ids: Seq<char>, rank: int) -> Seq<char> {
    rank_label((rank + 1) as nat) + seq![' '] + square_glyphs(locs, ids, rank, 0) + seq!['\n']
}

/// The lines of the top `n` ranks, top rank first.
pub open spec fn board_picture(locs: Seq<Piece>, ids: Seq<char>, n: int) -> Seq<char>
    decreases n,
{
    if n <= 0 {
        Seq::empty()
    } else {
        board_picture(locs, ids, n - 1) + rank_line(locs, ids, 12 - n)
    }
}

/// Appends the glyphs of one rank.
fn push_glyphs(out: &mut Vec<char>, board: &Board, rank: u8)
    requires
        board.wf(),
        rank < 12,
    ensures
        final(out)@ == old(out)@ + square_glyphs(board.locs(), board.ids(), rank as int, 0),
{
    let ghost start = out@;
    let mut file: u8 = 0;
    while file < 12
        invariant
            file <= 12,
            rank < 12,
            board.wf(),
            out@ + square_glyphs(board.locs(), board.ids(), rank as int, file as int) == start
                + square_glyphs(board.locs(), board.ids(), rank as int, 0),
        decreases 12 - file,
    {
        let ghost before = out@;
        let sq = SQ(rank * 12 + file);
        let piece = board.piece_at(sq);
        if piece == Piece::Empty {
            out.push('.');
        } else {
            let c = match board.piece_hfen_char_at(sq) {
                Some(c) => c,
                None => piece.character_lossy(),
            };
            assert(c == cell_char(piece, board.ids()[sq.0 as int]));
            out.push(c);
        }
        out.push(' ');
        proof {
            let rest = square_glyphs(board.locs(), board.ids(), rank as int, file + 1);
            assert(out@ + rest =~= before + square_glyphs(board.locs(), board.ids(), rank as int, file as int));
        }
        file += 1;
    }
    assert(out@ + Seq::<char>::empty() =~= out@);
}

impl Board {
    /// The text [`Board::pretty_print`] gives.
    pub open spec fn pretty_print_text(self) -> Seq<char> {
        board_picture(self.locs(), self.ids(), 12) + "   a b c d e f g h i j k l\n"@ + "Turn: "@
            + player_name(self.side()) + " | HFEN: "@ + board_hfen(self) + seq!['\n']
    }

    /// Print the board to a string for debugging.
    pub fn pretty_print(&self) -> (r: String)
        requires
            self.wf(),
        ensures
            r@ == self.pretty_print_text(),
    {
        let mut s: Vec<char> = Vec::new();
        let mut n: u8 = 0;
        while n < 12
            invariant
                n <= 12,
                self.wf(),
                s@ == board_picture(self.locs(), self.ids(), n as int),
            decreases 12 - n,
        {
            let ghost before = s@;
            let rank = 11 - n;
            let label = rank + 1;
            if label < 10 {
                s.push(' ');
            }
            push_decimal(&mut s, label as u64);
            s.push(' ');
            push_glyphs(&mut s, self, rank);
            s.push('\n');
            proof {
                if label < 10 {
                    assert(dec_digits(label as nat) == seq![digit_char(label as int)]);
                }
                assert(s@ =~= before + rank_line(self.locs(), self.ids(), rank as int));
            }
            n += 1;
        }
        extend_str(&mut s, "   a b c d e f g h i j k l\n");
        extend_str(&mut s, "Turn: ");
        let name = self.turn().to_string();
        let nv = crate::text::chars_of(name.as_str());
        crate::text::extend_chars(&mut s, &nv);
        extend_str(&mut s, " | HFEN: ");
        let h = self.get_hfen();
        let hv = crate::text::chars_of(h.as_str());
        crate::text::extend_chars(&mut s, &hv);
        s.push('\n');
        string_from(&s)
    }
}

} // verus!
