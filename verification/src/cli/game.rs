//! Per-side engine configuration and export naming.

use vstd::prelude::*;

use crate::board::draw_rules::{adjudicated_code, reason_text, result_code};
use crate::board::movegen::has_legal_move;
use crate::board::Board;
use crate::text::{chars_eq_str, chars_of, dec_digits, extend_chars, extend_str, hex_digits, push_decimal, push_hex, string_from};

verus! {

/// The GPU backend found at start-up.
#[derive(Debug, Clone)]
pub enum GpuBackend {
    /// A CUDA device, by name.
    Cuda(String),
    /// No GPU.
    NoGpu,
}

/// All parameters needed to run one side's engine for a single move.
#[derive(Clone, Debug)]
pub struct EngineConfig {
    pub name: String,
    pub depth: u32,
    pub simulations: u32,
    pub batch_size: usize,
    pub threads: usize,
}

/// What `str::to_lowercase` gives for a text (the Unicode lowercase
/// mapping of each character).
pub uninterp spec fn unicode_lowercase(s: Seq<char>) -> Seq<char>;

/// `c` lowercased when it is an ASCII capital, else `c` itself.
pub open spec fn ascii_lower_char(c: char) -> char {
    if 'A' <= c <= 'Z' {
        ((c as u32) + 32) as char
    } else {
        c
    }
}

/// Every character of `s` is ASCII.
pub open spec fn all_ascii(s: Seq<char>) -> bool {
    forall|i: int| 0 <= i < s.len() ==> (#[trigger] s[i] as u32) < 128
}

/// `str::to_lowercase`. The result is named [`unicode_lowercase`] of the
/// text; of the mapping, only what the documentation gives for ASCII text
/// is stated: capitals `A`..`Z` become `a`..`z`, other ASCII characters
/// stay, and the length is kept.
#[verifier::external_body]
pub(crate) fn to_lowercase(s: &str) -> (r: String)
    ensures
        r@ == unicode_lowercase(s@),
        all_ascii(s@) ==> r@ == s@.map_values(|c: char| ascii_lower_char(c)),
{
    s.to_lowercase()
}

/// `"<prefix>(<n>)"`.
pub open spec fn count_label(prefix: Seq<char>, n: nat) -> Seq<char> {
    prefix + seq!['('] + dec_digits(n) + seq![')']
}

/// `"<prefix>(d<n>)"`.
pub open spec fn depth_label(prefix: Seq<char>, n: nat) -> Seq<char> {
    prefix + seq!['(', 'd'] + dec_digits(n) + seq![')']
}

/// The export label of an engine with the lowercased name `l`.
pub open spec fn label_text(l: Seq<char>, cuda: bool, simulations: nat, depth: nat) -> Seq<char> {
    if l == "cuda_mcts"@ {
        count_label(if cuda { "GPU-MCTS"@ } else { "CPU-MCTS"@ }, simulations)
    } else if l == "mcts"@ {
        count_label("CPU-MCTS"@, simulations)
    } else if l == "alphabeta"@ || l == "ab"@ {
        depth_label("AlphaBeta"@, depth)
    } else if l == "iterative"@ || l == "id"@ {
        depth_label("CPU-ID"@, depth)
    } else if l == "guided"@ || l == "guided_ab"@ {
        depth_label("CPU-GAB"@, depth)
    } else if l == "guided_id"@ {
        depth_label("CPU-GID"@, depth)
    } else if l == "strategic"@ || l == "strategic_like"@ {
        depth_label("CPU-Strategic"@, depth)
    } else if l == "aggressive"@ || l == "commercial"@ || l == "stockfish_like"@ {
        depth_label("CPU-Aggressive"@, depth)
    } else if l == "random"@ {
        "Random"@
    } else {
        l
    }
}

/// Appends `"<prefix>(<n>)"`.
fn push_count_label(out: &mut Vec<char>, prefix: &str, n: u32)
    ensures
        final(out)@ == old(out)@ + count_label(prefix@, n as nat),
{
    let ghost start = out@;
    extend_str(out, prefix);
    out.push('(');
    push_decimal(out, n as u64);
    out.push(')');
    assert(out@ =~= start + count_label(prefix@, n as nat));
}

/// Appends `"<prefix>(d<n>)"`.
fn push_depth_label(out: &mut Vec<char>, prefix: &str, n: u32)
    ensures
        final(out)@ == old(out)@ + depth_label(prefix@, n as nat),
{
    let ghost start = out@;
    extend_str(out, prefix);
    out.push('(');
    out.push('d');
    push_decimal(out, n as u64);
    out.push(')');
    assert(out@ =~= start + depth_label(prefix@, n as nat));
}

/// The export label of an engine whose name, lowercased, is `lower`.
pub fn label_for(lower: &str, gpu: &GpuBackend, simulations: u32, depth: u32) -> (r: String)
    ensures
        r@ == label_text(lower@, gpu is Cuda, simulations as nat, depth as nat),
{
    let l = chars_of(lower);
    let mut out: Vec<char> = Vec::new();
    if chars_eq_str(&l, "cuda_mcts") {
        match gpu {
            GpuBackend::Cuda(_) => push_count_label(&mut out, "GPU-MCTS", simulations),
            _ => push_count_label(&mut out, "CPU-MCTS", simulations),
        }
    } else if chars_eq_str(&l, "mcts") {
        push_count_label(&mut out, "CPU-MCTS", simulations);
    } else if chars_eq_str(&l, "alphabeta") || chars_eq_str(&l, "ab") {
        push_depth_label(&mut out, "AlphaBeta", depth);
    } else if chars_eq_str(&l, "iterative") || chars_eq_str(&l, "id") {
        push_depth_label(&mut out, "CPU-ID", depth);
    } else if chars_eq_str(&l, "guided") || chars_eq_str(&l, "guided_ab") {
        push_depth_label(&mut out, "CPU-GAB", depth);
    } else if chars_eq_str(&l, "guided_id") {
        push_depth_label(&mut out, "CPU-GID", depth);
    } else if chars_eq_str(&l, "strategic") || chars_eq_str(&l, "strategic_like") {
        push_depth_label(&mut out, "CPU-Strategic", depth);
    } else if chars_eq_str(&l, "aggressive") || chars_eq_str(&l, "commercial") || chars_eq_str(
        &l,
        "stockfish_like",
    ) {
        push_depth_label(&mut out, "CPU-Aggressive", depth);
    } else if chars_eq_str(&l, "random") {
        extend_str(&mut out, "Random");
    } else {
        extend_chars(&mut out, &l);
    }
    string_from(&out)
}

impl EngineConfig {
    /// An engine configuration.
    pub fn new(name: &str, depth: u32, simulations: u32, batch_size: usize, threads: usize) -> (r: Self)
        ensures
            r.name@ == name@,
            r.depth == depth,
            r.simulations == simulations,
            r.batch_size == batch_size,
            r.threads == threads,
    {
        let v = chars_of(name);
        EngineConfig { name: string_from(&v), depth, simulations, batch_size, threads }
    }

    /// Human-readable label for export (e.g. "GPU-MCTS(800)" or
    /// "AlphaBeta(d4)"), from the lowercased engine name.
    pub fn label(&self, gpu: &GpuBackend) -> (r: String)
        ensures
            r@ == label_text(
                unicode_lowercase(self.name@),
                gpu is Cuda,
                self.simulations as nat,
                self.depth as nat,
            ),
            all_ascii(self.name@) ==> r@ == label_text(
                self.name@.map_values(|c: char| ascii_lower_char(c)),
                gpu is Cuda,
                self.simulations as nat,
                self.depth as nat,
            ),
    {
        let lower = to_lowercase(self.name.as_str());
        label_for(lower.as_str(), gpu, self.simulations, self.depth)
    }
}

/// The base path of a game's export files: `<out_dir>/<timestamp>_<seed>`
/// with the seed as 16 lowercase hexadecimal digits.
pub open spec fn export_base_text(out_dir: Seq<char>, timestamp: Seq<char>, game_seed: u64) -> Seq<char> {
    out_dir + seq!['/'] + timestamp + seq!['_'] + hex_digits(game_seed as nat, 16)
}

/// The base path of a game's export files (unique per game seed, so games
/// finishing in the same second do not collide).
pub fn export_base(out_dir: &str, timestamp: &str, game_seed: u64) -> (r: String)
    ensures
        r@ == export_base_text(out_dir@, timestamp@, game_seed),
{
    let mut out: Vec<char> = Vec::new();
    extend_str(&mut out, out_dir);
    out.push('/');
    extend_str(&mut out, timestamp);
    out.push('_');
    push_hex(&mut out, game_seed, 16);
    assert(out@ =~= export_base_text(out_dir@, timestamp@, game_seed));
    string_from(&out)
}

/// The message a finished game's result is reported with, from the
/// adjudicated result, the result before adjudication (0 ongoing, 1 White
/// wins, 2 Black wins, 3 draw) and the termination reason. Wins keep the
/// words `White wins` / `Black wins`, which the exports look for.
pub open spec fn result_message_text(result: u8, raw_result: u8, reason: Seq<char>) -> Seq<char> {
    if result == 1 && raw_result == 1 {
        "White wins"@
    } else if result == 2 && raw_result == 2 {
        "Black wins"@
    } else if result == 1 {
        "White wins by material adjudication (move limit)"@
    } else if result == 2 {
        "Black wins by material adjudication (move limit)"@
    } else if result == 3 && raw_result == 3 {
        if reason == "move_limit"@ {
            "Draw by move limit (material equal)"@
        } else if reason == "fivefold_repetition"@ {
            "Draw by fivefold repetition"@
        } else if reason == "threefold_repetition"@ {
            "Draw by threefold repetition"@
        } else if reason == "insufficient_material"@ {
            "Draw by insufficient material"@
        } else if reason == "stalemate"@ {
            "Draw by stalemate"@
        } else {
            "Draw"@
        }
    } else if result == 3 {
        "Draw by move limit (material equal)"@
    } else {
        "Ongoing"@
    }
}

/// The message a finished game's result is reported with.
pub fn result_message(result: u8, raw_result: u8, reason: &str) -> (r: String)
    ensures
        r@ == result_message_text(result, raw_result, reason@),
{
    let t = chars_of(reason);
    let mut out: Vec<char> = Vec::new();
    if result == 1 && raw_result == 1 {
        extend_str(&mut out, "White wins");
    } else if result == 2 && raw_result == 2 {
        extend_str(&mut out, "Black wins");
    } else if result == 1 {
        extend_str(&mut out, "White wins by material adjudication (move limit)");
    } else if result == 2 {
        extend_str(&mut out, "Black wins by material adjudication (move limit)");
    } else if result == 3 && raw_result == 3 {
        if chars_eq_str(&t, "move_limit") {
            extend_str(&mut out, "Draw by move limit (material equal)");
        } else if chars_eq_str(&t, "fivefold_repetition") {
            extend_str(&mut out, "Draw by fivefold repetition");
        } else if chars_eq_str(&t, "threefold_repetition") {
            extend_str(&mut out, "Draw by threefold repetition");
        } else if chars_eq_str(&t, "insufficient_material") {
            extend_str(&mut out, "Draw by insufficient material");
        } else if chars_eq_str(&t, "stalemate") {
            extend_str(&mut out, "Draw by stalemate");
        } else {
            extend_str(&mut out, "Draw");
        }
    } else if result == 3 {
        extend_str(&mut out, "Draw by move limit (material equal)");
    } else {
        extend_str(&mut out, "Ongoing");
    }
    string_from(&out)
}

/// The result message of the game on `board`, adjudicated by material when
/// the game hit the move cap (`capped`).
pub fn final_result_message(board: &Board, capped: bool) -> (r: String)
    requires
        board.ready(),
    ensures
        r@ == result_message_text(
            adjudicated_code(*board, has_legal_move(*board), capped),
            result_code(*board, has_legal_move(*board), !board.st().checkers.none_set()),
            reason_text(*board, has_legal_move(*board), !board.st().checkers.none_set()),
        ),
{
    let raw = board.game_result();
    let result = board.game_result_adjudicated(capped);
    let reason = board.termination_reason();
    result_message(result, raw, reason)
}

} // verus!
