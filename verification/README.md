# hyperchess

Rules, notation and tooling for HyperChess, chess on a 12×12 board with two
extra piece kinds (the eagle, an orthogonal jumper, and the hawk, a diagonal
jumper), written in Verus. The verifier proves every function of the library
against its contract, except two trusted wrappers over the standard
library whose contracts it takes as given: `text::push_char`
(`String::push`) and `cli::game::to_lowercase` (`str::to_lowercase`).
The few functions without a contract are the initialisation hooks
(`init_boards`, `init_psqt`, `init_statics`, `Helper::init`), which do
nothing because every table is computed on demand, and trait methods such
as `clone` whose meaning the derive gives.

## Layout

- `src/core_types/` — squares, pieces, moves, bitboards and move lists.
- `src/helper/` — attack sets of every piece kind, piece-square values and
  the Zobrist keys.
- `src/board/` — the board: HFEN(-I) reading and writing, applying and
  taking back moves, move generation (`movegen/rules.rs` states the moves
  the rules give), draw rules and perft (`perft_laws.rs` proves the count
  depends on the position alone and sums over the moves; `play_laws.rs`
  that on a position in play every listed move can be played, keeps the
  king safe, is taken back exactly and leads to a position in play).
- `src/io/` — HSAN reading and writing.
- `src/notation.rs`, `src/game_replay.rs` — HPGN-I game records and their
  replay; `src/notation_laws.rs` proves that a record reads back from its
  own text.
- `src/uci/`, `src/cli/`, `src/api/` — the pure parts of the UCI server and
  client, the command-line exports and the HTTP routes.
- `src/eval.rs` — the piece-square formula of the evaluator.
- `app/` — the `hyperchess` command line (`perft`, `show`, `uci`) and the
  file reading and writing around the library.
- `tests/` — executable tests of the library.
