# duckchess

Board, history and move-ordering code of a duck chess engine, verified with Verus.

- `src/common.rs`: colors, pieces, files, ranks, squares, bitboards and moves.
- `src/board/`: the board and its hashes; reading and writing FEN (`fen.rs`), with the proofs
  (`fen_laws.rs`) that reading back what `to_fen` writes gives the same board for every board
  whose text can be read back, and that every board `from_fen` reads is such a board in
  Shredder notation; the standard,
  Chess960 and double Chess960 starting positions (`startpos.rs`).
- `src/search/params.rs`: the search parameters and the formulas built on them.
- `src/search/history/`: butterfly, duck, pawn, continuation and correction histories, updated
  by gravity so that every entry stays within its bound.
- `src/search/move_picker.rs`: the stack of generated moves of the current line, and the move
  picker that hands out the moves of a node stage by stage, best first within each stage, with
  the proofs that a full run hands out every generated move other than the transposition table
  move as often as it was generated.

Move generation, legality and static exchange evaluation are not part of this crate: the picker
takes their results as plain values (`NodeMoves`).

Verify with `verus src/lib.rs --crate-type lib`; the tests under `tests/` run with `cargo test`.
