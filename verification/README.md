# Morstilia

The logic of a chess engine, written in Verus: positions and moves, the
classical evaluation, the network evaluation, move ordering, endgame tables,
opening suites, engine-vs-engine matches and the command lines around them.

- `src/` is the library. Every function states what it returns or changes, and
  Verus proves it. Functions named `law_*` state what holds of several functions
  together.
  - `board`: positions. The rules of chess are asked of `shakmaty`, in
    `board/rules.rs` and nowhere else; a position is handed over as its FEN.
  - `evaluation`: the terms of the classical evaluation and their parameters.
  - `nnue`: feature sets, running sums, networks and their files. Sums that are
    updated move by move are proved to be those of the board.
  - `move_ordering`: exchanges, killers, histories and the order of moves.
  - `matchplay`, `openings`, `rating`, `regression`: matches, clocks, reports.
  - `config`, `commands`, `endgame`, `book`: options, commands, tables, numbers.
- `tests/` runs the library, with `shakmaty` behind it.
- `app/` is the program: files, threads, the numbers with fractions, and the
  endgame tables on disk. It is built without a search; `app/search.rs` says
  what one has to offer.
