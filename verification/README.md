# chess_engine

A chess engine whose rules are verified with Verus: bitboard move generation,
making and taking back moves, static evaluation, FEN reading and writing, UCI
command parsing, and an alpha-beta search with a quiescence search.

- `src/` is the verified library. Each module states its contracts over a
  model of the board (`Board::view`, a sequence of 64 occupants) and over spec
  functions of the rules (`rules.rs`).
- `tests/` runs the library on concrete positions.
- `app/` is the UCI front end: it reads commands from standard input and prints
  the engine's answers.
