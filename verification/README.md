# chess engine library (verified)

A chess engine library written in Verus: boards as bitboards with
incremental Zobrist hashing, move generation and legality, make/unmake,
FEN and EPD reading and writing, perft, a static evaluator, a transposition
table, move ordering, two negamax searchers (a plain one and one with
null-move pruning, late move reductions, principal variation search,
aspiration windows and quiescence search), an opening book, Polyglot book
reading and a UCI command handler.

Layout:

- `src/` is the verified library. Each public function states its result in
  `ensures` over spec functions and views; laws that relate several
  functions are public proof functions (for example `hash_law.rs`,
  `fen_roundtrip.rs`). The searchers return, beside each score, a ghost
  record of the search as it ran, and `plain_explains` / `explains` state
  what that record means.
- `tests/` holds the tests, run against the compiled library.
- `app/` is the program around the library: the UCI and web front ends,
  file reading, tuning with floating point, and per-thread settings.
