# shogi_legality_lite

Legality checking of moves in shogi, on the positions of `shogi_core`, with
contracts proved by Verus.

- `src/types.rs`: colors, piece kinds, pieces, squares, moves, statuses and errors.
- `src/model.rs`: a position as a map of integers, and what making a move does to it.
- `src/bitboard.rs`, `src/position.rs`, `src/game.rs`: the calls into `shogi_core`
  (`Bitboard`, `PartialPosition`, `Position`), each with the contract it is trusted for.
- `src/normal.rs`: how each piece moves.
- `src/prelegality.rs`: validity of moves without regard to the king's safety, mate,
  and whether a king can be captured.
- `src/checker.rs`: `LiteLegalityChecker`: legality, legal moves, candidate squares
  and the status of a position.
- `src/checks.rs`: checking moves.
- `src/mate_value.rs`: the length of a forced mate, and why it does not depend on
  the plies allowed once they suffice.
- `src/mate_solver.rs`: a solver for mate problems, which finds the shortest mate.
- `src/perft.rs`: counting lines of play.
- `src/laws.rs`: properties that relate the functions to each other.
- `app/lib.rs`: `shogi_core::LegalityChecker` and a C interface over the library.
