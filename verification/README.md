# migoyugo

Rules, notation and engines for the board game Migoyugo, with their behaviour stated in
contracts and proved with Verus.

- `src/` is the verified library:
  - `sq`, `mv`, `piece`, `outcome`, `state`, `game`, `lines`, `bits`, `text`: the board, the
    rules of play, and the square, move, position and move-list notations;
  - `itgo`: the Itgo engine's bitboards, game stack, transposition table and alpha-beta search;
  - `engine`, `protocol`: a first, simpler engine's move maker, its answers to undo, play and
    search requests, and the text protocol types;
  - `arena`: opening books, the referee's decisions during a game, and match statistics for
    engine-versus-engine matches;
  - `bridge`: the decisions of the bridge between the Migoyugo site and a local engine.
- `tests/` runs the library on concrete games and positions.
- `app/` holds the programs around it: the Itgo engine's message loop and searcher thread, and
  the arena's engine processes, match threads and sequential test (in floating point).
