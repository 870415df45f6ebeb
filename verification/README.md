# falcon

A Tetris engine core in Verus: a bitboard with line clears and garbage,
collision maps, piece movement and rotation with kicks and spin detection,
locking with combo and back-to-back rules, the seeded 7-bag queue, the board
evaluation, the key finder that turns a chosen placement into key presses,
and the decision logic of the chat bot around it.

## Layout

- `src/` — the verified library.
  - `bits.rs` — bit-level facts about the column words.
  - `board.rs`, `stats.rs` — the board, clearing, garbage, and the shape
    features (heights, holes, wells, unevenness).
  - `piece.rs` — minos, spins, piece data, kick tables, collision maps.
  - `game.rs` — the game state: moves, rotation and spins, locking, garbage
    settling.
  - `keyfinder.rs` — key presses as a function on games, and the search for
    the keys that reach a placement.
  - `rng.rs`, `queue.rs` — the Park-Miller generator and the piece queue.
  - `eval.rs`, `damage.rs`, `trainer.rs` — evaluation weights, the base attack
    table, and the integer parts of training.
  - `falcon.rs` — the engine's step: place, lock, settle.
  - `bot.rs` — command and tick decisions of the chat bot.
  - `laws.rs` — properties that relate several operations.
- `tests/` — tests on concrete values.
- `app/` — the program: the JSON line protocol, floating-point attack
  computation, the trainer's random draws and threads, and the terminal view.

## What the program does not have

- There is no placement search (a beam search over the evaluation). The
  server is written against a search function and is started with one that
  never chooses, so every step hard-drops the piece where it spawned.
- The chat bot's client (its connection to the game server, its event
  wiring and its environment settings) is not here either; `main` always
  starts the server. The bot's decisions are in `src/bot.rs`.
- The piece shapes and kick table are the standard rotation system, built
  into `app/pieces.rs`; other kick tables are given as data in the start
  message.
