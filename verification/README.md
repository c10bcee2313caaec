# cg_ultimate_tic_tac_toe

A bot for Ultimate Tic-Tac-Toe (the CodinGame puzzle) with a verified core.

`src/` is a Verus library: every function in it carries a `requires`/`ensures`
contract that Verus proves.

- `cell_index`, `map3x3`, `tic_tac_toe`, `cell_set`: 3x3 boards, their status
  (win, tie, open), threats (cells that complete a line), control and the status
  of lines through a cell of the status map.
- `game`: the game itself (`UltTTT`), moves, the move constraint, the moves
  allowed in a position, applying a move and the game result, with the laws that
  play keeps a position well formed, fills one cell per move and ends.
- `simulation`: random playouts (moves drawn with `rand`), proved to be legal
  games that end with the reported result.
- `heuristic`, `old_heuristic`: the integer decisions and counts the heuristics
  are built from (direct losses, constraint overlap, per-board scan).
- `tree`, `search`: the search tree of the engine, progressive widening counts
  and the final move choice.
- `features`, `feature_hash`: the feature vector of a position and its BLAKE3
  hash as used for training data.
- `legacy`: the first generation of the bot's game and library code: map
  points and 2D maps, compass directions, the old game model with its move
  cursor, a node tree with pre-, post- and level-order walks, and point walks
  along a direction or around a point.

`app/` is the program around the library: the CodinGame input loop, the
floating-point parts (heuristic scores, UCT selection, configurations), timed
matches between two engines and the first bot's search.

`tests/` holds the tests; they run against the compiled library.
