# chusst

A small chess engine whose logic is written in Verus and proved against
its specification.

- `src/board.rs` and `src/board/`: pieces and positions, the board
  abstraction and its three representations (a square array, a packed
  array, bitboards with attack tables), FEN placement parsing, board
  diagrams and position iterators.
- `src/rules.rs`: the rules of chess as specification (targets of each
  piece, legal moves, the effect of a move).
- `src/game.rs` and `src/game/`: the game state, making moves, FEN input and
  output, Zobrist hashing, and trees of moves.
- `src/eval.rs` and `src/eval/`: legal move generation, check detection,
  move names in algebraic notation, history of positions, the alpha-beta
  search and the negamax value it computes, and why legal moves never take
  a king.
- `src/pgn.rs` and `src/pgn/`: the PGN lexer, the parser that collects
  games, and the interpreter that replays them in long algebraic form.
- `src/uci.rs`: the decisions of a UCI server: the protocol state machine,
  command parsing, replies, and the engine's side.
- `src/text.rs`: conversions between strings and character sequences.
- `app/`: the programs (UCI server, PGN to YAML converter) that do the I/O.
- `tests/`: tests of the library.
