# hyperchess_rules: HSAN, verified

HSAN is the algebraic move notation of HyperChess, a 12×12 chess variant with
two extra piece types, the Eagle (`E`) and the Hawk (`H`). This crate reads HSAN
strings, resolves them against the legal moves of a position, and writes legal
moves back as HSAN, with every function proved against its contract by Verus.

Layout of `src/`:

- `board.rs`: piece types, squares, moves, and `Board`, the position data that
  HSAN reads (the piece on each of the 144 squares, the legal moves of the side
  to move, and for each of them whether it gives check and how many replies the
  opponent then has). `Board::new` accepts only data that satisfies the
  invariant of a position.
- `hsan_parse.rs`: the grammar as functions on character sequences,
  `parse_hsan` and `hsan_to_hypermove`.
- `hsan_export.rs`: `hypermove_to_hsan`.
- `laws.rs`: the properties of HSAN as a whole: grammar round trip, export
  round trip (`resolve(parse(export(m, p)), p) == m`), uniqueness of the HSAN
  strings of a position, exact resolution, and that reading consumes every
  character.
- `text.rs`: white space, decimal numerals, and the few std calls that build
  `String`s and `Debug` quotations.

Move generation is not part of this crate: a `Board` is built from the moves a
move generator found.
