# tetris

A falling-block puzzle game whose engine is written in Verus and proved
against its contracts.

## Layout

- `src/` — the verified engine.
  - `block.rs`: the game's constants, the timing `Settings` a game carries
    (its owner may change them between frames), the kinds of pieces, cells,
    keys and moves, and the turns between the four directions.
  - `shapes.rs`: the shape of each piece in each direction, and the
    wall-kick offsets of the rotation system.
  - `field.rs`: the playing field as a grid of cells, clearing full rows, and
    drawing a field as text.
  - `mino.rs`: the falling piece; moving, turning, locking and the ghost, each
    stated over `MinoView`, the piece as mathematical values.
  - `generator.rs`: the seven-bag piece generator; the only call into an
    outside crate is the shuffle of a fresh bag (`rand`).
  - `manager.rs`: the game state and one frame of the game loop, stated as a
    sequence of phases over `GameView`.
  - `laws.rs`: properties that span several operations (a hard drop lands
    where the ghost is drawn, a move can be undone, cleared fields have no full
    row, a frame handles every pressed key and leaves exactly four falling
    cells, no cell locks while the piece can fall, pieces are dealt in bags of
    seven in the order previewed, ...).
- `tests/` — tests on concrete values.
- `app/` — the user interface (Dioxus): reads the keyboard and the clock,
  runs a frame about every eight milliseconds, and draws the field.
