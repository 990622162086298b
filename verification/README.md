# octoplat_game

Level-building logic of an underwater platformer, verified with Verus.

- `src/segment_linker/`: reading pool levels as segments, the four
  layouts (linear, vertical, zig-zag, grid), punching walls and carving
  corridors between segments, placing spawn and exit, and trimming wall
  padding from a finished level.
- `src/level/`: seeds and tilemaps taken from level text.
- `src/text.rs`: characters, lines and white space of level text.
- `src/audio.rs`: sound and music identifiers and their asset paths.
- `app/`: the floating-point interpolation of corridor paths, and entry
  points that check the library's preconditions before calling it.
- `tests/`: tests run against the compiled library.
