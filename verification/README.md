# tetr

A game with tetrominoes falling, for one or two players (one of them may be the computer),
locally or over the network.

The library (`src/`) holds the game's logic with its contracts, proved by Verus:

- `data`: cells, grids and grid adaptors (rows, columns, translations, unions, differences,
  imprints, iterators, printing), the shapes and their rotations, the worlds (a static
  10 × 20 one and one sized at run time) with collision checks, imprinting and the removal of
  full rows, and a two-way map.
- `game`: players, inputs, requests, the random generator mappings, and the game state:
  moving, rotating (with wall kicks), fast falling, gravity, respawning and resetting worlds.
- `input`: what an input does to a player, and what the game's own keys do.
- `controller::ai`: the computer players' measures of a world and their choice of target.
- `cli`: decoding the window size and the OpenGL version from the command line.
- `online`: the packets' protocol identification, and what client and server decide on the
  packets they receive.

The program (`app/`) runs the window, the event loop and its timers (seconds, in floating
point), the rendering, the command line parser, and the network sockets and serialization.
