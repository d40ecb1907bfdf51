# particle_life

A "particle life" simulation: particles of six types attract or repel each
other according to an interaction matrix, in a toroidal world.

- `src/` — the verified core: the pause/editor state machine driven by the
  hot keys (`controls`, `resources`, `hud`), the spatial hash grid used for
  neighbour search, which wraps around the toroidal world (`spatial_grid`,
  `torus`), the neighbour lists of the interaction
  step (`physics`) and the layout of the spawned particle types
  (`particles`). Laws about them are proof functions next to the code.
- `app/` — the Bevy program: rendering, input, random numbers and all
  floating-point physics (forces, friction, integration, toroidal wrap).
- `tests/` — tests of the library on concrete values.
