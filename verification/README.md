# simulation

A falling-sand world (sand, water, lava, steam, stone) whose rules are
verified with Verus, and a macroquad program that shows it.

- `src/` is the verified library.
  - `vec2`, `cell`: integer vectors and the kinds of cell with their properties.
  - `grid`: the chunked layout of a world in a buffer, and the proofs that it
    is a bijection between positions and buffer indices.
  - `double_buffer`, `world_view`, `chunk_view`: the buffers and the views that
    read and write them by position.
  - `rules`: one tick's rules for a single cell (push, pull, movement,
    transmutation), each as a spec function and an executable function.
  - `world`: `Simulation`, whose `tick` is proved to produce one of the worlds
    that the rules allow for some outcome of the random draws.
  - `world_gen`, `tool`, `texture`, `performance_monitor`: world generators, the
    dropper tool, texture coordinates and smoothed timings.
  - `laws`: properties that relate several functions, such as that stone never
    moves and that cells move at most one step per tick.
  - `random`: the calls into `rand` and `macroquad` that draw random values.
- `app/` is the window, the widgets, the renderers, file dialogs and saving.
- `tests/` runs the library on concrete worlds.
