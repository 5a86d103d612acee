# beams

Spotlights sweep across a starfield, lighting up the live OS logo as they pass:
the grid logic of a terminal screensaver, verified with Verus.

## Layout

- `src/` — the verified library. A frame is drawn onto a `cols` by `rows`
  field of `GridCell`s in layers, each specified as a function of the grid
  before it:
  - `backdrop` — every field cell cleared to a blank shaded by the beams;
  - `stars` and `flare` — stars at their cells, the (at most four) most
    excited ones with lens flares;
  - `dust` — lit dust motes over blanks and flare arms;
  - `logo` — the centred logo block, stamped on top;
  - `frame` — the whole frame and its laws;
  - `population`, `settings`, `host` — star and dust counts, stored
    settings, and what is read from the host description.
- `tests/` — tests of the library on concrete values.
- `app/` — the screensaver program: motion, timing and beam lighting in
  `f32`, the system queries and the runner, feeding the library.
