# ggengine

A 2D game engine built around an entity-component-system core, written as a Verus project.

- `src/` is the verified library: entities and their component storages, resources, events,
  the system schedule and the scene that holds them, queries, and the plain data of the engine
  (audio settings and volume, pixel formats and image areas, font settings, asset layout,
  colors, signs and integer vectors, window settings). Every function carries a contract that
  Verus proves; the public `law_*` proof functions state the properties that hold across calls.
- `tests/` exercises the library on concrete values.
- `app/` is the layer around the library that talks to the outside world through `sdl2`,
  `serde` and the file system (windows, rendering, audio playback, fonts, images, asset files),
  together with the floating-point mathematics (angles, float vectors, matrices, shapes,
  collisions).
