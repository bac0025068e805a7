# monster_survivors

The rules of a small top-down survivor game, verified with Verus.

- `src/` is the verified library: player level, experience and health (`player`),
  per-entity countdowns kept in the engine's hash map (`timers`), what one frame of
  physics contacts does (`combat`), floating damage numbers (`effects`), animation frames
  and steering (`animation`), and pausing, the level-up choice and one-off events (`game_flow`).
  Entities are identified by their 64-bit engine ids, time by whole nanoseconds.
- `app/` is the Bevy program around it: spawning, rendering, physics queries, input,
  and everything computed on floating-point positions and velocities.
- `tests/` runs the library on concrete cases.
