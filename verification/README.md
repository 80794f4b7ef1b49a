# Pyro

The game logic of Pyro, a Godot game: NPCs that plan with hierarchical task
networks written in a small `.htn` language, act out their plans, and find
things in the scene through registries. The logic is verified with Verus;
the engine side is ordinary Rust.

## Layout

- `src/` — the verified library.
  - `value`, `blackboard`, `boards`: blackboard values and the blackboards of
    the NPCs.
  - `condition`, `effect`, `htn`: conditions, effects and planning over task
    networks.
  - `grammar`, `parser`: the `.htn` language as a grammar, and its parser.
  - `fact_htn`: task networks over boolean facts.
  - `actor`, `planning_actor`: the decisions of actors that run plans, one
    step at a time.
  - `registry`, `sorting`: registries of scene nodes and their query chains.
  - `text`: string order and conversions.
- `tests/` — tests of the library.
- `app/` — the Godot classes: they read the engine, call the library, and hold
  what the verifier cannot (floating-point physics and scores, engine objects).

Floats never enter the library: a float value is held as its decimal text, and
every float comparison or computation is handed to the caller (`FloatOps`).
Distances and keys reach the registries as the bits of `f32`/`f64` values,
ordered by IEEE 754's total order.
