# saga

An elevator-dispatch playground: a building simulation and the algorithms
that drive its elevators, with the discrete logic verified by Verus.

- `src/game.rs` — the elevator and floor records an algorithm sees, and the
  commands it gives.
- `src/reducer.rs` — the algorithm: a reducer over its own state, with the
  laws of its floor rotation.
- `src/challenges.rs` — the sixteen challenges and their end conditions.
- `src/sim/` — the discrete building: passengers arriving (from a seeded
  generator), getting on and off, call buttons, cars and their commands,
  with the invariant that every operation keeps.
- `app/` — the command-line runner: car motion and simulated time, which are
  floating point, and the statistics kept in seconds.
