# hurry_cargo

The logic of a build cache for Cargo, verified with Verus.

- `build_plan`: the unit hash that an invocation of a build plan tells.
- `unit_graph`, `unit_walk`, `unit_hash`: what a unit graph tells of its units, the order
  in which they are visited, and the hashes that Cargo gives to them. The stable hasher of
  rustc does the hashing; `hasher` says what is trusted of it.
- `fingerprint`: which fingerprints have to be rewritten, in which order, before one of
  them can be saved, and the source paths they get.
- `save`, `session`: saving the units of a build. A session takes what happened and says
  what to do next.
- `save_laws`, `progress_laws`, `course_laws`: what holds of every course of saving, what
  its reports, stored objects and requests have to do with each other, and what a unit that
  came from the cache is worth to others.
- `text`, `path`, `string_map`, `target`: what the above rests on. Paths are those of
  Unix.

`app/` reads and writes JSON and runs the loop around a session.
