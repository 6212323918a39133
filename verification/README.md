# grand_pattern_mono

Rooms that each carry one vibe value, a windowed predictor (`Jepa`) per room,
gossip messages (`Murmur`) with a time-to-live, and a `CellGraph` of rooms
joined by weighted edges.

- `src/` is the verified library, generic over the vibe type `T`. It keeps the
  structure: the predictor's window of readings and weights, room creation
  and removal, edges, ticks, gossip and murmur decay, each with a contract and
  the laws that tie the operations together (`lemma_*` proof functions).
- `app/` is the `f64` layer: predictions, surprises, weight learning,
  diffusion and fleet averages, computed in floating point on top of the
  library's types.
- `tests/` runs the library on concrete values.
