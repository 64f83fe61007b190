# boids

A flock of boids in a wrapping cube world, steered by separation, alignment,
cohesion and user-placed attractors, with an octree over the grid cells the
boids occupy.

- `src/` is the verified library (Verus): the whole-number configuration,
  the attractor modes, the population bookkeeping that keeps the flock at its
  configured size and gives every boid a fresh mesh tag, the construction of
  the octree over the occupied cells (through the `oktree` crate), the choice
  of the octree nodes that are drawn, and the attractor panel's selection.
- `tests/` runs the library on concrete values.
- `app/` is the Bevy program around it: rendering, input, the egui panels and
  the floating-point flocking rules.
