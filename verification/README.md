# Beambuilder

A 2D bridge construction game: the player joins the anchors of a level with
beams, a static solver colours the beams by stress, and a test run sends a
small train across.

- `src/` is the game's logic, verified with Verus: the truss graph (nodes,
  beams, fresh ids, refusal of self-loops and duplicate beams), the edit
  operations (drawing a beam, deleting one with its orphaned free nodes,
  clearing the truss) and the undo/redo history that records them, the mode
  switch and HUD labels, the degree-of-freedom layout of the static solver,
  the ground-mesh triangulation, and the resolution of the level path.
  The engine's hash map that holds nodes and beams is used through a small
  set of trusted wrappers in `src/collections.rs`.
- `app/` is the game around it: the engine setup, input, drawing, camera,
  asset loading, the command line and file-system lookups, and everything
  that computes with floating-point numbers (snapping, picking, the
  stiffness assembly and solve, the mass-spring test simulation).
- `tests/` runs the library on concrete cases.
