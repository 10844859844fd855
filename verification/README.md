# channel_flow

Steady flow of a viscous incompressible fluid through a two-dimensional
channel, solved with Taylor-Hood triangles (quadratic velocities, linear
pressures), with a secant search for the inflow parameter that best
matches a downstream velocity profile.

- `src/` is the verified library (Verus): the discrete part of the solver.
  - `flow.rs`: `Flow_struct`, the sizes and integer arrays of a problem.
  - `grid.rs`: grid points, numbering of the unknowns and element table
    (`setgrd`), with the laws of the numbering and of the elements.
  - `band.rs`: band width of the system matrix (`setban`) and positions in
    its band storage, with the law that every element coupling fits.
  - `profile.rs`: the profile line (`setlin`, `igetl`, `getg`) and the
    reads of nodal values.
  - `layout.rs`: positions in the per-element tables.
- `app/main.rs` runs the solver: the floating-point work (basis
  functions, assembly, banded LU factorisation, Newton and secant
  iterations) and the output files.
- `tests/` exercises the library.
