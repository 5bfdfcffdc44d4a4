# fluid_sim

A particle-in-cell fluid simulation whose grid bookkeeping is verified with Verus.

- `src/` is the verified library:
  - `grid.rs`: `Grid<T>`, a row-major grid of optional values, with its model
    `GridView` and the laws on slots, positions, reads and writes.
  - `cell.rs`: `Cell`, the particle indices of one grid cell.
  - `particle_grid.rs`: `ParticleGrid`, which files each particle in the cell of its
    position; `add_particle` and `move_particle_grid_pos` keep that index exact.
  - `collisions.rs`: the pairs of particles in neighbouring cells that may collide.
  - `direction.rs`: the axes `X` and `Y` of the staggered velocity grids and which
    velocity samples the particles define.
  - `frame_loop.rs`: how the window loop answers an event.
- `app/` is the program: the window (winit), the renderer, and the floating-point
  physics, which call the library for all grid bookkeeping.
- `tests/` runs the library on concrete values.
