pub mod cell;
pub mod collisions;
pub mod direction;
pub mod frame_loop;
pub mod grid;
pub mod particle_grid;
