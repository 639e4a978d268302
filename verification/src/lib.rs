//! A 2D arcade collision and motion engine for a paddle-and-blocks
//! bouncing-ball game, built on exact integer arithmetic.
//!
//! Positions and velocities live on a fixed-point integer grid (the caller
//! picks the scale, e.g. 60 grid units per world unit).  The geometry kernel
//! works with exact rational points, so segment intersection and
//! closest-point computations carry no rounding error; results are rounded
//! back to the grid only where a state value is committed.

pub mod num;
pub mod math;
pub mod collide;
pub mod game;
pub mod assets;
