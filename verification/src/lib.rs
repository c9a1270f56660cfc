//! Deterministic 2D driving-simulation core: a tile grid compiled into a
//! closed-loop centerline, continuous road-membership and raycast sensing
//! queries against that grid, and a pure vehicle-kinematics stepper.
//!
//! All geometry uses integer fixed-point arithmetic, so every query and every
//! simulation step is an exact mathematical function of its inputs and
//! replays are bit-identical.

pub mod centerline;
pub mod geom;
pub mod grid;
pub mod physics;
pub mod progress;
pub mod sensor;
pub mod tile;
pub mod track;
pub mod trig;
