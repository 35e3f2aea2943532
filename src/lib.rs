//! Least-cost pathway tracing over a grid of flow pointers.
//!
//! Given a mask of destination cells and a back-link grid whose cells point
//! at one of their eight neighbours, every destination's chain of pointers is
//! followed back to its source, and each cell records how many chains pass
//! through it.
pub mod direction;
pub mod grid;
pub mod laws;
pub mod pathway;
pub mod tool;
pub mod trace;
