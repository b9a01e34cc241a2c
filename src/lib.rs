//! Synchronisation engine for an endlessly tiling background with a
//! coherent-noise overlay: sizing of the overlay buffer from the viewport,
//! selection of the sampling quadrant from the camera offset, population of
//! the buffer from sampled noise, and the per-frame controller that orders
//! those steps.

pub mod tiling;
pub mod quadrant;
pub mod window;
pub mod buffer;
pub mod sync;
