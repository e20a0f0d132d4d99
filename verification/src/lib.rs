//! Pairwise kernels over two sets of 2D points that are stored as parallel
//! coordinate arrays, with several interchangeable ways to walk the arrays:
//! in lane batches, in blocks on worker threads, and in both.
pub mod cartesian;
pub mod chunks;
pub mod laws;
pub mod model;
pub mod pool;
