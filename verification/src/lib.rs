//! Grouping a folder of images into clusters of similar pictures: the rules
//! that decide which files take part, how a picture is laid out for the
//! embedder, how feature rows are gathered, how rows are assigned to
//! centroids, and which files have to be moved where.
//!
//! Everything here works on plain values. Reading directories, decoding
//! pictures, running the embedder and fitting centroids are the caller's part.

pub mod cluster;
pub mod error;
pub mod matrix;
pub mod paths;
pub mod pipeline;
pub mod reorganize;
pub mod seeding;
pub mod tensor;
