use vstd::prelude::*;

verus! {

/// Why a run stopped. Every failure ends the run; nothing is retried.
#[derive(Clone, Copy, Debug, PartialEq, Eq, Structural)]
pub enum PipelineError {
    /// The root directory could not be opened or listed.
    DirectoryUnreadable,
    /// No entry of the root directory has an accepted extension.
    NoImagesFound,
    /// A file could not be decoded into a picture of the expected size.
    DecodeError,
    /// The embedder returned a vector of another length than configured.
    FeatureDimMismatch,
    /// The embedder failed on some picture.
    EmbeddingError,
    /// There are no rows to cluster.
    EmptyDataset,
    /// The number of clusters is zero or exceeds the number of rows.
    InvalidK,
    /// A file already lies where another one should be moved.
    MoveCollision,
}

} // verus!
