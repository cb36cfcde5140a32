use crate::error::PipelineError;
use vstd::prelude::*;

verus! {

/// The feature vectors of the images, one row for each image and in the
/// images' order. A scalar is kept as the 32 bits of its floating-point
/// value and is never computed with here.
pub struct FeatureMatrix {
    rows: Vec<Vec<u32>>,
    feature_dim: usize,
}

impl View for FeatureMatrix {
    type V = Seq<Seq<u32>>;

    closed spec fn view(&self) -> Seq<Seq<u32>> {
        self.rows@.map_values(|row: Vec<u32>| row@)
    }
}

/// The scalars that a list of vectors holds.
pub open spec fn scalars(vectors: Seq<Vec<u32>>) -> Seq<Seq<u32>> {
    vectors.map_values(|v: Vec<u32>| v@)
}

/// Every vector has `dim` scalars.
pub open spec fn all_of_dim(vectors: Seq<Seq<u32>>, dim: nat) -> bool {
    forall|i: int| 0 <= i < vectors.len() ==> (#[trigger] vectors[i]).len() == dim
}

impl FeatureMatrix {
    /// The configured length of a feature vector.
    pub closed spec fn dim(&self) -> nat {
        self.feature_dim as nat
    }

    /// There is at least one column, and every row fills all of them.
    pub open spec fn wf(&self) -> bool {
        self.dim() >= 1 && all_of_dim(self@, self.dim())
    }

    /// A matrix without rows for vectors of `feature_dim` scalars.
    pub fn new(feature_dim: usize) -> (m: FeatureMatrix)
        requires
            feature_dim >= 1,
        ensures
            m.wf(),
            m.dim() == feature_dim,
            m@.len() == 0,
    {
        FeatureMatrix { rows: Vec::new(), feature_dim }
    }

    /// Appends the vector of the next image. A vector of another length than
    /// the configured one is refused with `FeatureDimMismatch`, and the matrix
    /// stays as it was.
    pub fn push_row(&mut self, vector: Vec<u32>) -> (r: Result<(), PipelineError>)
        requires
            old(self).wf(),
        ensures
            final(self).wf(),
            final(self).dim() == old(self).dim(),
            r is Ok <==> vector.len() == old(self).dim(),
            r is Ok ==> final(self)@ == old(self)@.push(vector@),
            r is Err ==> final(self)@ == old(self)@ && r == Err::<(), PipelineError>(
                PipelineError::FeatureDimMismatch,
            ),
    {
        if vector.len() != self.feature_dim {
            return Err(PipelineError::FeatureDimMismatch);
        }
        self.rows.push(vector);
        proof {
            assert(self@ =~= old(self)@.push(vector@));
        }
        Ok(())
    }

    /// Makes the matrix of all images at once: row `i` is vector `i`. Fails
    /// with `FeatureDimMismatch` exactly when some vector has another length
    /// than `feature_dim`; no part of a matrix comes back then.
    pub fn build(vectors: Vec<Vec<u32>>, feature_dim: usize) -> (r: Result<
        FeatureMatrix,
        PipelineError,
    >)
        requires
            feature_dim >= 1,
        ensures
            r is Ok <==> all_of_dim(scalars(vectors@), feature_dim as nat),
            r matches Ok(m) ==> m.wf() && m.dim() == feature_dim && m@ == scalars(vectors@),
            r is Err ==> r == Err::<FeatureMatrix, PipelineError>(
                PipelineError::FeatureDimMismatch,
            ),
    {
        let mut i: usize = 0;
        while i < vectors.len()
            invariant
                i <= vectors.len(),
                forall|j: int| 0 <= j < i ==> (#[trigger] scalars(vectors@)[j]).len() == feature_dim,
            decreases vectors.len() - i,
        {
            if vectors[i].len() != feature_dim {
                proof {
                    assert(scalars(vectors@)[i as int].len() != feature_dim);
                }
                return Err(PipelineError::FeatureDimMismatch);
            }
            i += 1;
        }
        Ok(FeatureMatrix { rows: vectors, feature_dim })
    }

    /// The number of rows, which is the number of images.
    pub fn n_rows(&self) -> (n: usize)
        ensures
            n == self@.len(),
    {
        self.rows.len()
    }

    /// The number of columns.
    pub fn feature_dim(&self) -> (f: usize)
        ensures
            f == self.dim(),
    {
        self.feature_dim
    }

    /// The feature vector of image `i`.
    pub fn row(&self, i: usize) -> (row: &Vec<u32>)
        requires
            i < self@.len(),
        ensures
            row@ == self@[i as int],
    {
        &self.rows[i]
    }
}

} // verus!
