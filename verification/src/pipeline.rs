use crate::cluster::{all_below, check_shape, AssignmentVector};
use crate::error::PipelineError;
use crate::reorganize::{
    cluster_dirs, dir_names, name_views, path_views, plan_moves, planned, relocation_views,
    ImagePath, Relocation,
};
use vstd::prelude::*;

verus! {

/// The settings of one run.
pub struct Sfmp {
    /// The directory whose images are clustered.
    pub path: String,
    /// The number of clusters.
    pub num_clusters: usize,
    /// The number of refinement rounds after which fitting stops anyway.
    pub max_n_iterations: u64,
    /// The centroid movement at which fitting counts as converged, as the 32
    /// bits of its floating-point value.
    pub tolerance_bits: u32,
    /// The length of a feature vector.
    pub features: usize,
}

/// What a run gives back: the cluster of every image and the work that is
/// left to do on the file system.
pub struct Outcome {
    /// The cluster of each image, in the images' order.
    pub assignments: AssignmentVector,
    /// The directories to create below the root before any file is moved.
    pub directories: Vec<Vec<u8>>,
    /// The files to move.
    pub moves: Vec<Relocation>,
}

impl Sfmp {
    /// The settings as given.
    pub fn new(
        path: String,
        num_clusters: usize,
        max_n_iterations: u64,
        tolerance_bits: u32,
        features: usize,
    ) -> (s: Sfmp)
        ensures
            s.path@ == path@,
            s.num_clusters == num_clusters,
            s.max_n_iterations == max_n_iterations,
            s.tolerance_bits == tolerance_bits,
            s.features == features,
    {
        Sfmp { path, num_clusters, max_n_iterations, tolerance_bits, features }
    }

    /// The settings for `path` where nothing else is said: 2 clusters, at most
    /// 300 rounds, a tolerance of one ten-thousandth, and 512 features.
    pub fn with_defaults(path: String) -> (s: Sfmp)
        ensures
            s.path@ == path@,
            s.num_clusters == 2,
            s.max_n_iterations == 300,
            s.tolerance_bits == 0x38d1_b717u32,
            s.features == 512,
    {
        Sfmp {
            path,
            num_clusters: 2,
            max_n_iterations: 300,
            tolerance_bits: 0x38d1_b717u32,
            features: 512,
        }
    }

    /// Concludes a run once the images at `paths` have their clusters.
    ///
    /// Without an image the run fails with `EmptyDataset`. It fails with
    /// `InvalidK` where the configured number of clusters is zero, exceeds the
    /// number of images, or is not the one that the ids range over. Else the
    /// ids come back as they are, whether files are to be moved or not; with
    /// `move_images` there are also the directory of every cluster and the
    /// move of every image that is not yet in the directory of its own, and
    /// without it neither.
    pub fn run(&self, move_images: bool, paths: &Vec<ImagePath>, assignments: AssignmentVector) -> (r:
        Result<Outcome, PipelineError>)
        requires
            assignments.wf(),
            assignments@.len() == paths@.len(),
        ensures
            paths@.len() == 0 ==> r == Err::<Outcome, PipelineError>(PipelineError::EmptyDataset),
            paths@.len() > 0 && (self.num_clusters < 1 || self.num_clusters > paths@.len()
                || assignments.k() != self.num_clusters) ==> r == Err::<Outcome, PipelineError>(
                PipelineError::InvalidK,
            ),
            paths@.len() > 0 && 1 <= self.num_clusters <= paths@.len() && assignments.k()
                == self.num_clusters ==> r is Ok,
            r matches Ok(o) ==> {
                &&& o.assignments@ == assignments@
                &&& o.assignments.wf()
                &&& o.assignments.k() == self.num_clusters
                &&& o.assignments@.len() == paths@.len()
                &&& all_below(o.assignments@, self.num_clusters as nat)
                &&& move_images ==> name_views(o.directories@) == dir_names(
                    self.num_clusters as nat,
                ) && relocation_views(o.moves@) == planned(
                    assignments@,
                    path_views(paths@),
                    paths@.len() as int,
                )
                &&& !move_images ==> o.directories@.len() == 0 && o.moves@.len() == 0
            },
    {
        match check_shape(paths.len(), self.num_clusters) {
            Err(e) => {
                return Err(e);
            },
            Ok(()) => {},
        }
        if assignments.num_clusters() != self.num_clusters {
            return Err(PipelineError::InvalidK);
        }
        if !move_images {
            return Ok(Outcome { assignments, directories: Vec::new(), moves: Vec::new() });
        }
        let directories: Vec<Vec<u8>> = cluster_dirs(self.num_clusters);
        match plan_moves(&assignments, paths) {
            Some(moves) => Ok(Outcome { assignments, directories, moves }),
            None => Err(PipelineError::InvalidK),
        }
    }
}

} // verus!
