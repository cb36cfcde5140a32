use crate::error::PipelineError;
use vstd::prelude::*;

verus! {

/// Whether `n` rows can be split into `k` clusters: there must be a row, and
/// between one and `n` clusters.
pub fn check_shape(n: usize, k: usize) -> (r: Result<(), PipelineError>)
    ensures
        n == 0 ==> r == Err::<(), PipelineError>(PipelineError::EmptyDataset),
        n > 0 && (k < 1 || k > n) ==> r == Err::<(), PipelineError>(PipelineError::InvalidK),
        n > 0 && 1 <= k <= n ==> r is Ok,
{
    if n == 0 {
        Err(PipelineError::EmptyDataset)
    } else if k < 1 || k > n {
        Err(PipelineError::InvalidK)
    } else {
        Ok(())
    }
}

/// Centroid `c` is the nearest one of a row whose distances to the centroids
/// are `distances`: none is nearer, and of those equally near it comes first.
///
/// A distance is given as an integer key that orders as the distances do; the
/// bits of a non-negative 32-bit floating-point number are such a key.
pub open spec fn is_nearest(distances: Seq<u32>, c: int) -> bool {
    &&& 0 <= c < distances.len()
    &&& forall|j: int| 0 <= j < distances.len() ==> distances[c] <= distances[j]
    &&& forall|j: int| 0 <= j < c ==> distances[c] < distances[j]
}

/// The keys that a table of distances holds, one row for each image.
pub open spec fn keys(table: Seq<Vec<u32>>) -> Seq<Seq<u32>> {
    table.map_values(|row: Vec<u32>| row@)
}

/// Every row of the table has a distance to each of `k` centroids.
pub open spec fn table_of(table: Seq<Seq<u32>>, k: nat) -> bool {
    forall|i: int| 0 <= i < table.len() ==> (#[trigger] table[i]).len() == k
}

/// `ids` gives every row of the table its nearest centroid.
pub open spec fn assigns(table: Seq<Seq<u32>>, ids: Seq<usize>) -> bool {
    &&& ids.len() == table.len()
    &&& forall|i: int| 0 <= i < table.len() ==> is_nearest(table[i], #[trigger] ids[i] as int)
}

/// The nearest centroid of one row, if there is any centroid.
pub fn nearest(distances: &Vec<u32>) -> (r: Option<usize>)
    ensures
        r is Some <==> distances.len() >= 1,
        r matches Some(c) ==> is_nearest(distances@, c as int),
{
    if distances.len() == 0 {
        return None;
    }
    let mut best: usize = 0;
    let mut j: usize = 1;
    while j < distances.len()
        invariant
            1 <= j <= distances.len(),
            best < j,
            forall|i: int| 0 <= i < j ==> distances[best as int] <= distances[i],
            forall|i: int| 0 <= i < best ==> distances[best as int] < distances[i],
        decreases distances.len() - j,
    {
        if distances[j] < distances[best] {
            best = j;
        }
        j += 1;
    }
    Some(best)
}

/// The cluster of each image, in the images' order.
pub struct AssignmentVector {
    ids: Vec<usize>,
    num_clusters: usize,
}

impl View for AssignmentVector {
    type V = Seq<usize>;

    closed spec fn view(&self) -> Seq<usize> {
        self.ids@
    }
}

/// Every id names one of `k` clusters.
pub open spec fn all_below(ids: Seq<usize>, k: nat) -> bool {
    forall|i: int| 0 <= i < ids.len() ==> ids[i] < k
}

impl AssignmentVector {
    /// The number of clusters that the ids range over.
    pub closed spec fn k(&self) -> nat {
        self.num_clusters as nat
    }

    /// There is at least one cluster and every id is below their number.
    pub open spec fn wf(&self) -> bool {
        self.k() >= 1 && all_below(self@, self.k())
    }

    /// Takes the ids that a fitted model predicted for the images. They are
    /// accepted exactly when there is a cluster and each id is below
    /// `num_clusters`.
    pub fn from_targets(targets: Vec<usize>, num_clusters: usize) -> (r: Option<AssignmentVector>)
        ensures
            r is Some <==> num_clusters >= 1 && all_below(targets@, num_clusters as nat),
            r matches Some(a) ==> a.wf() && a@ == targets@ && a.k() == num_clusters,
    {
        if num_clusters < 1 {
            return None;
        }
        let mut i: usize = 0;
        while i < targets.len()
            invariant
                i <= targets.len(),
                forall|j: int| 0 <= j < i ==> targets[j] < num_clusters,
            decreases targets.len() - i,
        {
            if targets[i] >= num_clusters {
                return None;
            }
            i += 1;
        }
        Some(AssignmentVector { ids: targets, num_clusters })
    }

    /// The assignment step: gives every row its nearest centroid, the lowest
    /// one where several are equally near. `table[i][c]` is the distance of
    /// row `i` to centroid `c`. There is a result exactly when there is a
    /// centroid and every row has a distance to each.
    pub fn assign(table: &Vec<Vec<u32>>, num_clusters: usize) -> (r: Option<AssignmentVector>)
        ensures
            r is Some <==> num_clusters >= 1 && table_of(keys(table@), num_clusters as nat),
            r matches Some(a) ==> a.wf() && a.k() == num_clusters && assigns(keys(table@), a@),
    {
        if num_clusters < 1 {
            return None;
        }
        let mut ids: Vec<usize> = Vec::new();
        let mut i: usize = 0;
        while i < table.len()
            invariant
                i <= table.len(),
                num_clusters >= 1,
                ids.len() == i,
                forall|j: int| 0 <= j < i ==> (#[trigger] keys(table@)[j]).len() == num_clusters,
                forall|j: int| 0 <= j < i ==> is_nearest(keys(table@)[j], #[trigger] ids[j] as int),
                forall|j: int| 0 <= j < i ==> ids[j] < num_clusters,
            decreases table.len() - i,
        {
            if table[i].len() != num_clusters {
                proof {
                    assert(keys(table@)[i as int].len() != num_clusters);
                }
                return None;
            }
            match nearest(&table[i]) {
                Some(c) => {
                    ids.push(c);
                },
                None => {
                    return None;
                },
            }
            i += 1;
        }
        Some(AssignmentVector { ids, num_clusters })
    }

    /// The number of images.
    pub fn len(&self) -> (n: usize)
        ensures
            n == self@.len(),
    {
        self.ids.len()
    }

    /// The number of clusters.
    pub fn num_clusters(&self) -> (k: usize)
        ensures
            k == self.k(),
    {
        self.num_clusters
    }

    /// The cluster of image `i`.
    pub fn get(&self, i: usize) -> (id: usize)
        requires
            i < self@.len(),
        ensures
            id == self@[i as int],
    {
        self.ids[i]
    }

    /// The ids as a vector, one for each image.
    pub fn ids(&self) -> (ids: &Vec<usize>)
        ensures
            ids@ == self@,
    {
        &self.ids
    }
}

/// A row has one nearest centroid only.
pub proof fn lemma_nearest_unique(distances: Seq<u32>, a: int, b: int)
    requires
        is_nearest(distances, a),
        is_nearest(distances, b),
    ensures
        a == b,
{
    if a < b {
        assert(distances[a] <= distances[b]);
        assert(distances[b] < distances[a]);
    } else if b < a {
        assert(distances[b] <= distances[a]);
        assert(distances[a] < distances[b]);
    }
}

/// The assignment step has one outcome: two assignments of the same table of
/// distances are the same, id for id.
pub proof fn lemma_assignment_unique(table: Seq<Seq<u32>>, first: Seq<usize>, second: Seq<usize>)
    requires
        assigns(table, first),
        assigns(table, second),
    ensures
        first == second,
{
    assert forall|i: int| 0 <= i < first.len() implies first[i] == second[i] by {
        lemma_nearest_unique(table[i], first[i] as int, second[i] as int);
    }
    assert(first =~= second);
}

/// With one cluster every image is in cluster 0.
pub proof fn lemma_single_cluster(a: AssignmentVector)
    requires
        a.wf(),
        a.k() == 1,
    ensures
        forall|i: int| 0 <= i < a@.len() ==> a@[i] == 0,
{
}

/// One assignment step against a single centroid puts every row in cluster 0.
pub proof fn lemma_single_centroid(table: Seq<Seq<u32>>, ids: Seq<usize>)
    requires
        table_of(table, 1),
        assigns(table, ids),
    ensures
        ids.len() == table.len(),
        forall|i: int| 0 <= i < ids.len() ==> ids[i] == 0,
{
    assert forall|i: int| 0 <= i < ids.len() implies ids[i] == 0 by {
        assert(is_nearest(table[i], ids[i] as int));
        assert(table[i].len() == 1);
    }
}

/// Where there are as many centroids as rows and each row lies on the
/// centroid of its own index and on no other, every row is a cluster of its
/// own.
pub proof fn lemma_own_cluster(table: Seq<Seq<u32>>, ids: Seq<usize>)
    requires
        table_of(table, table.len()),
        assigns(table, ids),
        forall|i: int, c: int|
            0 <= i < table.len() && 0 <= c < table.len() ==> (#[trigger] table[i][c] == 0 <==> c
                == i),
    ensures
        forall|i: int| 0 <= i < ids.len() ==> ids[i] == i,
{
    assert forall|i: int| 0 <= i < ids.len() implies ids[i] == i by {
        assert(is_nearest(table[i], ids[i] as int));
        assert(table[i].len() == table.len());
        assert(table[i][i] == 0 <==> i == i);
        let c = ids[i] as int;
        assert(table[i][c] <= table[i][i]);
        assert(table[i][c] == 0 <==> c == i);
    }
}

} // verus!
