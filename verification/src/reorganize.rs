use crate::cluster::AssignmentVector;
use crate::error::PipelineError;
use crate::paths::copy_bytes;
use vstd::prelude::*;

verus! {

/// The bytes of `cluster_`, with which the name of every cluster's directory
/// begins.
pub open spec fn dir_prefix() -> Seq<u8> {
    seq![99u8, 108u8, 117u8, 115u8, 116u8, 101u8, 114u8, 95u8]
}

/// The decimal digits of `n` as ASCII bytes, without leading zeros.
pub open spec fn decimal(n: nat) -> Seq<u8>
    decreases n,
{
    if n < 10 {
        seq![(48 + n) as u8]
    } else {
        decimal(n / 10).push((48 + n % 10) as u8)
    }
}

/// The name of the directory of cluster `id`: `cluster_` and the id.
pub open spec fn dir_name(id: nat) -> Seq<u8> {
    dir_prefix() + decimal(id)
}

/// Where an image lies: the directory below the root that holds it (empty for
/// the root itself) and the name of the file.
pub struct ImagePath {
    pub folder: Vec<u8>,
    pub file_name: Vec<u8>,
}

/// What an `ImagePath` holds.
pub struct PathView {
    pub folder: Seq<u8>,
    pub file_name: Seq<u8>,
}

impl View for ImagePath {
    type V = PathView;

    open spec fn view(&self) -> PathView {
        PathView { folder: self.folder@, file_name: self.file_name@ }
    }
}

/// One file to move: image `index` goes into `folder`, the directory of its
/// cluster, and keeps its file name.
pub struct Relocation {
    pub index: usize,
    pub cluster: usize,
    pub folder: Vec<u8>,
    pub file_name: Vec<u8>,
}

/// What a `Relocation` holds.
pub struct RelocationView {
    pub index: int,
    pub cluster: int,
    pub folder: Seq<u8>,
    pub file_name: Seq<u8>,
}

impl View for Relocation {
    type V = RelocationView;

    open spec fn view(&self) -> RelocationView {
        RelocationView {
            index: self.index as int,
            cluster: self.cluster as int,
            folder: self.folder@,
            file_name: self.file_name@,
        }
    }
}

/// The views of a list of paths.
pub open spec fn path_views(paths: Seq<ImagePath>) -> Seq<PathView> {
    paths.map_values(|p: ImagePath| p@)
}

/// The views of a list of relocations.
pub open spec fn relocation_views(moves: Seq<Relocation>) -> Seq<RelocationView> {
    moves.map_values(|m: Relocation| m@)
}

/// The byte strings of a list of names.
pub open spec fn name_views(dirs: Seq<Vec<u8>>) -> Seq<Seq<u8>> {
    dirs.map_values(|d: Vec<u8>| d@)
}

/// The image already lies in the directory of cluster `id`.
pub open spec fn in_place(path: PathView, id: usize) -> bool {
    path.folder == dir_name(id as nat)
}

/// The move that brings image `index` into the directory of cluster `id`.
pub open spec fn relocation(index: int, id: usize, path: PathView) -> RelocationView {
    RelocationView {
        index,
        cluster: id as int,
        folder: dir_name(id as nat),
        file_name: path.file_name,
    }
}

/// The moves for the first `n` images, in the images' order: one for each
/// image that does not yet lie in the directory of its cluster.
pub open spec fn planned(ids: Seq<usize>, paths: Seq<PathView>, n: int) -> Seq<RelocationView>
    decreases n,
{
    if n <= 0 {
        Seq::empty()
    } else {
        let before = planned(ids, paths, n - 1);
        if in_place(paths[n - 1], ids[n - 1]) {
            before
        } else {
            before.push(relocation(n - 1, ids[n - 1], paths[n - 1]))
        }
    }
}

/// Where the images lie once every planned move is done.
pub open spec fn organized(ids: Seq<usize>, paths: Seq<PathView>) -> Seq<PathView> {
    Seq::new(
        paths.len(),
        |i: int| PathView { folder: dir_name(ids[i] as nat), file_name: paths[i].file_name },
    )
}

/// The directory names of the clusters `0` to `k - 1`.
pub open spec fn dir_names(k: nat) -> Seq<Seq<u8>> {
    Seq::new(k, |id: int| dir_name(id as nat))
}

/// The decimal digits of `n`.
pub fn decimal_digits(n: usize) -> (r: Vec<u8>)
    ensures
        r@ == decimal(n as nat),
    decreases n,
{
    if n < 10 {
        let digit: u8 = 48 + n as u8;
        let r: Vec<u8> = vec![digit];
        proof {
            assert(r@ =~= decimal(n as nat));
        }
        r
    } else {
        let mut r: Vec<u8> = decimal_digits(n / 10);
        let digit: u8 = 48 + (n % 10) as u8;
        r.push(digit);
        r
    }
}

/// The name of the directory of cluster `id`.
pub fn cluster_dir(id: usize) -> (r: Vec<u8>)
    ensures
        r@ == dir_name(id as nat),
{
    let mut r: Vec<u8> = vec![99u8, 108u8, 117u8, 115u8, 116u8, 101u8, 114u8, 95u8];
    let digits: Vec<u8> = decimal_digits(id);
    let ghost prefix = r@;
    let mut i: usize = 0;
    while i < digits.len()
        invariant
            i <= digits.len(),
            r@ == prefix + digits@.take(i as int),
        decreases digits.len() - i,
    {
        r.push(digits[i]);
        proof {
            assert(r@ =~= prefix + digits@.take(i + 1));
        }
        i += 1;
    }
    proof {
        assert(digits@.take(i as int) =~= digits@);
        assert(prefix =~= dir_prefix());
    }
    r
}

/// The directories to create below the root, one for each cluster.
pub fn cluster_dirs(num_clusters: usize) -> (r: Vec<Vec<u8>>)
    ensures
        name_views(r@) == dir_names(num_clusters as nat),
{
    let mut dirs: Vec<Vec<u8>> = Vec::new();
    let mut id: usize = 0;
    while id < num_clusters
        invariant
            id <= num_clusters,
            dirs.len() == id,
            forall|j: int| 0 <= j < id ==> (#[trigger] dirs[j])@ == dir_name(j as nat),
        decreases num_clusters - id,
    {
        let name = cluster_dir(id);
        dirs.push(name);
        id += 1;
    }
    proof {
        assert(name_views(dirs@) =~= dir_names(num_clusters as nat));
    }
    dirs
}

/// Whether two byte strings are the same.
pub fn same_bytes(a: &Vec<u8>, b: &Vec<u8>) -> (r: bool)
    ensures
        r == (a@ == b@),
{
    if a.len() != b.len() {
        return false;
    }
    let mut i: usize = 0;
    while i < a.len()
        invariant
            i <= a.len(),
            a.len() == b.len(),
            forall|j: int| 0 <= j < i ==> a[j] == b[j],
        decreases a.len() - i,
    {
        if a[i] != b[i] {
            return false;
        }
        i += 1;
    }
    proof {
        assert(a@ =~= b@);
    }
    true
}

/// Plans the moves that bring every image into the directory of its cluster.
/// An image that lies there already is left alone. There is a plan exactly
/// when there is one id for each path.
pub fn plan_moves(assignments: &AssignmentVector, paths: &Vec<ImagePath>) -> (r: Option<
    Vec<Relocation>,
>)
    ensures
        r is Some <==> assignments@.len() == paths@.len(),
        r matches Some(moves) ==> relocation_views(moves@) == planned(
            assignments@,
            path_views(paths@),
            paths@.len() as int,
        ),
{
    if assignments.len() != paths.len() {
        return None;
    }
    let mut moves: Vec<Relocation> = Vec::new();
    let mut i: usize = 0;
    proof {
        assert(relocation_views(moves@) =~= Seq::<RelocationView>::empty());
    }
    while i < paths.len()
        invariant
            i <= paths.len(),
            assignments@.len() == paths@.len(),
            relocation_views(moves@) == planned(assignments@, path_views(paths@), i as int),
        decreases paths.len() - i,
    {
        let id: usize = assignments.get(i);
        let folder: Vec<u8> = cluster_dir(id);
        let ghost before = relocation_views(moves@);
        if !same_bytes(&paths[i].folder, &folder) {
            let file_name: Vec<u8> = copy_bytes(&paths[i].file_name);
            let step = Relocation { index: i, cluster: id, folder, file_name };
            moves.push(step);
            proof {
                assert(relocation_views(moves@) =~= before.push(step@));
            }
        }
        i += 1;
    }
    Some(moves)
}

/// Decides on one planned move once it is known whether something lies at its
/// destination. A planned move never targets the file's own place, so what
/// lies there is another file: the move is refused with `MoveCollision` and
/// nothing is overwritten.
pub fn guard_move(destination_occupied: bool) -> (r: Result<(), PipelineError>)
    ensures
        r is Ok <==> !destination_occupied,
        r is Err ==> r == Err::<(), PipelineError>(PipelineError::MoveCollision),
{
    if destination_occupied {
        Err(PipelineError::MoveCollision)
    } else {
        Ok(())
    }
}

/// The digits of a number are never empty, and the last one is that of its
/// ones.
pub proof fn lemma_decimal_last(n: nat)
    ensures
        decimal(n).len() >= 1,
        n >= 10 ==> decimal(n).len() >= 2 && decimal(n).drop_last() == decimal(n / 10),
        n < 10 ==> decimal(n).len() == 1,
        decimal(n).last() == 48 + n % 10,
    decreases n,
{
    if n >= 10 {
        lemma_decimal_last(n / 10);
        assert(decimal(n).drop_last() =~= decimal(n / 10));
    }
}

/// Two numbers with the same digits are the same number.
pub proof fn lemma_decimal_injective(a: nat, b: nat)
    requires
        decimal(a) == decimal(b),
    ensures
        a == b,
    decreases a,
{
    lemma_decimal_last(a);
    lemma_decimal_last(b);
    if a >= 10 {
        lemma_decimal_injective(a / 10, b / 10);
    }
}

/// Two clusters never share a directory.
pub proof fn lemma_dir_name_injective(a: nat, b: nat)
    requires
        dir_name(a) == dir_name(b),
    ensures
        a == b,
{
    let p = dir_prefix().len() as int;
    assert(dir_name(a).subrange(p, dir_name(a).len() as int) =~= decimal(a));
    assert(dir_name(b).subrange(p, dir_name(b).len() as int) =~= decimal(b));
    lemma_decimal_injective(a, b);
}

/// Where every image already lies in the directory of its cluster, nothing is
/// moved.
pub proof fn lemma_organized_tree_stays(ids: Seq<usize>, paths: Seq<PathView>, n: int)
    requires
        0 <= n <= paths.len(),
        ids.len() == paths.len(),
        forall|i: int| 0 <= i < n ==> in_place(paths[i], ids[i]),
    ensures
        planned(ids, paths, n) == Seq::<RelocationView>::empty(),
    decreases n,
{
    if n > 0 {
        lemma_organized_tree_stays(ids, paths, n - 1);
    }
}

/// Reorganizing twice is reorganizing once: after the planned moves are done,
/// a second plan for the same assignments is empty.
pub proof fn lemma_second_plan_is_empty(ids: Seq<usize>, paths: Seq<PathView>)
    requires
        ids.len() == paths.len(),
    ensures
        planned(ids, organized(ids, paths), paths.len() as int) == Seq::<RelocationView>::empty(),
{
    lemma_organized_tree_stays(ids, organized(ids, paths), paths.len() as int);
}

/// What a plan holds: every planned move is the move of an image that is not
/// in place, into the directory of its cluster and under its own file name,
/// and the moves come in the images' order.
pub proof fn lemma_planned_entries(ids: Seq<usize>, paths: Seq<PathView>, n: int)
    requires
        0 <= n <= paths.len(),
        ids.len() == paths.len(),
    ensures
        planned(ids, paths, n).len() <= n,
        forall|j: int|
            0 <= j < planned(ids, paths, n).len() ==> {
                let m = #[trigger] planned(ids, paths, n)[j];
                &&& 0 <= m.index < n
                &&& !in_place(paths[m.index], ids[m.index])
                &&& m == relocation(m.index, ids[m.index], paths[m.index])
            },
        forall|j: int, l: int|
            0 <= j < l < planned(ids, paths, n).len() ==> (#[trigger] planned(ids, paths, n)[j]).index
                < (#[trigger] planned(ids, paths, n)[l]).index,
    decreases n,
{
    if n > 0 {
        lemma_planned_entries(ids, paths, n - 1);
    }
}

/// No image that is out of place is forgotten: the plan holds its move.
pub proof fn lemma_planned_complete(ids: Seq<usize>, paths: Seq<PathView>, n: int, i: int)
    requires
        0 <= i < n <= paths.len(),
        ids.len() == paths.len(),
        !in_place(paths[i], ids[i]),
    ensures
        planned(ids, paths, n).contains(relocation(i, ids[i], paths[i])),
    decreases n,
{
    if i == n - 1 {
        let before = planned(ids, paths, n - 1);
        assert(before.push(relocation(i, ids[i], paths[i]))[before.len() as int] == relocation(
            i,
            ids[i],
            paths[i],
        ));
    } else {
        lemma_planned_complete(ids, paths, n - 1, i);
        let before = planned(ids, paths, n - 1);
        let j = choose|j: int| 0 <= j < before.len() && before[j] == relocation(i, ids[i], paths[i]);
        assert(planned(ids, paths, n)[j] == relocation(i, ids[i], paths[i]));
    }
}

} // verus!
