use crate::cluster::check_shape;
use crate::error::PipelineError;
use rand_xoshiro::rand_core::{RngCore, SeedableRng};
use rand_xoshiro::Xoshiro256Plus;
use vstd::prelude::*;

verus! {

/// The generator of `rand_xoshiro`, whose state Verus does not look into.
#[verifier::external_type_specification]
#[verifier::external_body]
pub struct ExXoshiro256Plus(rand_xoshiro::Xoshiro256Plus);

/// What a generator holds in store: the number that it hands out at its call
/// number `i` from now, counted from zero.
pub uninterp spec fn upcoming(rng: rand_xoshiro::Xoshiro256Plus, i: nat) -> u64;

/// The number that a generator made from `seed` hands out at its call number
/// `i`, counted from zero.
pub uninterp spec fn seeded_output(seed: u64, i: nat) -> u64;

/// `Xoshiro256Plus::seed_from_u64`: the state is computed from the seed alone,
/// so the numbers to come are those that belong to the seed. Not proved.
#[verifier::external_body]
fn seeded(seed: u64) -> (rng: Xoshiro256Plus)
    ensures
        forall|i: nat| upcoming(rng, i) == seeded_output(seed, i),
{
    Xoshiro256Plus::seed_from_u64(seed)
}

/// `Xoshiro256Plus::next_u64`: hands out the next number and steps the state,
/// so that what was to come at call `i + 1` is now to come at call `i`. Not
/// proved.
#[verifier::external_body]
fn next_draw(rng: &mut Xoshiro256Plus) -> (r: u64)
    ensures
        r == upcoming(*old(rng), 0),
        forall|i: nat| upcoming(*final(rng), i) == upcoming(*old(rng), i + 1),
{
    rng.next_u64()
}

/// The rows `0` to `n - 1` in their own order.
pub open spec fn identity(n: nat) -> Seq<usize> {
    Seq::new(n, |i: int| i as usize)
}

/// `s` with the items at `i` and `j` exchanged.
pub open spec fn swapped(s: Seq<usize>, i: int, j: int) -> Seq<usize> {
    s.update(i, s[j]).update(j, s[i])
}

/// The place from which pick number `i` of `n` rows is taken: one of the
/// places `i` to `n - 1`, chosen by the draw.
pub open spec fn pick(draw: u64, i: int, n: int) -> int {
    i + (draw as int) % (n - i)
}

/// The order of the rows after the first `steps` picks: pick `i` exchanges
/// the row at place `i` with the row at the place that draw `i` chooses.
pub open spec fn shuffled(n: nat, draws: Seq<u64>, steps: nat) -> Seq<usize>
    decreases steps,
{
    if steps == 0 {
        identity(n)
    } else {
        let i = steps - 1;
        swapped(shuffled(n, draws, i as nat), i, pick(draws[i], i, n as int))
    }
}

/// The rows chosen by `k` draws out of `n` rows.
pub open spec fn selection(n: nat, k: nat, draws: Seq<u64>) -> Seq<usize> {
    shuffled(n, draws, k).take(k as int)
}

/// The first `k` numbers of the generator made from `seed`.
pub open spec fn seeded_draws(seed: u64, k: nat) -> Seq<u64> {
    Seq::new(k, |i: int| seeded_output(seed, i as nat))
}

/// Every item is a row below `n`, and none occurs twice.
pub open spec fn distinct_rows(rows: Seq<usize>, n: nat) -> bool {
    &&& forall|i: int| 0 <= i < rows.len() ==> rows[i] < n
    &&& forall|i: int, j: int| 0 <= i < j < rows.len() ==> rows[i] != rows[j]
}

/// However the draws fall, a shuffle of the rows holds each row once.
pub proof fn lemma_shuffled_distinct(n: nat, draws: Seq<u64>, steps: nat)
    requires
        n <= usize::MAX,
        steps <= n,
        steps <= draws.len(),
    ensures
        shuffled(n, draws, steps).len() == n,
        distinct_rows(shuffled(n, draws, steps), n),
    decreases steps,
{
    if steps > 0 {
        let i = steps - 1;
        lemma_shuffled_distinct(n, draws, i as nat);
        let j = pick(draws[i], i, n as int);
        assert(i <= j < n) by (nonlinear_arith)
            requires
                j == i + (draws[i] as int) % (n - i),
                0 <= i < n,
        ;
    }
}

/// However the draws fall, the chosen rows are `k` different rows.
pub proof fn lemma_selection_distinct(n: nat, k: nat, draws: Seq<u64>)
    requires
        n <= usize::MAX,
        k <= n,
        k <= draws.len(),
    ensures
        selection(n, k, draws).len() == k,
        distinct_rows(selection(n, k, draws), n),
{
    lemma_shuffled_distinct(n, draws, k);
}

/// The same seed chooses the same rows: two selections out of `n` rows by the
/// first `k` numbers of one seed agree, row for row.
pub proof fn lemma_same_seed_same_rows(
    n: nat,
    k: nat,
    seed: u64,
    first: Seq<usize>,
    second: Seq<usize>,
)
    requires
        first == selection(n, k, seeded_draws(seed, k)),
        second == selection(n, k, seeded_draws(seed, k)),
    ensures
        first == second,
{
}

/// The first `count` numbers of the generator made from `seed`.
pub fn draw_many(seed: u64, count: usize) -> (r: Vec<u64>)
    ensures
        r@ == seeded_draws(seed, count as nat),
{
    let mut rng = seeded(seed);
    let mut out: Vec<u64> = Vec::new();
    let mut i: usize = 0;
    while i < count
        invariant
            i <= count,
            out.len() == i,
            forall|j: int| 0 <= j < i ==> out[j] == seeded_output(seed, j as nat),
            forall|j: nat| upcoming(rng, j) == seeded_output(seed, j + i as nat),
        decreases count - i,
    {
        let ghost before = rng;
        let d: u64 = next_draw(&mut rng);
        proof {
            assert(d == seeded_output(seed, i as nat));
            assert forall|j: nat| upcoming(rng, j) == seeded_output(seed, j + (i + 1) as nat) by {
                assert(upcoming(rng, j) == upcoming(before, j + 1));
            }
        }
        out.push(d);
        i += 1;
    }
    proof {
        assert(out@ =~= seeded_draws(seed, count as nat));
    }
    out
}

/// Chooses as many of `n` rows as there are draws, each row at most once:
/// pick `i` takes one of the rows not yet chosen, the one that draw `i`
/// points at. There is a result exactly when there are no more draws than
/// rows.
pub fn select_rows(n: usize, draws: &Vec<u64>) -> (r: Option<Vec<usize>>)
    ensures
        r is Some <==> draws.len() <= n,
        r matches Some(rows) ==> rows@ == selection(n as nat, draws.len() as nat, draws@)
            && rows@.len() == draws.len() && distinct_rows(rows@, n as nat),
{
    let k: usize = draws.len();
    if k > n {
        return None;
    }
    let mut order: Vec<usize> = Vec::new();
    let mut a: usize = 0;
    while a < n
        invariant
            a <= n,
            order.len() == a,
            forall|j: int| 0 <= j < a ==> order[j] == j,
        decreases n - a,
    {
        order.push(a);
        a += 1;
    }
    proof {
        assert(order@ =~= identity(n as nat));
    }
    let mut i: usize = 0;
    while i < k
        invariant
            i <= k,
            k <= n,
            k == draws.len(),
            order.len() == n,
            order@ == shuffled(n as nat, draws@, i as nat),
        decreases k - i,
    {
        let span: u64 = (n - i) as u64;
        let offset: usize = (draws[i] % span) as usize;
        let j: usize = i + offset;
        let at_i: usize = order[i];
        let at_j: usize = order[j];
        let ghost before = order@;
        order.set(i, at_j);
        order.set(j, at_i);
        proof {
            assert(j == pick(draws[i as int], i as int, n as int));
            assert(order@ =~= swapped(before, i as int, j as int));
        }
        i += 1;
    }
    let mut rows: Vec<usize> = Vec::new();
    let mut b: usize = 0;
    while b < k
        invariant
            b <= k,
            k <= n,
            order.len() == n,
            rows@ == order@.take(b as int),
        decreases k - b,
    {
        rows.push(order[b]);
        proof {
            assert(rows@ =~= order@.take(b + 1));
        }
        b += 1;
    }
    proof {
        lemma_selection_distinct(n as nat, k as nat, draws@);
    }
    Some(rows)
}

/// The rows whose feature vectors are the first centroids: `k` different rows
/// out of `n`, chosen by the generator made from `seed`. The seed decides the
/// rows, so a run can be repeated. Fails as `check_shape` does.
pub fn initial_rows(n: usize, k: usize, seed: u64) -> (r: Result<Vec<usize>, PipelineError>)
    ensures
        n == 0 ==> r == Err::<Vec<usize>, PipelineError>(PipelineError::EmptyDataset),
        n > 0 && (k < 1 || k > n) ==> r == Err::<Vec<usize>, PipelineError>(
            PipelineError::InvalidK,
        ),
        n > 0 && 1 <= k <= n ==> r is Ok,
        r matches Ok(rows) ==> rows@ == selection(n as nat, k as nat, seeded_draws(seed, k as nat))
            && rows@.len() == k && distinct_rows(rows@, n as nat),
{
    match check_shape(n, k) {
        Err(e) => {
            return Err(e);
        },
        Ok(()) => {},
    }
    let draws: Vec<u64> = draw_many(seed, k);
    match select_rows(n, &draws) {
        Some(rows) => Ok(rows),
        None => Err(PipelineError::InvalidK),
    }
}

} // verus!
