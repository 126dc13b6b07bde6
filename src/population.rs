use vstd::prelude::*;

verus! {

/// The smaller of two counts.
pub open spec fn min_nat(a: nat, b: nat) -> nat {
    if a <= b {
        a
    } else {
        b
    }
}

/// The pairs `(i, j)` with `i < j < limit`, in increasing order of `j`.
pub open spec fn pair_row(i: nat, limit: nat) -> Seq<(usize, usize)> {
    let width: nat = if i + 1 < limit {
        (limit - i - 1) as nat
    } else {
        0
    };
    Seq::new(width, |k: int| (i as usize, (i + 1 + k) as usize))
}

/// The pairs `(i, j)` with `i < radius` and `i < j < limit`, ordered by `i`
/// and then by `j`.
pub open spec fn pairs_below(radius: nat, limit: nat) -> Seq<(usize, usize)>
    decreases radius,
{
    if radius == 0 {
        seq![]
    } else {
        pairs_below((radius - 1) as nat, limit) + pair_row((radius - 1) as nat, limit)
    }
}

/// Every pair of the window has `i < radius` and `i < j < limit`, and every
/// such pair is in the window.
pub proof fn lemma_pairs_window(radius: nat, limit: nat)
    requires
        limit <= usize::MAX,
    ensures
        forall|k: int| 0 <= k < pairs_below(radius, limit).len() ==> {
            let (i, j) = #[trigger] pairs_below(radius, limit)[k];
            i < radius && i < j && j < limit
        },
        forall|i: usize, j: usize| i < radius && i < j && j < limit ==> pairs_below(radius, limit).contains((i, j)),
    decreases radius,
{
    if radius > 0 {
        let r = (radius - 1) as nat;
        lemma_pairs_window(r, limit);
        let init = pairs_below(r, limit);
        let row = pair_row(r, limit);
        assert(pairs_below(radius, limit) == init + row);
        assert forall|k: int| 0 <= k < pairs_below(radius, limit).len() implies {
            let (i, j) = #[trigger] pairs_below(radius, limit)[k];
            i < radius && i < j && j < limit
        } by {
            if k >= init.len() {
                assert(pairs_below(radius, limit)[k] == row[k - init.len()]);
            } else {
                assert(pairs_below(radius, limit)[k] == init[k]);
            }
        }
        assert forall|i: usize, j: usize| i < radius && i < j && j < limit implies pairs_below(radius, limit).contains((i, j)) by {
            if i < r {
                assert(init.contains((i, j)));
                let k = choose|k: int| 0 <= k < init.len() && init[k] == (i, j);
                assert(pairs_below(radius, limit)[k] == (i, j));
            } else {
                let k = j - i - 1;
                assert(row[k] == (i, j));
                assert(pairs_below(radius, limit)[init.len() + k] == (i, j));
            }
        }
    }
}

/// The selection window of one generation, over a population sorted by
/// error: each pair `(i, j)` with `i < min(model_count, cross_radius)` and
/// `i < j < min(model_count, cross_limit)`, ordered by `i` and then by `j`.
/// Each pair is crossed once per child round.
pub fn cross_pairs(model_count: usize, cross_radius: usize, cross_limit: usize) -> (r: Vec<(usize, usize)>)
    ensures
        r@ == pairs_below(
            min_nat(model_count as nat, cross_radius as nat),
            min_nat(model_count as nat, cross_limit as nat),
        ),
{
    let radius = if model_count <= cross_radius {
        model_count
    } else {
        cross_radius
    };
    let limit = if model_count <= cross_limit {
        model_count
    } else {
        cross_limit
    };
    let mut r: Vec<(usize, usize)> = Vec::new();
    let mut i: usize = 0;
    while i < radius
        invariant
            i <= radius,
            r@ == pairs_below(i as nat, limit as nat),
        decreases radius - i,
    {
        let ghost before = r@;
        let mut j: usize = i + 1;
        while j < limit
            invariant
                i < radius,
                i + 1 <= j,
                j <= limit || j == i + 1,
                r@ == before + pair_row(i as nat, limit as nat).take(j - i - 1),
            decreases limit - j,
        {
            r.push((i, j));
            proof {
                assert(pair_row(i as nat, limit as nat).take(j - i) =~= pair_row(i as nat, limit as nat).take(j - i - 1).push((i, j)));
            }
            j = j + 1;
        }
        proof {
            if i + 1 < limit {
                assert(pair_row(i as nat, limit as nat).take(j - i - 1) =~= pair_row(i as nat, limit as nat));
            } else {
                assert(pair_row(i as nat, limit as nat).take(j - i - 1) =~= pair_row(i as nat, limit as nat));
            }
        }
        i = i + 1;
    }
    r
}

/// The progress of one evolution run over generations, as plain numbers.
pub struct RunView {
    pub generation_count: nat,
    pub generation: nat,
    pub population: nat,
    pub finished: bool,
}

/// The run after one more generation that added `children` models and whose
/// best error did (`converged`) or did not reach the threshold.
pub open spec fn advance(r: RunView, children: nat, converged: bool) -> RunView {
    RunView {
        generation_count: r.generation_count,
        generation: r.generation + 1,
        population: r.population + children,
        finished: converged || r.generation + 1 >= r.generation_count,
    }
}

/// The run after the generations of `outcomes` (children added, threshold
/// reached), taken in order until the run finishes.
pub open spec fn run_through(r: RunView, outcomes: Seq<(nat, bool)>) -> RunView
    decreases outcomes.len(),
{
    if r.finished || outcomes.len() == 0 {
        r
    } else {
        run_through(advance(r, outcomes[0].0, outcomes[0].1), outcomes.drop_first())
    }
}

/// The number of children added over the first `k` generations of `outcomes`.
pub open spec fn children_total(outcomes: Seq<(nat, bool)>, k: nat) -> nat
    decreases k,
{
    if k == 0 || outcomes.len() == 0 {
        0
    } else {
        outcomes[0].0 + children_total(outcomes.drop_first(), (k - 1) as nat)
    }
}

/// A fresh run: no generation yet, `model_count` models, and nothing to do
/// when no generation is allowed.
pub open spec fn start(generation_count: nat, model_count: nat) -> RunView {
    RunView { generation_count, generation: 0, population: model_count, finished: generation_count == 0 }
}

/// The decisions of the generational loop: how many generations have run,
/// how large the population has grown (parents are never removed), and
/// whether the loop is over.
pub struct Run {
    pub generation_count: usize,
    pub generation: usize,
    pub population: usize,
    pub finished: bool,
}

impl Run {
    pub open spec fn view(&self) -> RunView {
        RunView {
            generation_count: self.generation_count as nat,
            generation: self.generation as nat,
            population: self.population as nat,
            finished: self.finished,
        }
    }

    /// An unfinished run has a generation left to run.
    pub open spec fn wf(&self) -> bool {
        &&& self.generation <= self.generation_count
        &&& !self.finished ==> self.generation < self.generation_count
    }

    /// Starts a run of at most `generation_count` generations over an
    /// initial population of `model_count` models.
    pub fn new(generation_count: usize, model_count: usize) -> (r: Run)
        ensures
            r.wf(),
            r.view() == start(generation_count as nat, model_count as nat),
    {
        Run { generation_count, generation: 0, population: model_count, finished: generation_count == 0 }
    }

    /// Records a generation that added `children` models; `converged` says
    /// whether the best error then reached the threshold. The run finishes
    /// when it did, or when no generation is left.
    pub fn record(&mut self, children: usize, converged: bool)
        requires
            old(self).wf(),
            !old(self).finished,
            old(self).population + children <= usize::MAX,
        ensures
            final(self).wf(),
            final(self).view() == advance(old(self).view(), children as nat, converged),
    {
        self.generation = self.generation + 1;
        self.population = self.population + children;
        self.finished = converged || self.generation >= self.generation_count;
    }
}

/// Generations that never reach the threshold run until the cap: a run fed
/// only unconverged outcomes, at least as many as are left, ends with exactly
/// `generation_count` generations run.
pub proof fn lemma_runs_to_cap(r: RunView, outcomes: Seq<(nat, bool)>)
    requires
        r.generation <= r.generation_count,
        !r.finished ==> r.generation < r.generation_count,
        r.finished ==> r.generation == r.generation_count,
        outcomes.len() >= r.generation_count - r.generation,
        forall|k: int| 0 <= k < outcomes.len() ==> !(#[trigger] outcomes[k]).1,
    ensures
        run_through(r, outcomes).generation == r.generation_count,
        run_through(r, outcomes).finished,
    decreases outcomes.len(),
{
    if !r.finished && outcomes.len() > 0 {
        let next = advance(r, outcomes[0].0, outcomes[0].1);
        assert(!outcomes[0].1);
        let rest = outcomes.drop_first();
        assert forall|k: int| 0 <= k < rest.len() implies !(#[trigger] rest[k]).1 by {
            assert(rest[k] == outcomes[k + 1]);
        }
        lemma_runs_to_cap(next, rest);
    }
}

/// A run started with a positive cap stops after its first generation when
/// that generation reaches the threshold.
pub proof fn lemma_early_stop(generation_count: nat, model_count: nat, outcomes: Seq<(nat, bool)>)
    requires
        generation_count > 0,
        outcomes.len() > 0,
        outcomes[0].1,
    ensures
        run_through(start(generation_count, model_count), outcomes).generation == 1,
        run_through(start(generation_count, model_count), outcomes).population == model_count + outcomes[0].0,
{
    let next = advance(start(generation_count, model_count), outcomes[0].0, outcomes[0].1);
    assert(next.finished);
    assert(run_through(next, outcomes.drop_first()) == next);
}

/// Parents are never pruned: after the generations that ran, the population
/// is the initial one plus every child produced in those generations.
pub proof fn lemma_population_growth(r: RunView, outcomes: Seq<(nat, bool)>)
    ensures
        run_through(r, outcomes).population
            == r.population + children_total(outcomes, (run_through(r, outcomes).generation - r.generation) as nat),
        run_through(r, outcomes).generation >= r.generation,
    decreases outcomes.len(),
{
    if !r.finished && outcomes.len() > 0 {
        let next = advance(r, outcomes[0].0, outcomes[0].1);
        lemma_population_growth(next, outcomes.drop_first());
        let end = run_through(r, outcomes);
        assert(end == run_through(next, outcomes.drop_first()));
        assert((end.generation - r.generation) as nat - 1 == (end.generation - next.generation) as nat);
    }
}

/// The examples of a table, each as a sequence.
pub open spec fn rows_of<W>(v: Seq<Vec<W>>) -> Seq<Seq<W>> {
    v.map_values(|e: Vec<W>| e@)
}

/// The examples of every bucket but `held_out`, bucket after bucket.
pub open spec fn training_rows<W>(buckets: Seq<Vec<Vec<W>>>, held_out: int) -> Seq<Seq<W>>
    decreases buckets.len(),
{
    if buckets.len() == 0 {
        seq![]
    } else {
        let init = training_rows(buckets.drop_last(), held_out);
        if buckets.len() - 1 == held_out {
            init
        } else {
            init + rows_of(buckets.last()@)
        }
    }
}

/// The training set of one fold: the examples of every bucket but the
/// held-out one, in bucket order.
pub fn training_examples<W: Copy>(buckets: &Vec<Vec<Vec<W>>>, held_out: usize) -> (r: Vec<Vec<W>>)
    ensures
        rows_of(r@) == training_rows(buckets@, held_out as int),
{
    let mut r: Vec<Vec<W>> = Vec::new();
    let mut j: usize = 0;
    while j < buckets.len()
        invariant
            j <= buckets.len(),
            rows_of(r@) == training_rows(buckets@.take(j as int), held_out as int),
        decreases buckets.len() - j,
    {
        proof {
            assert(buckets@.take(j + 1).drop_last() =~= buckets@.take(j as int));
            assert(buckets@.take(j + 1).last() == buckets@[j as int]);
        }
        if j != held_out {
            let ghost before = rows_of(r@);
            let bucket = &buckets[j];
            let mut k: usize = 0;
            while k < bucket.len()
                invariant
                    k <= bucket.len(),
                    rows_of(r@) == before + rows_of(bucket@).take(k as int),
                decreases bucket.len() - k,
            {
                let example = crate::utils::copy_vec(&bucket[k]);
                let ghost old_r = r@;
                r.push(example);
                proof {
                    assert(rows_of(r@) =~= rows_of(old_r).push(bucket@[k as int]@));
                    assert(rows_of(bucket@).take(k + 1) =~= rows_of(bucket@).take(k as int).push(bucket@[k as int]@));
                    assert(rows_of(r@) =~= before + rows_of(bucket@).take(k + 1));
                }
                k = k + 1;
            }
            proof {
                assert(rows_of(bucket@).take(k as int) =~= rows_of(bucket@));
            }
        }
        j = j + 1;
    }
    proof {
        assert(buckets@.take(j as int) =~= buckets@);
    }
    r
}

} // verus!
