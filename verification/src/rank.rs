use vstd::prelude::*;

verus! {

use vstd::seq_lib::lemma_multiset_commutative;
use crate::board::{BoardConfig, DartThrow};
use crate::sim::{SimulationInput, SimulationResult, run_simulation, sim_result_matches};

// Ranking compares runs by their mean score, total_score / n_sims. The means
// are compared exactly, as rationals, by cross-multiplying the totals with
// the opposite trial counts; no precision is lost.

/// The left run's mean score is at least the right one's.
pub open spec fn mean_ge(
    a: (SimulationInput, SimulationResult),
    b: (SimulationInput, SimulationResult),
) -> bool {
    a.1.total_score * b.1.n_sims >= b.1.total_score * a.1.n_sims
}

/// Sorted non-increasing by mean score.
pub open spec fn sorted_by_mean(s: Seq<(SimulationInput, SimulationResult)>) -> bool {
    forall|i: int| 0 <= i < s.len() - 1 ==> mean_ge(#[trigger] s[i], s[i + 1])
}

/// Every run in the sequence has at least one trial, so its mean exists.
pub open spec fn all_ranked_valid(s: Seq<(SimulationInput, SimulationResult)>) -> bool {
    forall|i: int| 0 <= i < s.len() ==> (#[trigger] s[i]).1.n_sims > 0
}

/// Where a stable descending insertion places x: after every run whose mean
/// is at least x's, before the rest.
pub open spec fn insert_by_mean(
    s: Seq<(SimulationInput, SimulationResult)>,
    x: (SimulationInput, SimulationResult),
) -> Seq<(SimulationInput, SimulationResult)>
    decreases s.len(),
{
    if s.len() == 0 {
        seq![x]
    } else if mean_ge(s[0], x) {
        seq![s[0]] + insert_by_mean(s.drop_first(), x)
    } else {
        seq![x] + s
    }
}

/// A stable insertion sort, non-increasing by mean score: runs with equal
/// means keep their original relative order.
pub open spec fn sort_by_mean(
    s: Seq<(SimulationInput, SimulationResult)>,
) -> Seq<(SimulationInput, SimulationResult)>
    decreases s.len(),
{
    if s.len() == 0 {
        Seq::empty()
    } else {
        insert_by_mean(sort_by_mean(s.drop_last()), s.last())
    }
}

/// Inserting contributes exactly the inserted run to the contents.
pub proof fn lemma_insert_by_mean_multiset(
    s: Seq<(SimulationInput, SimulationResult)>,
    x: (SimulationInput, SimulationResult),
)
    ensures
        insert_by_mean(s, x).to_multiset() =~= s.to_multiset().insert(x),
    decreases s.len(),
{
    broadcast use vstd::seq_lib::group_to_multiset_ensures;

    if s.len() == 0 {
        assert(insert_by_mean(s, x) =~= Seq::empty().push(x));
        assert(Seq::<(SimulationInput, SimulationResult)>::empty().push(x).to_multiset()
            =~= Seq::<(SimulationInput, SimulationResult)>::empty().to_multiset().insert(x));
    } else if mean_ge(s[0], x) {
        lemma_insert_by_mean_multiset(s.drop_first(), x);
        lemma_multiset_commutative(seq![s[0]], insert_by_mean(s.drop_first(), x));
        lemma_multiset_commutative(seq![s[0]], s.drop_first());
        assert(seq![s[0]] + s.drop_first() =~= s);
        assert(seq![s[0]].to_multiset() =~= Seq::<(SimulationInput, SimulationResult)>::empty()
            .to_multiset().insert(s[0]));
        assert(insert_by_mean(s, x).to_multiset() =~= s.to_multiset().insert(x));
    } else {
        lemma_multiset_commutative(seq![x], s);
        assert(seq![x].to_multiset() =~= Seq::<(SimulationInput, SimulationResult)>::empty()
            .to_multiset().insert(x));
        assert(insert_by_mean(s, x).to_multiset() =~= s.to_multiset().insert(x));
    }
}

/// Sorting keeps exactly the original runs, counted with multiplicity.
pub proof fn lemma_sort_by_mean_multiset(s: Seq<(SimulationInput, SimulationResult)>)
    ensures
        sort_by_mean(s).to_multiset() =~= s.to_multiset(),
    decreases s.len(),
{
    broadcast use vstd::seq_lib::group_to_multiset_ensures;

    if s.len() > 0 {
        lemma_sort_by_mean_multiset(s.drop_last());
        lemma_insert_by_mean_multiset(sort_by_mean(s.drop_last()), s.last());
        assert(s =~= s.drop_last().push(s.last()));
        assert(s.drop_last().push(s.last()).to_multiset() =~= s.drop_last().to_multiset().insert(
            s.last(),
        ));
    }
}

/// The insertion of x lands at exactly the scanned position j: the first spot
/// whose run has a smaller mean than x.
proof fn lemma_insert_by_mean_at(
    s: Seq<(SimulationInput, SimulationResult)>,
    x: (SimulationInput, SimulationResult),
    j: int,
)
    requires
        0 <= j <= s.len(),
        forall|i: int| 0 <= i < j ==> mean_ge(#[trigger] s[i], x),
        j < s.len() ==> !mean_ge(s[j], x),
    ensures
        insert_by_mean(s, x) =~= s.take(j) + seq![x] + s.skip(j),
    decreases j,
{
    if j == 0 {
        if s.len() == 0 {
            assert(insert_by_mean(s, x) =~= s.take(0) + seq![x] + s.skip(0));
        } else {
            assert(insert_by_mean(s, x) =~= s.take(0) + seq![x] + s.skip(0));
        }
    } else {
        assert(mean_ge(s[0], x));
        lemma_insert_by_mean_at(s.drop_first(), x, j - 1);
        assert(insert_by_mean(s, x) =~= seq![s[0]] + (s.drop_first().take(j - 1) + seq![x]
            + s.drop_first().skip(j - 1)));
        assert(seq![s[0]] + (s.drop_first().take(j - 1) + seq![x] + s.drop_first().skip(j - 1))
            =~= s.take(j) + seq![x] + s.skip(j));
    }
}

/// Two means are always comparable: if a's is not at least b's, then b's
/// exceeds a's.
pub proof fn lemma_mean_ge_total(
    a: (SimulationInput, SimulationResult),
    b: (SimulationInput, SimulationResult),
)
    ensures
        mean_ge(a, b) || mean_ge(b, a),
{
}

/// Sorts the runs of a comparison, non-increasing by mean score, stably: the
/// result is exactly the stable descending insertion sort of the input, so
/// runs with equal means keep their original order.
pub fn rank_results(v: Vec<(SimulationInput, SimulationResult)>) -> (r: Vec<
    (SimulationInput, SimulationResult),
>)
    requires
        all_ranked_valid(v@),
    ensures
        r@ == sort_by_mean(v@),
        sorted_by_mean(r@),
        r@.to_multiset() == v@.to_multiset(),
        r@.len() == v@.len(),
{
    let ghost orig = v@;
    let mut src = v;
    let mut out: Vec<(SimulationInput, SimulationResult)> = Vec::new();
    let mut i: usize = 0;
    let n = src.len();
    while i < n
        invariant
            i <= n,
            n == orig.len(),
            src@ =~= orig.skip(i as int),
            out@ == sort_by_mean(orig.take(i as int)),
            out@.len() == i,
            sorted_by_mean(out@),
            all_ranked_valid(orig),
            all_ranked_valid(out@),
        decreases n - i,
    {
        proof {
            assert(orig.skip(i as int).len() > 0);
            assert(src@[0] == orig[i as int]);
        }
        let x = src.remove(0);
        let mut j: usize = 0;
        let out_len = out.len();
        while j < out_len && mean_ge_exec(&out[j], &x)
            invariant
                j <= out_len,
                out_len == out@.len(),
                all_ranked_valid(out@),
                x.1.n_sims > 0,
                forall|jj: int| 0 <= jj < j ==> mean_ge(#[trigger] out@[jj], x),
            decreases out_len - j,
        {
            j += 1;
        }
        proof {
            lemma_insert_by_mean_at(out@, x, j as int);
            assert(orig.take(i as int + 1).drop_last() =~= orig.take(i as int));
            assert(orig.take(i as int + 1).last() == orig[i as int]);
            assert(x == orig[i as int]);
        }
        let ghost out_before = out@;
        out.insert(j, x);
        proof {
            assert(out@ =~= out_before.take(j as int) + seq![x] + out_before.skip(j as int));
            assert(out@ == insert_by_mean(out_before, x));
            assert(out@ == sort_by_mean(orig.take(i as int + 1)));
            assert forall|k: int| 0 <= k < out@.len() - 1 implies mean_ge(
                #[trigger] out@[k],
                out@[k + 1],
            ) by {
                if k + 1 == j as int {
                    assert(out@[k] == out_before[k]);
                    assert(mean_ge(out@[k], x));
                } else if k == j as int {
                    assert(out@[k + 1] == out_before[k]);
                    assert(!mean_ge(out_before[k], x));
                    lemma_mean_ge_total(out_before[k], x);
                }
            }
            assert(src@ =~= orig.skip(i as int + 1));
        }
        i += 1;
    }
    proof {
        assert(orig.take(n as int) =~= orig);
        lemma_sort_by_mean_multiset(orig);
    }
    out
}

/// Compares two runs' mean scores exactly, by cross-multiplication.
fn mean_ge_exec(
    a: &(SimulationInput, SimulationResult),
    b: &(SimulationInput, SimulationResult),
) -> (r: bool)
    requires
        a.1.n_sims > 0,
        b.1.n_sims > 0,
    ensures
        r == mean_ge(*a, *b),
{
    proof {
        let ta = a.1.total_score as int;
        let na = a.1.n_sims as int;
        let tb = b.1.total_score as int;
        let nb = b.1.n_sims as int;
        assert(ta * nb < 0x10000000000000000 * 0x80000000) by (nonlinear_arith)
            requires
                0 <= ta < 0x10000000000000000,
                0 < nb < 0x80000000,
        ;
        assert(tb * na < 0x10000000000000000 * 0x80000000) by (nonlinear_arith)
            requires
                0 <= tb < 0x10000000000000000,
                0 < na < 0x80000000,
        ;
    }
    let left: u128 = (a.1.total_score as u128) * (b.1.n_sims as u128);
    let right: u128 = (b.1.total_score as u128) * (a.1.n_sims as u128);
    left >= right
}

/// Runs one simulation per aim point, all at the shared dispersion and trial
/// count, and ranks the outcomes non-increasing by mean score, stably. The
/// throws are supplied per aim point, one landing coordinate per trial.
pub fn run_comparison_simulations(
    board: &BoardConfig,
    inputs: Vec<SimulationInput>,
    throws: &Vec<Vec<DartThrow>>,
) -> (r: Vec<(SimulationInput, SimulationResult)>)
    requires
        board.wf(),
        inputs@.len() == throws@.len(),
        forall|i: int|
            0 <= i < inputs@.len() ==> (#[trigger] inputs@[i]).valid() && throws@[i]@.len()
                == inputs@[i].n_sims as int,
    ensures
        r@.len() == inputs@.len(),
        sorted_by_mean(r@),
        exists|runs: Seq<(SimulationInput, SimulationResult)>|
            {
                &&& runs.len() == inputs@.len()
                &&& forall|i: int|
                    0 <= i < runs.len() ==> (#[trigger] runs[i]).0 == inputs@[i]
                        && sim_result_matches(
                        *board,
                        runs[i].1,
                        throws@[i]@,
                        inputs@[i].n_sims as int,
                    )
                &&& r@ == sort_by_mean(runs)
            },
{
    let mut pairs: Vec<(SimulationInput, SimulationResult)> = Vec::new();
    let n = inputs.len();
    let mut i: usize = 0;
    while i < n
        invariant
            i <= n,
            n == inputs@.len(),
            inputs@.len() == throws@.len(),
            board.wf(),
            forall|k: int|
                0 <= k < inputs@.len() ==> (#[trigger] inputs@[k]).valid() && throws@[k]@.len()
                    == inputs@[k].n_sims as int,
            pairs@.len() == i,
            forall|k: int|
                0 <= k < i ==> (#[trigger] pairs@[k]).0 == inputs@[k] && sim_result_matches(
                    *board,
                    pairs@[k].1,
                    throws@[k]@,
                    inputs@[k].n_sims as int,
                ),
        decreases n - i,
    {
        let inp = inputs[i];
        let res = run_simulation(board, &inp, &throws[i]);
        pairs.push((inp, res));
        i += 1;
    }
    let ghost runs = pairs@;
    proof {
        assert(all_ranked_valid(pairs@));
    }
    let ranked = rank_results(pairs);
    proof {
        assert(ranked@ == sort_by_mean(runs));
    }
    ranked
}

} // verus!
