use vstd::prelude::*;

verus! {

use crate::board::{BoardConfig, DartThrow};
use crate::score::{
    compute_score, score_kind_spec, kind_code, kind_value, code_value,
    lemma_kind_bounds, lemma_code_value, SCORE_CODE_COUNT,
};

/// One simulation request: where the player aims, the standard deviation of
/// the throw scatter in hundredths of a millimeter, and how many throws.
#[derive(Clone, Copy, PartialEq, Eq, Structural, Debug)]
pub struct SimulationInput {
    pub aim: DartThrow,
    pub dispersion: i64,
    pub n_sims: i32,
}

impl SimulationInput {
    /// A simulation is meaningful only for a positive scatter and at least
    /// one throw.
    pub open spec fn valid(&self) -> bool {
        self.dispersion > 0 && self.n_sims > 0
    }
}

/// Why a simulation request was rejected before any sampling.
#[derive(Clone, Copy, PartialEq, Eq, Structural, Debug)]
pub enum SimulationError {
    /// The dispersion was zero or negative: not a valid Gaussian scale.
    NonPositiveDispersion,
    /// The trial count was zero or negative.
    NonPositiveTrials,
}

/// Rejects an invalid simulation request, naming the first offending
/// parameter; accepts exactly the valid ones.
pub fn validate_input(input: &SimulationInput) -> (r: Result<(), SimulationError>)
    ensures
        r is Ok <==> input.valid(),
        input.dispersion <= 0 ==> r == Result::<(), SimulationError>::Err(
            SimulationError::NonPositiveDispersion,
        ),
        input.dispersion > 0 && input.n_sims <= 0 ==> r == Result::<(), SimulationError>::Err(
            SimulationError::NonPositiveTrials,
        ),
{
    if input.dispersion <= 0 {
        Err(SimulationError::NonPositiveDispersion)
    } else if input.n_sims <= 0 {
        Err(SimulationError::NonPositiveTrials)
    } else {
        Ok(())
    }
}

/// The histogram slot that a throw scores in on the given board.
pub open spec fn throw_code(board: BoardConfig, t: DartThrow) -> int {
    kind_code(score_kind_spec(board, t.x as int, t.y as int))
}

/// The points that a throw scores on the given board.
pub open spec fn throw_points(board: BoardConfig, t: DartThrow) -> int {
    kind_value(score_kind_spec(board, t.x as int, t.y as int))
}

/// How many of the throws score in histogram slot c.
pub open spec fn count_code(board: BoardConfig, throws: Seq<DartThrow>, c: int) -> int
    decreases throws.len(),
{
    if throws.len() == 0 {
        0
    } else {
        count_code(board, throws.drop_last(), c)
            + if throw_code(board, throws.last()) == c { 1int } else { 0int }
    }
}

/// The points all the throws score together.
pub open spec fn total_points(board: BoardConfig, throws: Seq<DartThrow>) -> int
    decreases throws.len(),
{
    if throws.len() == 0 {
        0
    } else {
        total_points(board, throws.drop_last()) + throw_points(board, throws.last())
    }
}

/// The sum of a histogram's counts.
pub open spec fn sum_counts(s: Seq<u64>) -> int
    decreases s.len(),
{
    if s.len() == 0 {
        0
    } else {
        sum_counts(s.drop_last()) + s.last()
    }
}

pub proof fn lemma_sum_counts_nonneg(s: Seq<u64>)
    ensures
        sum_counts(s) >= 0,
    decreases s.len(),
{
    if s.len() > 0 {
        lemma_sum_counts_nonneg(s.drop_last());
    }
}

/// No count exceeds the sum of all counts.
pub proof fn lemma_elem_le_sum(s: Seq<u64>, j: int)
    requires
        0 <= j < s.len(),
    ensures
        s[j] as int <= sum_counts(s),
    decreases s.len(),
{
    lemma_sum_counts_nonneg(s.drop_last());
    if j < s.len() - 1 {
        lemma_elem_le_sum(s.drop_last(), j);
    }
}

/// Replacing one count changes the sum by the difference.
proof fn lemma_sum_counts_update(s: Seq<u64>, j: int, v: u64)
    requires
        0 <= j < s.len(),
    ensures
        sum_counts(s.update(j, v)) == sum_counts(s) - s[j] + v,
    decreases s.len(),
{
    let t = s.update(j, v);
    if j == s.len() - 1 {
        assert(t.drop_last() =~= s.drop_last());
    } else {
        assert(t.drop_last() =~= s.drop_last().update(j, v));
        lemma_sum_counts_update(s.drop_last(), j, v);
    }
}

/// A prefix's sum never exceeds the whole sum.
pub proof fn lemma_prefix_sum_le(s: Seq<u64>, i: int)
    requires
        0 <= i <= s.len(),
    ensures
        sum_counts(s.take(i)) <= sum_counts(s),
    decreases s.len() - i,
{
    if i < s.len() {
        lemma_prefix_sum_le(s, i + 1);
        assert(s.take(i + 1).drop_last() =~= s.take(i));
        assert(sum_counts(s.take(i)) <= sum_counts(s.take(i + 1)));
    } else {
        assert(s.take(i) =~= s);
    }
}

/// The outcome of a run: the total and the per-score histogram, from which
/// the mean (total_score / n_sims) and the standard deviation follow exactly.
#[derive(Clone, Debug)]
pub struct SimulationResult {
    pub n_sims: i32,
    pub total_score: u64,
    pub score_counts: Vec<u64>,
}

impl SimulationResult {
    /// Every result of a run has one histogram slot per attainable score,
    /// counts that add up to exactly the number of throws, and a total that
    /// at most sixty points per throw can reach.
    pub open spec fn wf(&self) -> bool {
        &&& self.n_sims > 0
        &&& self.score_counts@.len() == SCORE_CODE_COUNT
        &&& sum_counts(self.score_counts@) == self.n_sims as int
        &&& 0 <= self.total_score as int <= 60 * self.n_sims as int
    }

    /// The exact numerator of the grouped-histogram variance: the standard
    /// deviation of the run is sqrt of this, divided by n_sims^(3/2).
    pub fn variance_numerator(&self) -> (v: u128)
        requires
            self.wf(),
        ensures
            v as int == variance_numerator_spec(
                self.score_counts@,
                self.n_sims as int,
                self.total_score as int,
            ),
    {
        let ghost counts = self.score_counts@;
        let ghost n_int = self.n_sims as int;
        let ghost total_int = self.total_score as int;
        let n64: u64 = self.n_sims as u64;
        let total: u64 = self.total_score;
        let len = self.score_counts.len();
        let mut acc: u128 = 0;
        let mut c: usize = 0;
        while c < len
            invariant
                self.wf(),
                c <= len,
                len == counts.len(),
                counts == self.score_counts@,
                n_int == self.n_sims as int,
                total_int == self.total_score as int,
                n64 == self.n_sims as u64,
                total == self.total_score,
                acc as int == variance_numerator_spec(counts.take(c as int), n_int, total_int),
                acc as int <= 3600 * n_int * n_int * n_int,
            decreases len - c,
        {
            let count = self.score_counts[c];
            let val = code_value_exec(c);
            assert(val * n64 <= 60 * n64 <= 0x7080_0000_0000) by (nonlinear_arith)
                requires
                    val <= 60,
                    0 < n64 <= 0x8000_0000u64,
            ;
            let vn: u64 = val * n64;
            let diff: u64 = if vn >= total {
                vn - total
            } else {
                total - vn
            };
            proof {
                lemma_elem_le_sum(counts, c as int);
                let d = code_value(c as int) * n_int - total_int;
                assert(d == vn as int - total as int);
                assert(diff as int * diff as int == d * d) by (nonlinear_arith)
                    requires
                        diff as int == if d >= 0 { d } else { -d },
                ;
                assert(diff as int <= 60 * n_int);
                assert(count as int * (diff as int * diff as int) <= n_int * ((60 * n_int) * (60
                    * n_int))) by (nonlinear_arith)
                    requires
                        0 <= diff as int <= 60 * n_int,
                        0 <= count as int <= n_int,
                        n_int >= 0,
                ;
                assert(n_int * ((60 * n_int) * (60 * n_int)) == 3600 * n_int * n_int * n_int)
                    by (nonlinear_arith);
                assert(diff as int * diff as int <= (60 * n_int) * (60 * n_int))
                    by (nonlinear_arith)
                    requires
                        0 <= diff as int <= 60 * n_int,
                ;
                assert((60 * n_int) * (60 * n_int) <= 0x4000_0000_0000_0000_0000_0000)
                    by (nonlinear_arith)
                    requires
                        0 <= n_int <= 0x8000_0000,
                ;
                assert(count as int * d * d == (diff as int * diff as int) * count as int)
                    by (nonlinear_arith)
                    requires
                        diff as int * diff as int == d * d,
                ;
                lemma_variance_take_step(counts, n_int, total_int, c as int);
                lemma_variance_spec_bound(counts.take(c as int + 1), n_int, total_int);
                lemma_prefix_sum_le(counts, c as int + 1);
                assert(sum_counts(counts.take(c as int + 1)) * ((60 * n_int) * (60 * n_int))
                    <= n_int * ((60 * n_int) * (60 * n_int))) by (nonlinear_arith)
                    requires
                        sum_counts(counts.take(c as int + 1)) <= n_int,
                        n_int >= 0,
                ;
                assert(3600 * n_int * n_int * n_int <= 0x1000_0000_0000_0000_0000_0000_0000)
                    by (nonlinear_arith)
                    requires
                        0 <= n_int <= 0x8000_0000,
                ;
            }
            let term: u128 = (diff as u128) * (diff as u128) * (count as u128);
            acc = acc + term;
            c += 1;
        }
        proof {
            assert(counts.take(len as int) =~= counts);
        }
        acc
    }
}

/// The sum, over the first c histogram slots, of how often the slot's score
/// occurs among the throws, weighted by the slot's points.
pub open spec fn weighted_counts(board: BoardConfig, throws: Seq<DartThrow>, c: int) -> int
    decreases c,
{
    if c <= 0 {
        0
    } else {
        weighted_counts(board, throws, c - 1) + count_code(board, throws, c - 1) * code_value(
            c - 1,
        )
    }
}

proof fn lemma_weighted_counts_empty(board: BoardConfig, c: int)
    ensures
        weighted_counts(board, Seq::<DartThrow>::empty(), c) == 0,
    decreases c,
{
    if c > 0 {
        lemma_weighted_counts_empty(board, c - 1);
    }
}

proof fn lemma_weighted_counts_step(board: BoardConfig, p: Seq<DartThrow>, t: DartThrow, c: int)
    ensures
        weighted_counts(board, p.push(t), c) == weighted_counts(board, p, c) + if 0 <= throw_code(
            board,
            t,
        ) < c {
            code_value(throw_code(board, t))
        } else {
            0
        },
    decreases c,
{
    if c > 0 {
        lemma_weighted_counts_step(board, p, t, c - 1);
        assert(p.push(t).drop_last() =~= p);
        assert(p.push(t).last() == t);
        let k = throw_code(board, t);
        if k == c - 1 {
            assert((count_code(board, p, c - 1) + 1) * code_value(c - 1) == count_code(
                board,
                p,
                c - 1,
            ) * code_value(c - 1) + code_value(c - 1)) by (nonlinear_arith);
        }
    }
}

/// The histogram determines the total: summing each distinct score weighted
/// by how often it occurred gives exactly the running total of all throws, so
/// the mean and standard deviation computed from the grouped histogram agree
/// with those computed from the raw per-throw scores.
pub proof fn lemma_histogram_determines_total(board: BoardConfig, throws: Seq<DartThrow>)
    requires
        board.wf(),
    ensures
        weighted_counts(board, throws, SCORE_CODE_COUNT as int) == total_points(board, throws),
    decreases throws.len(),
{
    if throws.len() == 0 {
        assert(throws =~= Seq::<DartThrow>::empty());
        lemma_weighted_counts_empty(board, SCORE_CODE_COUNT as int);
    } else {
        let p = throws.drop_last();
        let t = throws.last();
        lemma_histogram_determines_total(board, p);
        crate::score::lemma_score_kind_wf(board, t.x as int, t.y as int);
        lemma_weighted_counts_step(board, p, t, SCORE_CODE_COUNT as int);
        assert(p.push(t) =~= throws);
        assert(weighted_counts(board, throws, SCORE_CODE_COUNT as int) == weighted_counts(
            board,
            p.push(t),
            SCORE_CODE_COUNT as int,
        ));
        assert(0 <= throw_code(board, t) < SCORE_CODE_COUNT as int);
        assert(weighted_counts(board, p.push(t), SCORE_CODE_COUNT as int) == weighted_counts(
            board,
            p,
            SCORE_CODE_COUNT as int,
        ) + code_value(throw_code(board, t)));
        assert(code_value(throw_code(board, t)) == throw_points(board, t));
        assert(total_points(board, throws) == total_points(board, p) + throw_points(board, t));
    }
}

/// The points-weighted sum of a histogram's slots.
pub open spec fn hist_weighted(s: Seq<u64>) -> int
    decreases s.len(),
{
    if s.len() == 0 {
        0
    } else {
        hist_weighted(s.drop_last()) + s.last() * code_value(s.len() - 1)
    }
}

proof fn lemma_hist_weighted_eq(board: BoardConfig, throws: Seq<DartThrow>, s: Seq<u64>)
    requires
        forall|j: int| 0 <= j < s.len() ==> #[trigger] s[j] as int == count_code(board, throws, j),
    ensures
        hist_weighted(s) == weighted_counts(board, throws, s.len() as int),
    decreases s.len(),
{
    if s.len() > 0 {
        lemma_hist_weighted_eq(board, throws, s.drop_last());
    }
}

/// A run's total score equals the points-weighted sum of its histogram.
pub proof fn lemma_result_total_from_histogram(
    board: BoardConfig,
    r: SimulationResult,
    throws: Seq<DartThrow>,
    n: int,
)
    requires
        board.wf(),
        sim_result_matches(board, r, throws, n),
    ensures
        hist_weighted(r.score_counts@) == r.total_score as int,
{
    lemma_hist_weighted_eq(board, throws, r.score_counts@);
    lemma_histogram_determines_total(board, throws);
}

/// When every throw lands on the very same spot, the run is perfectly
/// repeatable: the total is the throw count times that spot's score and the
/// whole histogram sits in that score's slot.
pub proof fn lemma_constant_throws(board: BoardConfig, throws: Seq<DartThrow>, t: DartThrow)
    requires
        forall|i: int| 0 <= i < throws.len() ==> throws[i] == t,
    ensures
        total_points(board, throws) == throws.len() * throw_points(board, t),
        forall|c: int|
            #[trigger] count_code(board, throws, c) == if c == throw_code(board, t) {
                throws.len() as int
            } else {
                0
            },
    decreases throws.len(),
{
    if throws.len() > 0 {
        lemma_constant_throws(board, throws.drop_last(), t);
        assert(throws.last() == t);
        let len = throws.len() as int;
        let v = throw_points(board, t);
        assert((len - 1) * v + v == len * v) by (nonlinear_arith);
        assert forall|c: int|
            #[trigger] count_code(board, throws, c) == (if c == throw_code(board, t) {
                throws.len() as int
            } else {
                0
            }) by {
            assert(count_code(board, throws, c) == count_code(board, throws.drop_last(), c) + (
            if throw_code(board, throws.last()) == c {
                1int
            } else {
                0int
            }));
        }
    } else {
        assert forall|c: int|
            #[trigger] count_code(board, throws, c) == (if c == throw_code(board, t) {
                throws.len() as int
            } else {
                0
            }) by {
            assert(count_code(board, throws, c) == 0);
        }
    }
}

proof fn lemma_variance_zero_single_slot(counts: Seq<u64>, n: int, k: int)
    requires
        forall|c: int|
            0 <= c < counts.len() ==> #[trigger] counts[c] as int == if c == k {
                n
            } else {
                0
            },
    ensures
        variance_numerator_spec(counts, n, code_value(k) * n) == 0,
    decreases counts.len(),
{
    if counts.len() > 0 {
        lemma_variance_zero_single_slot(counts.drop_last(), n, k);
        let m = counts.len() - 1;
        let d = code_value(m) * n - code_value(k) * n;
        if m == k {
            assert(d == 0);
            assert(counts.last() * d * d == 0) by (nonlinear_arith)
                requires
                    d == 0,
            ;
        } else {
            assert(counts.last() as int == 0);
            assert(counts.last() * d * d == 0) by (nonlinear_arith)
                requires
                    counts.last() as int == 0,
            ;
        }
    }
}

/// The limiting behavior of vanishing dispersion: a run whose every throw
/// landed on the aim point itself has a mean of exactly that point's score
/// (the total is n times it) and zero variance.
pub proof fn lemma_zero_spread_run(
    board: BoardConfig,
    r: SimulationResult,
    throws: Seq<DartThrow>,
    t: DartThrow,
    n: int,
)
    requires
        board.wf(),
        sim_result_matches(board, r, throws, n),
        throws.len() == n,
        forall|i: int| 0 <= i < throws.len() ==> throws[i] == t,
    ensures
        r.total_score as int == n * throw_points(board, t),
        variance_numerator_spec(r.score_counts@, n, r.total_score as int) == 0,
{
    lemma_constant_throws(board, throws, t);
    crate::score::lemma_score_kind_wf(board, t.x as int, t.y as int);
    let k = throw_code(board, t);
    assert(n * throw_points(board, t) == code_value(k) * n) by (nonlinear_arith)
        requires
            throw_points(board, t) == code_value(k),
    ;
    lemma_variance_zero_single_slot(r.score_counts@, n, k);
}

/// The sum over the histogram of count * (slot points * n - total)^2.
/// This is n^2 times the summed squared deviation of the per-throw points
/// from their mean total/n, so the population standard deviation of a run
/// is the square root of this, divided by n^(3/2).
pub open spec fn variance_numerator_spec(counts: Seq<u64>, n: int, total: int) -> int
    decreases counts.len(),
{
    if counts.len() == 0 {
        0
    } else {
        variance_numerator_spec(counts.drop_last(), n, total) + counts.last() * (code_value(
            counts.len() - 1,
        ) * n - total) * (code_value(counts.len() - 1) * n - total)
    }
}

proof fn lemma_variance_spec_bound(counts: Seq<u64>, n: int, total: int)
    requires
        n >= 0,
        0 <= total <= 60 * n,
    ensures
        0 <= variance_numerator_spec(counts, n, total) <= sum_counts(counts) * ((60 * n) * (60
            * n)),
    decreases counts.len(),
{
    if counts.len() == 0 {
    } else {
        lemma_variance_spec_bound(counts.drop_last(), n, total);
        lemma_sum_counts_nonneg(counts.drop_last());
        let m = counts.len() - 1;
        let d = code_value(m) * n - total;
        let last = counts.last() as int;
        assert(0 <= code_value(m) <= 60);
        assert(-60 * n <= d <= 60 * n) by (nonlinear_arith)
            requires
                0 <= code_value(m) <= 60,
                n >= 0,
                0 <= total <= 60 * n,
                d == code_value(m) * n - total,
        ;
        assert(0 <= last * d * d <= last * ((60 * n) * (60 * n))) by (nonlinear_arith)
            requires
                -60 * n <= d <= 60 * n,
                last >= 0,
        ;
        let sdl = sum_counts(counts.drop_last());
        assert(sum_counts(counts) == sdl + last);
        assert((sdl + last) * ((60 * n) * (60 * n)) == sdl * ((60 * n) * (60 * n)) + last * ((60
            * n) * (60 * n))) by (nonlinear_arith);
    }
}

proof fn lemma_variance_take_step(counts: Seq<u64>, n: int, total: int, c: int)
    requires
        0 <= c < counts.len(),
    ensures
        variance_numerator_spec(counts.take(c + 1), n, total) == variance_numerator_spec(
            counts.take(c),
            n,
            total,
        ) + counts[c] * (code_value(c) * n - total) * (code_value(c) * n - total),
{
    assert(counts.take(c + 1).drop_last() =~= counts.take(c));
    assert(counts.take(c + 1).last() == counts[c]);
}

/// The points that histogram slot c is worth, as a machine integer.
fn code_value_exec(c: usize) -> (v: u64)
    requires
        c < SCORE_CODE_COUNT,
    ensures
        v as int == code_value(c as int),
        v <= 60,
{
    if c == 0 {
        0
    } else if c == 1 {
        25
    } else if c == 2 {
        50
    } else if c <= 22 {
        (c - 2) as u64
    } else if c <= 42 {
        2 * ((c - 22) as u64)
    } else {
        3 * ((c - 42) as u64)
    }
}

/// The result fields a run over these throws must produce: the request's
/// trial count, the exact per-slot counts, and the exact total.
pub open spec fn sim_result_matches(
    board: BoardConfig,
    r: SimulationResult,
    throws: Seq<DartThrow>,
    n: int,
) -> bool {
    &&& r.n_sims as int == n
    &&& r.score_counts@.len() == SCORE_CODE_COUNT
    &&& forall|c: int|
        0 <= c < SCORE_CODE_COUNT ==> #[trigger] r.score_counts@[c] as int == count_code(
            board,
            throws,
            c,
        )
    &&& r.total_score as int == total_points(board, throws)
    &&& r.wf()
}

/// Classifies every throw and aggregates: a running total of the points and
/// a histogram of how often each distinct score occurred. The counts always
/// add up to exactly the number of throws.
pub fn run_simulation(
    board: &BoardConfig,
    input: &SimulationInput,
    throws: &Vec<DartThrow>,
) -> (r: SimulationResult)
    requires
        board.wf(),
        input.valid(),
        throws@.len() == input.n_sims as int,
    ensures
        sim_result_matches(*board, r, throws@, input.n_sims as int),
{
    let ghost all = throws@;
    let n = throws.len();
    let mut counts: Vec<u64> = Vec::new();
    let mut j: usize = 0;
    while j < SCORE_CODE_COUNT
        invariant
            j <= SCORE_CODE_COUNT,
            counts@.len() == j,
            forall|c: int| 0 <= c < j ==> counts@[c] == 0u64,
        decreases SCORE_CODE_COUNT - j,
    {
        counts.push(0);
        j += 1;
    }
    proof {
        lemma_zero_counts(counts@, *board);
    }
    let mut total: u64 = 0;
    let mut i: usize = 0;
    while i < n
        invariant
            i <= n,
            n <= 0x7fff_ffffusize,
            n == throws@.len(),
            throws@ == all,
            board.wf(),
            counts@.len() == SCORE_CODE_COUNT,
            forall|c: int|
                0 <= c < SCORE_CODE_COUNT ==> #[trigger] counts@[c] as int == count_code(
                    *board,
                    all.take(i as int),
                    c,
                ),
            total as int == total_points(*board, all.take(i as int)),
            total as int <= 60 * i,
            sum_counts(counts@) == i as int,
        decreases n - i,
    {
        let t = throws[i];
        let sc = compute_score(board, t);
        let code = sc.code();
        proof {
            assert(all.take(i as int + 1).drop_last() =~= all.take(i as int));
            assert(all.take(i as int + 1).last() == all[i as int]);
            lemma_kind_bounds(sc.kind);
            lemma_elem_le_sum(counts@, code as int);
            lemma_sum_counts_update(counts@, code as int, (counts@[code as int] + 1) as u64);
        }
        let cur = counts[code];
        counts[code] = cur + 1;
        total = total + sc.value as u64;
        i += 1;
    }
    proof {
        assert(all.take(n as int) =~= all);
    }
    SimulationResult { n_sims: input.n_sims, total_score: total, score_counts: counts }
}

/// An all-zero histogram matches an empty run.
proof fn lemma_zero_counts(s: Seq<u64>, board: BoardConfig)
    requires
        forall|c: int| 0 <= c < s.len() ==> s[c] == 0u64,
    ensures
        forall|c: int|
            0 <= c < s.len() ==> #[trigger] s[c] as int == count_code(
                board,
                Seq::<DartThrow>::empty(),
                c,
            ),
        sum_counts(s) == 0,
    decreases s.len(),
{
    if s.len() > 0 {
        lemma_zero_counts(s.drop_last(), board);
    }
}

/// Validates the request and, when it is valid, runs the simulation over the
/// supplied throws; an invalid request is rejected before anything else, the
/// dispersion checked first.
pub fn simulate(
    n_sims: i32,
    dispersion: i64,
    aim: DartThrow,
    board: &BoardConfig,
    throws: &Vec<DartThrow>,
) -> (r: Result<SimulationResult, SimulationError>)
    requires
        board.wf(),
        dispersion > 0 && n_sims > 0 ==> throws@.len() == n_sims as int,
    ensures
        dispersion <= 0 ==> r == Result::<SimulationResult, SimulationError>::Err(
            SimulationError::NonPositiveDispersion,
        ),
        dispersion > 0 && n_sims <= 0 ==> r == Result::<SimulationResult, SimulationError>::Err(
            SimulationError::NonPositiveTrials,
        ),
        dispersion > 0 && n_sims > 0 ==> (r matches Ok(res) && sim_result_matches(
            *board,
            res,
            throws@,
            n_sims as int,
        )),
{
    let input = SimulationInput { aim, dispersion, n_sims };
    match validate_input(&input) {
        Err(e) => Err(e),
        Ok(()) => Ok(run_simulation(board, &input, throws)),
    }
}

} // verus!
