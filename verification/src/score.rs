use vstd::prelude::*;

verus! {

use vstd::string::StringExecFns;
use crate::board::{BoardConfig, DartThrow, MAX_BOARD_RADIUS};
use crate::segment::{
    segment_spec, compute_segment, in_wedge, first_wedge_from, lemma_wedge_exists,
    lemma_segment_numbering_bijective,
};

/// Which scoring region a throw landed in; ring kinds carry their segment.
#[derive(Clone, Copy, PartialEq, Eq, Structural, Debug)]
pub enum ScoreKind {
    Miss,
    OuterBullseye,
    InnerBullseye,
    Single(u8),
    Double(u8),
    Triple(u8),
}

/// A ring kind must carry a segment number between 1 and 20.
pub open spec fn kind_wf(k: ScoreKind) -> bool {
    match k {
        ScoreKind::Single(s) => 1 <= s <= 20,
        ScoreKind::Double(s) => 1 <= s <= 20,
        ScoreKind::Triple(s) => 1 <= s <= 20,
        _ => true,
    }
}

/// The points a region is worth.
pub open spec fn kind_value(k: ScoreKind) -> int {
    match k {
        ScoreKind::Miss => 0,
        ScoreKind::OuterBullseye => 25,
        ScoreKind::InnerBullseye => 50,
        ScoreKind::Single(s) => s as int,
        ScoreKind::Double(s) => 2 * s as int,
        ScoreKind::Triple(s) => 3 * s as int,
    }
}

/// The number of distinct attainable scores: Miss, the two bullseyes, and a
/// single, double and triple of each of the 20 segments.
pub const SCORE_CODE_COUNT: usize = 63;

/// A dense numbering of the distinct attainable scores, used as the
/// histogram index: 0 Miss, 1 Outer Bullseye, 2 Inner Bullseye,
/// 3..=22 singles, 23..=42 doubles, 43..=62 triples.
pub open spec fn kind_code(k: ScoreKind) -> int {
    match k {
        ScoreKind::Miss => 0,
        ScoreKind::OuterBullseye => 1,
        ScoreKind::InnerBullseye => 2,
        ScoreKind::Single(s) => 2 + s as int,
        ScoreKind::Double(s) => 22 + s as int,
        ScoreKind::Triple(s) => 42 + s as int,
    }
}

pub proof fn lemma_kind_bounds(k: ScoreKind)
    requires
        kind_wf(k),
    ensures
        0 <= kind_code(k) < SCORE_CODE_COUNT as int,
        0 <= kind_value(k) <= 60,
{
}

/// The points a histogram slot is worth: the inverse of kind_code on values.
pub open spec fn code_value(c: int) -> int {
    if c == 0 { 0 }
    else if c == 1 { 25 }
    else if c == 2 { 50 }
    else if 3 <= c <= 22 { c - 2 }
    else if 23 <= c <= 42 { 2 * (c - 22) }
    else if 43 <= c <= 62 { 3 * (c - 42) }
    else { 0 }
}

pub proof fn lemma_code_value(k: ScoreKind)
    requires
        kind_wf(k),
    ensures
        code_value(kind_code(k)) == kind_value(k),
        0 <= code_value(kind_code(k)) <= 60,
{
}

/// A score: its point value together with the region that produced it.
/// Two scores are equal exactly when both the value and the region match.
#[derive(Clone, Copy, PartialEq, Eq, Structural, Debug)]
pub struct Score {
    pub value: u8,
    pub kind: ScoreKind,
}

impl Score {
    pub open spec fn wf(&self) -> bool {
        kind_wf(self.kind) && self.value as int == kind_value(self.kind)
    }

    /// The histogram slot of this score.
    pub fn code(&self) -> (c: usize)
        requires
            self.wf(),
        ensures
            c as int == kind_code(self.kind),
            c < SCORE_CODE_COUNT,
    {
        match self.kind {
            ScoreKind::Miss => 0,
            ScoreKind::OuterBullseye => 1,
            ScoreKind::InnerBullseye => 2,
            ScoreKind::Single(s) => 2 + s as usize,
            ScoreKind::Double(s) => 22 + s as usize,
            ScoreKind::Triple(s) => 42 + s as usize,
        }
    }

    /// The human-readable name of this score.
    pub fn representation(&self) -> (r: String)
        requires
            self.wf(),
        ensures
            r@ == label_spec(self.kind),
    {
        match self.kind {
            ScoreKind::Miss => String::from_str("Miss"),
            ScoreKind::OuterBullseye => String::from_str("Outer Bullseye"),
            ScoreKind::InnerBullseye => String::from_str("Inner Bullseye"),
            ScoreKind::Single(s) => String::from_str("Single ").concat(segment_digits_exec(s)),
            ScoreKind::Double(s) => String::from_str("Double ").concat(segment_digits_exec(s)),
            ScoreKind::Triple(s) => String::from_str("Triple ").concat(segment_digits_exec(s)),
        }
    }
}

/// The decimal digits of a segment number, 1 to 20.
pub open spec fn segment_digits(v: int) -> Seq<char> {
    if v == 1 { "1"@ }
    else if v == 2 { "2"@ }
    else if v == 3 { "3"@ }
    else if v == 4 { "4"@ }
    else if v == 5 { "5"@ }
    else if v == 6 { "6"@ }
    else if v == 7 { "7"@ }
    else if v == 8 { "8"@ }
    else if v == 9 { "9"@ }
    else if v == 10 { "10"@ }
    else if v == 11 { "11"@ }
    else if v == 12 { "12"@ }
    else if v == 13 { "13"@ }
    else if v == 14 { "14"@ }
    else if v == 15 { "15"@ }
    else if v == 16 { "16"@ }
    else if v == 17 { "17"@ }
    else if v == 18 { "18"@ }
    else if v == 19 { "19"@ }
    else { "20"@ }
}

/// The name of each region: the three special areas keep their fixed names,
/// and each ring score is its multiplier's word followed by the segment.
pub open spec fn label_spec(k: ScoreKind) -> Seq<char> {
    match k {
        ScoreKind::Miss => "Miss"@,
        ScoreKind::OuterBullseye => "Outer Bullseye"@,
        ScoreKind::InnerBullseye => "Inner Bullseye"@,
        ScoreKind::Single(s) => "Single "@ + segment_digits(s as int),
        ScoreKind::Double(s) => "Double "@ + segment_digits(s as int),
        ScoreKind::Triple(s) => "Triple "@ + segment_digits(s as int),
    }
}

fn segment_digits_exec(s: u8) -> (r: &'static str)
    requires
        1 <= s <= 20,
    ensures
        r@ == segment_digits(s as int),
{
    if s == 1 { "1" }
    else if s == 2 { "2" }
    else if s == 3 { "3" }
    else if s == 4 { "4" }
    else if s == 5 { "5" }
    else if s == 6 { "6" }
    else if s == 7 { "7" }
    else if s == 8 { "8" }
    else if s == 9 { "9" }
    else if s == 10 { "10" }
    else if s == 11 { "11" }
    else if s == 12 { "12" }
    else if s == 13 { "13" }
    else if s == 14 { "14" }
    else if s == 15 { "15" }
    else if s == 16 { "16" }
    else if s == 17 { "17" }
    else if s == 18 { "18" }
    else if s == 19 { "19" }
    else { "20" }
}

/// Squared distance from the board center.
pub open spec fn dist_sq(x: int, y: int) -> int {
    x * x + y * y
}

/// Which region the point (x, y) scores in, on the given board: the bullseyes
/// first, a miss strictly beyond the double ring's outer edge, and otherwise
/// the segment's triple, double or single area by squared distance. Every
/// ring boundary is inclusive on the side of its band.
pub open spec fn score_kind_spec(board: BoardConfig, x: int, y: int) -> ScoreKind {
    let d2 = dist_sq(x, y);
    if d2 <= board.inner_bullseye_radius * board.inner_bullseye_radius {
        ScoreKind::InnerBullseye
    } else if d2 <= board.outer_bullseye_radius * board.outer_bullseye_radius {
        ScoreKind::OuterBullseye
    } else if d2 > board.double_outer_radius * board.double_outer_radius {
        ScoreKind::Miss
    } else {
        let s = segment_spec(x, y) as u8;
        if board.triple_inner_radius * board.triple_inner_radius <= d2
            && d2 <= board.triple_outer_radius * board.triple_outer_radius {
            ScoreKind::Triple(s)
        } else if d2 >= board.double_inner_radius * board.double_inner_radius {
            ScoreKind::Double(s)
        } else {
            ScoreKind::Single(s)
        }
    }
}

proof fn lemma_sq_nonneg_le(x: int, r: int)
    requires
        -r <= x <= r,
        0 <= r,
    ensures
        0 <= x * x <= r * r,
{
    assert(0 <= x * x <= r * r) by (nonlinear_arith)
        requires
            -r <= x <= r,
            0 <= r,
    ;
}

proof fn lemma_sq_lt_mono(a: int, b: int)
    requires
        0 <= a < b,
    ensures
        a * a < b * b,
{
    assert(a * a < b * b) by (nonlinear_arith)
        requires
            0 <= a < b,
    ;
}

proof fn lemma_outside_is_far(x: int, y: int, r: int)
    requires
        0 <= r,
        x > r || x < -r || y > r || y < -r,
    ensures
        dist_sq(x, y) > r * r,
{
    assert(x * x + y * y > r * r) by (nonlinear_arith)
        requires
            0 <= r,
            x > r || x < -r || y > r || y < -r,
    ;
}

/// A nonzero point's segment number is between 1 and 20.
pub proof fn lemma_segment_spec_range(x: int, y: int)
    requires
        x != 0 || y != 0,
    ensures
        1 <= segment_spec(x, y) <= 20,
{
    lemma_wedge_exists(x, y);
    let k = choose|k: int| 0 <= k < 20 && in_wedge(k, x, y);
    lemma_first_wedge_within(0, x, y, k);
    lemma_segment_numbering_bijective();
}

/// If some wedge at or after lo contains the point, the search from lo stops
/// at a wedge before 20.
proof fn lemma_first_wedge_within(lo: int, x: int, y: int, k: int)
    requires
        0 <= lo <= k < 20,
        in_wedge(k, x, y),
    ensures
        lo <= first_wedge_from(lo, x, y) < 20,
    decreases k - lo,
{
    if !in_wedge(lo, x, y) {
        lemma_first_wedge_within(lo + 1, x, y, k);
    }
}

/// The board score of a landing coordinate: a total function, defined for
/// every coordinate the fixed-point representation can hold.
pub fn compute_score(board: &BoardConfig, throw: DartThrow) -> (r: Score)
    requires
        board.wf(),
    ensures
        r.kind == score_kind_spec(*board, throw.x as int, throw.y as int),
        r.wf(),
{
    let x = throw.x;
    let y = throw.y;
    let edge = board.double_outer_radius;
    if x > edge || x < -edge || y > edge || y < -edge {
        proof {
            lemma_outside_is_far(x as int, y as int, edge as int);
            lemma_sq_lt_mono(board.inner_bullseye_radius as int, edge as int);
            lemma_sq_lt_mono(board.outer_bullseye_radius as int, edge as int);
        }
        return Score { value: 0, kind: ScoreKind::Miss };
    }
    proof {
        lemma_sq_nonneg_le(x as int, MAX_BOARD_RADIUS as int);
        lemma_sq_nonneg_le(y as int, MAX_BOARD_RADIUS as int);
        lemma_sq_nonneg_le(board.inner_bullseye_radius as int, MAX_BOARD_RADIUS as int);
        lemma_sq_nonneg_le(board.outer_bullseye_radius as int, MAX_BOARD_RADIUS as int);
        lemma_sq_nonneg_le(board.triple_inner_radius as int, MAX_BOARD_RADIUS as int);
        lemma_sq_nonneg_le(board.triple_outer_radius as int, MAX_BOARD_RADIUS as int);
        lemma_sq_nonneg_le(board.double_inner_radius as int, MAX_BOARD_RADIUS as int);
        lemma_sq_nonneg_le(board.double_outer_radius as int, MAX_BOARD_RADIUS as int);
    }
    let d2 = x * x + y * y;
    if d2 <= board.inner_bullseye_radius * board.inner_bullseye_radius {
        return Score { value: 50, kind: ScoreKind::InnerBullseye };
    }
    if d2 <= board.outer_bullseye_radius * board.outer_bullseye_radius {
        return Score { value: 25, kind: ScoreKind::OuterBullseye };
    }
    if d2 > board.double_outer_radius * board.double_outer_radius {
        return Score { value: 0, kind: ScoreKind::Miss };
    }
    proof {
        if x == 0 && y == 0 {
            assert(dist_sq(x as int, y as int) == 0);
            assert(false);
        }
        lemma_segment_spec_range(x as int, y as int);
    }
    let s = compute_segment(throw);
    if board.triple_inner_radius * board.triple_inner_radius <= d2
        && d2 <= board.triple_outer_radius * board.triple_outer_radius {
        Score { value: 3 * s, kind: ScoreKind::Triple(s) }
    } else if d2 >= board.double_inner_radius * board.double_inner_radius {
        Score { value: 2 * s, kind: ScoreKind::Double(s) }
    } else {
        Score { value: s, kind: ScoreKind::Single(s) }
    }
}

/// Any coordinate within the inner bullseye radius scores 50 points.
pub proof fn lemma_inner_bullseye_scores_fifty(board: BoardConfig, x: int, y: int)
    requires
        board.wf(),
        dist_sq(x, y) <= board.inner_bullseye_radius * board.inner_bullseye_radius,
    ensures
        score_kind_spec(board, x, y) == ScoreKind::InnerBullseye,
        kind_value(score_kind_spec(board, x, y)) == 50,
{
}

/// Any coordinate strictly beyond the double ring's outer radius is a miss,
/// worth 0 points.
pub proof fn lemma_beyond_board_is_miss(board: BoardConfig, x: int, y: int)
    requires
        board.wf(),
        dist_sq(x, y) > board.double_outer_radius * board.double_outer_radius,
    ensures
        score_kind_spec(board, x, y) == ScoreKind::Miss,
        kind_value(score_kind_spec(board, x, y)) == 0,
{
    lemma_sq_lt_mono(board.inner_bullseye_radius as int, board.double_outer_radius as int);
    lemma_sq_lt_mono(board.outer_bullseye_radius as int, board.double_outer_radius as int);
}

/// Any coordinate in the triple-ring band scores three times its segment,
/// under the triple label of that segment.
pub proof fn lemma_triple_band(board: BoardConfig, x: int, y: int)
    requires
        board.wf(),
        board.triple_inner_radius * board.triple_inner_radius <= dist_sq(x, y),
        dist_sq(x, y) <= board.triple_outer_radius * board.triple_outer_radius,
    ensures
        score_kind_spec(board, x, y) == ScoreKind::Triple(segment_spec(x, y) as u8),
        kind_value(score_kind_spec(board, x, y)) == 3 * segment_spec(x, y),
        label_spec(score_kind_spec(board, x, y)) == "Triple "@ + segment_digits(segment_spec(x, y)),
{
    lemma_sq_lt_mono(board.triple_outer_radius as int, board.double_inner_radius as int);
    lemma_sq_lt_mono(board.double_inner_radius as int, board.double_outer_radius as int);
    lemma_band_point_in_segment_area(board, x, y);
    lemma_segment_nonzero(board, x, y);
}

/// Any coordinate in the double-ring band scores twice its segment,
/// under the double label of that segment.
pub proof fn lemma_double_band(board: BoardConfig, x: int, y: int)
    requires
        board.wf(),
        board.double_inner_radius * board.double_inner_radius <= dist_sq(x, y),
        dist_sq(x, y) <= board.double_outer_radius * board.double_outer_radius,
    ensures
        score_kind_spec(board, x, y) == ScoreKind::Double(segment_spec(x, y) as u8),
        kind_value(score_kind_spec(board, x, y)) == 2 * segment_spec(x, y),
        label_spec(score_kind_spec(board, x, y)) == "Double "@ + segment_digits(segment_spec(x, y)),
{
    lemma_sq_lt_mono(board.triple_inner_radius as int, board.double_inner_radius as int);
    lemma_sq_lt_mono(board.triple_outer_radius as int, board.double_inner_radius as int);
    lemma_band_point_in_segment_area(board, x, y);
    lemma_segment_nonzero(board, x, y);
}

/// Any coordinate in the plain area between the bullseye and the double ring,
/// outside the triple band, scores exactly its segment, under the single label.
pub proof fn lemma_single_area(board: BoardConfig, x: int, y: int)
    requires
        board.wf(),
        dist_sq(x, y) > board.outer_bullseye_radius * board.outer_bullseye_radius,
        dist_sq(x, y) < board.double_inner_radius * board.double_inner_radius,
        !(board.triple_inner_radius * board.triple_inner_radius <= dist_sq(x, y)
            && dist_sq(x, y) <= board.triple_outer_radius * board.triple_outer_radius),
    ensures
        score_kind_spec(board, x, y) == ScoreKind::Single(segment_spec(x, y) as u8),
        kind_value(score_kind_spec(board, x, y)) == segment_spec(x, y),
        label_spec(score_kind_spec(board, x, y)) == "Single "@ + segment_digits(segment_spec(x, y)),
{
    lemma_sq_lt_mono(board.double_inner_radius as int, board.double_outer_radius as int);
    lemma_sq_lt_mono(board.inner_bullseye_radius as int, board.outer_bullseye_radius as int);
    lemma_segment_nonzero(board, x, y);
}

/// Every region the classifier can produce is well-formed: a ring kind always
/// carries a segment number between 1 and 20.
pub proof fn lemma_score_kind_wf(board: BoardConfig, x: int, y: int)
    requires
        board.wf(),
    ensures
        kind_wf(score_kind_spec(board, x, y)),
        kind_value(score_kind_spec(board, x, y)) == code_value(
            kind_code(score_kind_spec(board, x, y)),
        ),
        0 <= kind_code(score_kind_spec(board, x, y)) < SCORE_CODE_COUNT as int,
        0 <= kind_value(score_kind_spec(board, x, y)) <= 60,
{
    let d2 = dist_sq(x, y);
    if d2 > board.outer_bullseye_radius * board.outer_bullseye_radius && d2
        <= board.double_outer_radius * board.double_outer_radius {
        lemma_sq_lt_mono(board.inner_bullseye_radius as int, board.outer_bullseye_radius as int);
        lemma_segment_nonzero(board, x, y);
    }
    lemma_kind_bounds(score_kind_spec(board, x, y));
    lemma_code_value(score_kind_spec(board, x, y));
}

/// A point past the outer bullseye but not past the board edge lands in the
/// segment area: not in either bullseye and not a miss.
proof fn lemma_band_point_in_segment_area(board: BoardConfig, x: int, y: int)
    requires
        board.wf(),
        board.triple_inner_radius * board.triple_inner_radius <= dist_sq(x, y),
        dist_sq(x, y) <= board.double_outer_radius * board.double_outer_radius,
    ensures
        dist_sq(x, y) > board.inner_bullseye_radius * board.inner_bullseye_radius,
        dist_sq(x, y) > board.outer_bullseye_radius * board.outer_bullseye_radius,
{
    lemma_sq_lt_mono(board.inner_bullseye_radius as int, board.triple_inner_radius as int);
    lemma_sq_lt_mono(board.outer_bullseye_radius as int, board.triple_inner_radius as int);
}

/// A point strictly outside the inner bullseye is not the center, so its
/// segment number is between 1 and 20.
proof fn lemma_segment_nonzero(board: BoardConfig, x: int, y: int)
    requires
        board.wf(),
        dist_sq(x, y) > board.inner_bullseye_radius * board.inner_bullseye_radius,
    ensures
        1 <= segment_spec(x, y) <= 20,
{
    lemma_sq_nonneg_le(board.inner_bullseye_radius as int, board.inner_bullseye_radius as int);
    if x == 0 && y == 0 {
        assert(dist_sq(x, y) == 0);
        assert(false);
    }
    lemma_segment_spec_range(x, y);
}

} // verus!
