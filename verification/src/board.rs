use vstd::prelude::*;

verus! {

/// A landing coordinate on the board, in hundredths of a millimeter from the
/// board center. The +y axis points "up", through the center of the 20 wedge.
#[derive(Clone, Copy, PartialEq, Eq, Structural, Debug)]
pub struct DartThrow {
    pub x: i64,
    pub y: i64,
}

/// Largest double-ring outer radius a board configuration may have,
/// in hundredths of a millimeter (ten meters, far beyond any real board).
pub const MAX_BOARD_RADIUS: i64 = 1_000_000;

/// The regulation board dimensions, in hundredths of a millimeter.
/// Two bullseye variants exist; the ring bands are shared by both.
#[derive(Clone, Copy, PartialEq, Eq, Structural, Debug)]
pub struct BoardConfig {
    pub inner_bullseye_radius: i64,
    pub outer_bullseye_radius: i64,
    pub triple_inner_radius: i64,
    pub triple_outer_radius: i64,
    pub double_inner_radius: i64,
    pub double_outer_radius: i64,
}

impl BoardConfig {
    /// The radii must be positive, strictly nested, and small enough that
    /// squared distances stay far from the integer limits.
    pub open spec fn wf(&self) -> bool {
        &&& 0 < self.inner_bullseye_radius
        &&& self.inner_bullseye_radius < self.outer_bullseye_radius
        &&& self.outer_bullseye_radius < self.triple_inner_radius
        &&& self.triple_inner_radius < self.triple_outer_radius
        &&& self.triple_outer_radius < self.double_inner_radius
        &&& self.double_inner_radius < self.double_outer_radius
        &&& self.double_outer_radius <= MAX_BOARD_RADIUS
    }
}

/// The hard-tip regulation variant: a 6.35 mm inner bullseye.
pub open spec fn standard_board() -> BoardConfig {
    BoardConfig {
        inner_bullseye_radius: 635,
        outer_bullseye_radius: 1600,
        triple_inner_radius: 9900,
        triple_outer_radius: 10700,
        double_inner_radius: 16200,
        double_outer_radius: 17000,
    }
}

/// The alternate variant: a 12.7 mm inner bullseye, twice the hard-tip one.
pub open spec fn wide_bullseye_board() -> BoardConfig {
    BoardConfig {
        inner_bullseye_radius: 1270,
        outer_bullseye_radius: 3200,
        triple_inner_radius: 9900,
        triple_outer_radius: 10700,
        double_inner_radius: 16200,
        double_outer_radius: 17000,
    }
}

impl BoardConfig {
    pub fn standard() -> (b: BoardConfig)
        ensures
            b == standard_board(),
            b.wf(),
    {
        BoardConfig {
            inner_bullseye_radius: 635,
            outer_bullseye_radius: 1600,
            triple_inner_radius: 9900,
            triple_outer_radius: 10700,
            double_inner_radius: 16200,
            double_outer_radius: 17000,
        }
    }

    pub fn wide_bullseye() -> (b: BoardConfig)
        ensures
            b == wide_bullseye_board(),
            b.wf(),
    {
        BoardConfig {
            inner_bullseye_radius: 1270,
            outer_bullseye_radius: 3200,
            triple_inner_radius: 9900,
            triple_outer_radius: 10700,
            double_inner_radius: 16200,
            double_outer_radius: 17000,
        }
    }
}

/// The canonical aim points, in hundredths of a millimeter: the bullseye and
/// the seven treble targets favored by experienced players, each at the
/// center of its wedge on the 103 mm triple-ring midline.
pub open spec fn canonical_aim_point(i: int) -> DartThrow {
    if i == 0 {
        DartThrow { x: 0, y: 0 }  // bullseye
    } else if i == 1 {
        DartThrow { x: 0, y: 10300i64 }  // T20
    } else if i == 2 {
        DartThrow { x: -3183i64, y: -9796i64 }  // T19
    } else if i == 3 {
        DartThrow { x: 6054, y: 8333i64 }  // T18
    } else if i == 4 {
        DartThrow { x: 3183, y: -9796i64 }  // T17
    } else if i == 5 {
        DartThrow { x: -8333i64, y: -6054i64 }  // T16
    } else if i == 6 {
        DartThrow { x: 8333, y: -6054i64 }  // T15
    } else {
        DartThrow { x: -9796i64, y: 3183i64 }  // T14
    }
}

/// The eight canonical aim points, bullseye first, then T20 down to T14.
pub fn canonical_aim_points() -> (v: Vec<DartThrow>)
    ensures
        v@.len() == 8,
        forall|i: int| 0 <= i < 8 ==> v@[i] == canonical_aim_point(i),
{
    let mut v: Vec<DartThrow> = Vec::new();
    v.push(DartThrow { x: 0, y: 0 });
    v.push(DartThrow { x: 0, y: 10300 });
    v.push(DartThrow { x: -3183, y: -9796 });
    v.push(DartThrow { x: 6054, y: 8333 });
    v.push(DartThrow { x: 3183, y: -9796 });
    v.push(DartThrow { x: -8333, y: -6054 });
    v.push(DartThrow { x: 8333, y: -6054 });
    v.push(DartThrow { x: -9796, y: 3183 });
    v
}

} // verus!

