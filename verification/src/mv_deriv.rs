//! Motion vector prediction.
use crate::math::{max_of, min_of};
use vstd::prelude::*;

verus! {

/// A motion vector in quarter samples.
#[derive(Debug, Clone, Copy, PartialEq, Eq, Structural)]
pub struct Mv {
    pub x: i32,
    pub y: i32,
}

impl Mv {
    pub open spec fn zero() -> Mv {
        Mv { x: 0, y: 0 }
    }

    pub fn new(x: i32, y: i32) -> (r: Mv)
        ensures
            r == (Mv { x, y }),
    {
        Mv { x, y }
    }
}

/// Motion of a neighbouring partition in one list.
#[derive(Debug, Clone, Copy, PartialEq, Eq, Structural)]
pub struct NeighbourMv {
    /// The macroblock is available.
    pub mb_available: bool,
    /// The partition has been decoded.
    pub partition_available: bool,
    /// Negative where the partition does not use the list.
    pub ref_idx: i32,
    pub mv: Mv,
}

impl NeighbourMv {
    pub open spec fn absent(mb_available: bool, partition_available: bool) -> NeighbourMv {
        NeighbourMv { mb_available, partition_available, ref_idx: (-1) as i32, mv: Mv::zero() }
    }

    /// A neighbour without motion in the list.
    pub fn without_motion(mb_available: bool, partition_available: bool) -> (r: NeighbourMv)
        ensures
            r == NeighbourMv::absent(mb_available, partition_available),
    {
        NeighbourMv { mb_available, partition_available, ref_idx: -1, mv: Mv { x: 0, y: 0 } }
    }
}

/// Partition shapes with a directional predictor.
#[derive(Debug, Clone, Copy, PartialEq, Eq, Structural)]
pub enum MvpredShape {
    Default,
    Partition16x8Top,
    Partition16x8Bottom,
    Partition8x16Left,
    Partition8x16Right,
}

/// The neighbours of a partition: left, above, above-right and above-left.
#[derive(Debug, Clone, Copy, PartialEq, Eq, Structural)]
pub struct Neighbours {
    pub a: NeighbourMv,
    pub b: NeighbourMv,
    pub c: NeighbourMv,
    pub d: NeighbourMv,
}

impl Neighbours {
    /// The above-right neighbour, or the above-left one where it is not available.
    pub open spec fn c_or_d(self) -> NeighbourMv {
        if self.c.partition_available {
            self.c
        } else {
            self.d
        }
    }
}

/// Middle one of three values.
pub open spec fn median3(a: int, b: int, c: int) -> int {
    max_of(min_of(a, b), min_of(max_of(a, b), c))
}

pub fn median_of(a: i32, b: i32, c: i32) -> (r: i32)
    ensures
        r == median3(a as int, b as int, c as int),
{
    let lo = if a <= b {
        a
    } else {
        b
    };
    let hi = if a <= b {
        b
    } else {
        a
    };
    if c <= lo {
        lo
    } else if c >= hi {
        hi
    } else {
        c
    }
}

/// Median prediction: the only neighbour with the same reference, or the median of the three.
pub open spec fn median_mv(a: NeighbourMv, b: NeighbourMv, c: NeighbourMv, ref_idx: int) -> Mv {
    if !b.partition_available && !c.partition_available && a.partition_available {
        a.mv
    } else if a.ref_idx == ref_idx && b.ref_idx != ref_idx && c.ref_idx != ref_idx {
        a.mv
    } else if a.ref_idx != ref_idx && b.ref_idx == ref_idx && c.ref_idx != ref_idx {
        b.mv
    } else if a.ref_idx != ref_idx && b.ref_idx != ref_idx && c.ref_idx == ref_idx {
        c.mv
    } else {
        Mv {
            x: median3(a.mv.x as int, b.mv.x as int, c.mv.x as int) as i32,
            y: median3(a.mv.y as int, b.mv.y as int, c.mv.y as int) as i32,
        }
    }
}

pub fn derive_median_mvpred(a: NeighbourMv, b: NeighbourMv, c: NeighbourMv, ref_idx: i32) -> (r: Mv)
    ensures
        r == median_mv(a, b, c, ref_idx as int),
{
    if !b.partition_available && !c.partition_available && a.partition_available {
        return a.mv;
    }
    let (ma, mb, mc) = (a.ref_idx == ref_idx, b.ref_idx == ref_idx, c.ref_idx == ref_idx);
    if ma && !mb && !mc {
        a.mv
    } else if !ma && mb && !mc {
        b.mv
    } else if !ma && !mb && mc {
        c.mv
    } else {
        Mv {
            x: median_of(a.mv.x, b.mv.x, c.mv.x),
            y: median_of(a.mv.y, b.mv.y, c.mv.y),
        }
    }
}

/// Predicted motion vector of a partition.
pub open spec fn predicted_mv(n: Neighbours, ref_idx: int, shape: MvpredShape) -> Mv {
    let c = n.c_or_d();
    if shape is Partition16x8Top && n.b.ref_idx == ref_idx {
        n.b.mv
    } else if (shape is Partition16x8Bottom || shape is Partition8x16Left) && n.a.ref_idx
        == ref_idx {
        n.a.mv
    } else if shape is Partition8x16Right && c.ref_idx == ref_idx {
        c.mv
    } else {
        median_mv(n.a, n.b, c, ref_idx)
    }
}

pub fn derive_mvpred_with_d(n: &Neighbours, ref_idx: i32, shape: MvpredShape) -> (r: Mv)
    ensures
        r == predicted_mv(*n, ref_idx as int, shape),
{
    let c = if n.c.partition_available {
        n.c
    } else {
        n.d
    };
    match shape {
        MvpredShape::Partition16x8Top => if n.b.ref_idx == ref_idx {
            return n.b.mv;
        },
        MvpredShape::Partition16x8Bottom
        | MvpredShape::Partition8x16Left => if n.a.ref_idx == ref_idx {
            return n.a.mv;
        },
        MvpredShape::Partition8x16Right => if c.ref_idx == ref_idx {
            return c.mv;
        },
        MvpredShape::Default => {},
    }
    derive_median_mvpred(n.a, n.b, c, ref_idx)
}

/// A neighbour that refers to the first picture without motion.
pub open spec fn at_rest(n: NeighbourMv) -> bool {
    n.ref_idx == 0 && n.mv == Mv::zero()
}

/// Motion vector of a skipped macroblock of a P slice.
pub open spec fn p_skip_mv(n: Neighbours) -> Mv {
    if !n.a.mb_available || !n.b.mb_available || at_rest(n.a) || at_rest(n.b) {
        Mv::zero()
    } else {
        predicted_mv(n, 0, MvpredShape::Default)
    }
}

pub fn derive_p_skip_mv_with_d(n: &Neighbours) -> (r: Mv)
    ensures
        r == p_skip_mv(*n),
{
    if !n.a.mb_available || !n.b.mb_available || (n.a.ref_idx == 0 && n.a.mv.x == 0 && n.a.mv.y
        == 0) || (n.b.ref_idx == 0 && n.b.mv.x == 0 && n.b.mv.y == 0) {
        Mv { x: 0, y: 0 }
    } else {
        derive_mvpred_with_d(n, 0, MvpredShape::Default)
    }
}

/// The median is one of the three values, lies between the others, and does not depend on their
/// order.
pub proof fn law_median_is_middle(a: int, b: int, c: int)
    ensures
        ({
            let m = median3(a, b, c);
            &&& m == a || m == b || m == c
            &&& min_of(min_of(a, b), c) <= m <= max_of(max_of(a, b), c)
            &&& m == median3(b, a, c) && m == median3(a, c, b)
        }),
{
}

/// Neighbours that move alike predict their common vector, whatever the shape.
pub proof fn law_common_motion_is_predicted(n: Neighbours, ref_idx: int, mv: Mv, shape: MvpredShape)
    requires
        n.a.mv == mv && n.a.ref_idx == ref_idx,
        n.b.mv == mv && n.b.ref_idx == ref_idx,
        n.c_or_d().mv == mv && n.c_or_d().ref_idx == ref_idx,
    ensures
        predicted_mv(n, ref_idx, shape) == mv,
{
}

/// A skipped macroblock rests next to a neighbour at rest, and at the edge of the slice.
pub proof fn law_skip_rests(n: Neighbours)
    requires
        at_rest(n.a) || at_rest(n.b) || !n.a.mb_available || !n.b.mb_available,
    ensures
        p_skip_mv(n) == Mv::zero(),
{
}

} // verus!
