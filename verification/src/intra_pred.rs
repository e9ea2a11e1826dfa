//! Intra sample prediction.
use crate::error::ReconstructError;
use crate::math::{clip1, clip_sample, floor_div, ints, lemma_p2_mono, lemma_p2_values, p2, pow2};
use vstd::prelude::*;

verus! {

/// Which neighbouring samples may be used.
#[derive(Debug, Clone, Copy, PartialEq, Eq, Structural)]
pub struct Neighbour4x4Availability {
    pub top_left: bool,
    pub top: bool,
    pub top_right: bool,
    pub left: bool,
}

/// Samples around a block: the corner, the row above, its continuation to the right, and the column
/// to the left.
#[derive(Debug)]
pub struct Samples {
    pub top_left: i32,
    pub top: Vec<i32>,
    pub top_right: Vec<i32>,
    pub left: Vec<i32>,
    pub availability: Neighbour4x4Availability,
}

/// The content of [`Samples`].
#[verifier::ext_equal]
pub struct SamplesV {
    pub top_left: int,
    pub top: Seq<int>,
    pub top_right: Seq<int>,
    pub left: Seq<int>,
    pub av: Neighbour4x4Availability,
}

impl View for Samples {
    type V = SamplesV;

    open spec fn view(&self) -> SamplesV {
        SamplesV {
            top_left: self.top_left as int,
            top: ints(self.top@),
            top_right: ints(self.top_right@),
            left: ints(self.left@),
            av: self.availability,
        }
    }
}

/// All values are samples.
pub open spec fn samples_ok(s: Seq<i32>) -> bool {
    forall|i: int| 0 <= i < s.len() ==> 0 <= #[trigger] s[i] <= 65535
}

impl Samples {
    /// Neighbours of a block that is `w` by `h` samples.
    pub open spec fn wf(&self, w: int, h: int) -> bool {
        &&& self.top.len() == w
        &&& self.top_right.len() == w
        &&& self.left.len() == h
        &&& 0 <= self.top_left <= 65535
        &&& samples_ok(self.top@)
        &&& samples_ok(self.top_right@)
        &&& samples_ok(self.left@)
    }
}

/// Prediction modes of 4x4 and 8x8 blocks.
#[derive(Debug, Clone, Copy, PartialEq, Eq, Structural)]
pub enum IntraNxNMode {
    Vertical,
    Horizontal,
    Dc,
    DiagonalDownLeft,
    DiagonalDownRight,
    VerticalRight,
    HorizontalDown,
    VerticalLeft,
    HorizontalUp,
}

impl IntraNxNMode {
    /// The mode with a given number; DC for numbers that name none.
    pub open spec fn of(i: int) -> IntraNxNMode {
        if i == 0 {
            IntraNxNMode::Vertical
        } else if i == 1 {
            IntraNxNMode::Horizontal
        } else if i == 3 {
            IntraNxNMode::DiagonalDownLeft
        } else if i == 4 {
            IntraNxNMode::DiagonalDownRight
        } else if i == 5 {
            IntraNxNMode::VerticalRight
        } else if i == 6 {
            IntraNxNMode::HorizontalDown
        } else if i == 7 {
            IntraNxNMode::VerticalLeft
        } else if i == 8 {
            IntraNxNMode::HorizontalUp
        } else {
            IntraNxNMode::Dc
        }
    }

    /// The number of a mode.
    pub open spec fn index(self) -> u8 {
        match self {
            IntraNxNMode::Vertical => 0,
            IntraNxNMode::Horizontal => 1,
            IntraNxNMode::Dc => 2,
            IntraNxNMode::DiagonalDownLeft => 3,
            IntraNxNMode::DiagonalDownRight => 4,
            IntraNxNMode::VerticalRight => 5,
            IntraNxNMode::HorizontalDown => 6,
            IntraNxNMode::VerticalLeft => 7,
            IntraNxNMode::HorizontalUp => 8,
        }
    }

    pub fn from_index(i: u8) -> (r: IntraNxNMode)
        ensures
            r == IntraNxNMode::of(i as int),
    {
        match i {
            0 => IntraNxNMode::Vertical,
            1 => IntraNxNMode::Horizontal,
            3 => IntraNxNMode::DiagonalDownLeft,
            4 => IntraNxNMode::DiagonalDownRight,
            5 => IntraNxNMode::VerticalRight,
            6 => IntraNxNMode::HorizontalDown,
            7 => IntraNxNMode::VerticalLeft,
            8 => IntraNxNMode::HorizontalUp,
            _ => IntraNxNMode::Dc,
        }
    }

    pub fn as_index(self) -> (r: u8)
        ensures
            r == self.index(),
    {
        match self {
            IntraNxNMode::Vertical => 0,
            IntraNxNMode::Horizontal => 1,
            IntraNxNMode::Dc => 2,
            IntraNxNMode::DiagonalDownLeft => 3,
            IntraNxNMode::DiagonalDownRight => 4,
            IntraNxNMode::VerticalRight => 5,
            IntraNxNMode::HorizontalDown => 6,
            IntraNxNMode::VerticalLeft => 7,
            IntraNxNMode::HorizontalUp => 8,
        }
    }
}

/// Prediction modes of 16x16 luma blocks.
#[derive(Debug, Clone, Copy, PartialEq, Eq, Structural)]
pub enum Intra16x16Mode {
    Vertical,
    Horizontal,
    Dc,
    Plane,
}

impl Intra16x16Mode {
    /// The mode with a given number.
    pub open spec fn of(i: int) -> Option<Intra16x16Mode> {
        if i == 0 {
            Some(Intra16x16Mode::Vertical)
        } else if i == 1 {
            Some(Intra16x16Mode::Horizontal)
        } else if i == 2 {
            Some(Intra16x16Mode::Dc)
        } else if i == 3 {
            Some(Intra16x16Mode::Plane)
        } else {
            None
        }
    }

    pub fn from_index(i: u8) -> (r: Option<Intra16x16Mode>)
        ensures
            r == Intra16x16Mode::of(i as int),
    {
        match i {
            0 => Some(Intra16x16Mode::Vertical),
            1 => Some(Intra16x16Mode::Horizontal),
            2 => Some(Intra16x16Mode::Dc),
            3 => Some(Intra16x16Mode::Plane),
            _ => None,
        }
    }
}

/// Prediction modes of chroma blocks.
#[derive(Debug, Clone, Copy, PartialEq, Eq, Structural)]
pub enum IntraChromaMode {
    Dc,
    Horizontal,
    Vertical,
    Plane,
}

impl IntraChromaMode {
    /// The mode with a given number; DC for numbers that name none.
    pub open spec fn of(i: int) -> IntraChromaMode {
        if i == 1 {
            IntraChromaMode::Horizontal
        } else if i == 2 {
            IntraChromaMode::Vertical
        } else if i == 3 {
            IntraChromaMode::Plane
        } else {
            IntraChromaMode::Dc
        }
    }

    pub fn from_index(i: u8) -> (r: IntraChromaMode)
        ensures
            r == IntraChromaMode::of(i as int),
    {
        match i {
            1 => IntraChromaMode::Horizontal,
            2 => IntraChromaMode::Vertical,
            3 => IntraChromaMode::Plane,
            _ => IntraChromaMode::Dc,
        }
    }
}

impl SamplesV {
    /// Sample `i` of the row above, continued to the right; where the continuation is not
    /// available the last sample is repeated.
    pub open spec fn t(self, i: int) -> int {
        if i < self.top.len() {
            self.top[i]
        } else if self.av.top_right {
            self.top_right[i - self.top.len()]
        } else {
            self.top[self.top.len() - 1]
        }
    }

    /// Samples along the border: 0 is the corner, positive positions run right along the row
    /// above, negative ones run down the left column.
    pub open spec fn e(self, i: int) -> int {
        if i == 0 {
            self.top_left
        } else if i > 0 {
            self.t(i - 1)
        } else {
            self.left[-i - 1]
        }
    }

    /// Average of two border samples.
    pub open spec fn avg2(self, a: int, b: int) -> int {
        (self.e(a) + self.e(b) + 1) / 2
    }

    /// Weighted average of three border samples.
    pub open spec fn avg3(self, a: int, b: int, c: int) -> int {
        (self.e(a) + 2 * self.e(b) + self.e(c) + 2) / 4
    }
}

/// Sum of `n` entries from `lo` on.
pub open spec fn sum_of(s: Seq<int>, lo: int, n: int) -> int
    decreases n,
{
    if n <= 0 {
        0
    } else {
        sum_of(s, lo, n - 1) + s[lo + n - 1]
    }
}

/// Mean of the available sides of a square block, each of `n` samples.
pub open spec fn dc_value(s: SamplesV, n: int, bit_depth: u32) -> int {
    if s.av.top && s.av.left {
        (sum_of(s.top, 0, n) + sum_of(s.left, 0, n) + n) / (2 * n)
    } else if s.av.left {
        (sum_of(s.left, 0, n) + n / 2) / n
    } else if s.av.top {
        (sum_of(s.top, 0, n) + n / 2) / n
    } else {
        p2(bit_depth - 1)
    }
}

/// Prediction of the sample at column `x` and row `y` of a block of `n` by `n` samples.
pub open spec fn nxn_at(mode: IntraNxNMode, s: SamplesV, n: int, bit_depth: u32, x: int, y: int) -> int {
    match mode {
        IntraNxNMode::Vertical => s.top[x],
        IntraNxNMode::Horizontal => s.left[y],
        IntraNxNMode::Dc => dc_value(s, n, bit_depth),
        IntraNxNMode::DiagonalDownLeft => if x == n - 1 && y == n - 1 {
            s.avg3(2 * n - 1, 2 * n, 2 * n)
        } else {
            s.avg3(x + y + 1, x + y + 2, x + y + 3)
        },
        IntraNxNMode::DiagonalDownRight => s.avg3(x - y - 1, x - y, x - y + 1),
        IntraNxNMode::VerticalRight => {
            let z = 2 * x - y;
            let k = x - y / 2;
            if z >= 0 && z % 2 == 0 {
                s.avg2(k, k + 1)
            } else if z >= 0 {
                s.avg3(k - 1, k, k + 1)
            } else if z == -1 {
                s.avg3(-1, 0, 1)
            } else {
                s.avg3(z, z + 1, z + 2)
            }
        },
        IntraNxNMode::HorizontalDown => {
            let z = 2 * y - x;
            let k = y - x / 2;
            if z >= 0 && z % 2 == 0 {
                s.avg2(-k, -k - 1)
            } else if z >= 0 {
                s.avg3(-k + 1, -k, -k - 1)
            } else if z == -1 {
                s.avg3(-1, 0, 1)
            } else {
                s.avg3(-z, -z - 1, -z - 2)
            }
        },
        IntraNxNMode::VerticalLeft => {
            let k = x + y / 2;
            if y % 2 == 0 {
                s.avg2(k + 1, k + 2)
            } else {
                s.avg3(k + 1, k + 2, k + 3)
            }
        },
        IntraNxNMode::HorizontalUp => {
            let z = x + 2 * y;
            let k = y + x / 2;
            if z > 2 * n - 3 {
                s.left[n - 1]
            } else if z == 2 * n - 3 {
                s.avg3(-n + 1, -n, -n)
            } else if z % 2 == 0 {
                s.avg2(-k - 1, -k - 2)
            } else {
                s.avg3(-k - 1, -k - 2, -k - 3)
            }
        },
    }
}

/// Prediction of a block of `n` by `n` samples, row by row.
#[verifier::opaque]
pub open spec fn predict_nxn_spec(
    mode: IntraNxNMode,
    s: SamplesV,
    n: int,
    bit_depth: u32,
) -> Seq<int> {
    Seq::new((n * n) as nat, |k: int| nxn_at(mode, s, n, bit_depth, k % n, k / n))
}

impl Samples {
    fn border(&self, i: i64, Ghost(w): Ghost<int>, Ghost(h): Ghost<int>) -> (r: i64)
        requires
            self.wf(w, h),
            1 <= w <= 16,
            -h <= i <= 2 * w,
            h <= 16,
        ensures
            r == self@.e(i as int),
            0 <= r <= 65535,
    {
        if i == 0 {
            self.top_left as i64
        } else if i > 0 {
            let n = self.top.len();
            let k: usize = (i - 1) as usize;
            if k < n {
                self.top[k] as i64
            } else if self.availability.top_right {
                self.top_right[k - n] as i64
            } else {
                self.top[n - 1] as i64
            }
        } else {
            self.left[(-i - 1) as usize] as i64
        }
    }

    fn mean2(&self, a: i64, b: i64, Ghost(n): Ghost<int>) -> (r: i32)
        requires
            self.wf(n, n),
            1 <= n <= 16,
            -n <= a <= 2 * n,
            -n <= b <= 2 * n,
        ensures
            r == self@.avg2(a as int, b as int),
            0 <= r <= 65535,
    {
        ((self.border(a, Ghost(n), Ghost(n)) + self.border(b, Ghost(n), Ghost(n)) + 1) / 2) as i32
    }

    fn mean3(&self, a: i64, b: i64, c: i64, Ghost(n): Ghost<int>) -> (r: i32)
        requires
            self.wf(n, n),
            1 <= n <= 16,
            -n <= a <= 2 * n,
            -n <= b <= 2 * n,
            -n <= c <= 2 * n,
        ensures
            r == self@.avg3(a as int, b as int, c as int),
            0 <= r <= 65535,
    {
        let (x, y, z) = (
            self.border(a, Ghost(n), Ghost(n)),
            self.border(b, Ghost(n), Ghost(n)),
            self.border(c, Ghost(n), Ghost(n)),
        );
        ((x + 2 * y + z + 2) / 4) as i32
    }
}

fn sum_from(s: &Vec<i32>, lo: usize, n: usize) -> (r: i64)
    requires
        samples_ok(s@),
        lo + n <= s.len(),
        n <= 16,
    ensures
        r == sum_of(ints(s@), lo as int, n as int),
        0 <= r <= 65535 * n,
{
    let mut r: i64 = 0;
    let mut i: usize = 0;
    while i < n
        invariant
            samples_ok(s@),
            lo + n <= s.len(),
            n <= 16,
            i <= n,
            r == sum_of(ints(s@), lo as int, i as int),
            0 <= r <= 65535 * i,
        decreases n - i,
    {
        r = r + s[lo + i] as i64;
        i += 1;
    }
    r
}

/// Middle of the sample range.
fn mid_grey(bit_depth: u32) -> (r: i32)
    requires
        8 <= bit_depth <= 14,
    ensures
        r == p2(bit_depth - 1),
        0 <= r <= 65535,
{
    proof {
        lemma_p2_mono(bit_depth - 1, 16);
        lemma_p2_values();
        lemma_p2_mono(bit_depth - 1, 14);
    }
    pow2(bit_depth - 1) as i32
}

fn dc_of(s: &Samples, n: usize, bit_depth: u32) -> (r: i32)
    requires
        n == 4 || n == 8 || n == 16,
        s.wf(n as int, n as int),
        8 <= bit_depth <= 14,
    ensures
        r == dc_value(s@, n as int, bit_depth),
        0 <= r <= 65535,
{
    let m = n as i64;
    if s.availability.top && s.availability.left {
        let t = sum_from(&s.top, 0, n);
        let l = sum_from(&s.left, 0, n);
        ((t + l + m) / (2 * m)) as i32
    } else if s.availability.left {
        ((sum_from(&s.left, 0, n) + m / 2) / m) as i32
    } else if s.availability.top {
        ((sum_from(&s.top, 0, n) + m / 2) / m) as i32
    } else {
        mid_grey(bit_depth)
    }
}

#[verifier::rlimit(40)]
fn nxn_sample(
    mode: IntraNxNMode,
    s: &Samples,
    n: usize,
    bit_depth: u32,
    px: usize,
    py: usize,
) -> (r: i32)
    requires
        n == 4 || n == 8,
        s.wf(n as int, n as int),
        8 <= bit_depth <= 14,
        px < n,
        py < n,
    ensures
        r == nxn_at(mode, s@, n as int, bit_depth, px as int, py as int),
        0 <= r <= 65535,
{
    let x: i64 = px as i64;
    let y: i64 = py as i64;
    let m: i64 = n as i64;
    let ghost g = n as int;
    match mode {
        IntraNxNMode::Vertical => s.top[px],
        IntraNxNMode::Horizontal => s.left[py],
        IntraNxNMode::Dc => dc_of(s, n, bit_depth),
        IntraNxNMode::DiagonalDownLeft => if px == n - 1 && py == n - 1 {
            s.mean3(2 * m - 1, 2 * m, 2 * m, Ghost(g))
        } else {
            s.mean3(x + y + 1, x + y + 2, x + y + 3, Ghost(g))
        },
        IntraNxNMode::DiagonalDownRight => s.mean3(x - y - 1, x - y, x - y + 1, Ghost(g)),
        IntraNxNMode::VerticalRight => {
            let z: i64 = 2 * x - y;
            let k: i64 = x - y / 2;
            if z >= 0 && z % 2 == 0 {
                s.mean2(k, k + 1, Ghost(g))
            } else if z >= 0 {
                s.mean3(k - 1, k, k + 1, Ghost(g))
            } else if z == -1 {
                s.mean3(-1, 0, 1, Ghost(g))
            } else {
                s.mean3(z, z + 1, z + 2, Ghost(g))
            }
        },
        IntraNxNMode::HorizontalDown => {
            let z: i64 = 2 * y - x;
            let k: i64 = y - x / 2;
            if z >= 0 && z % 2 == 0 {
                s.mean2(-k, -k - 1, Ghost(g))
            } else if z >= 0 {
                s.mean3(-k + 1, -k, -k - 1, Ghost(g))
            } else if z == -1 {
                s.mean3(-1, 0, 1, Ghost(g))
            } else {
                s.mean3(-z, -z - 1, -z - 2, Ghost(g))
            }
        },
        IntraNxNMode::VerticalLeft => {
            let k: i64 = x + y / 2;
            if y % 2 == 0 {
                s.mean2(k + 1, k + 2, Ghost(g))
            } else {
                s.mean3(k + 1, k + 2, k + 3, Ghost(g))
            }
        },
        IntraNxNMode::HorizontalUp => {
            let z: i64 = x + 2 * y;
            let k: i64 = y + x / 2;
            if z > 2 * m - 3 {
                s.left[n - 1]
            } else if z == 2 * m - 3 {
                s.mean3(-m + 1, -m, -m, Ghost(g))
            } else if z % 2 == 0 {
                s.mean2(-k - 1, -k - 2, Ghost(g))
            } else {
                s.mean3(-k - 1, -k - 2, -k - 3, Ghost(g))
            }
        },
    }
}

/// Prediction of a 4x4 or 8x8 block.
pub fn predict_nxn(mode: IntraNxNMode, s: &Samples, n: usize, bit_depth: u32) -> (r: Vec<i32>)
    requires
        n == 4 || n == 8,
        s.wf(n as int, n as int),
        8 <= bit_depth <= 14,
    ensures
        ints(r@) == predict_nxn_spec(mode, s@, n as int, bit_depth),
        samples_ok(r@),
        r.len() == n * n,
{
    let mut r: Vec<i32> = Vec::new();
    for k in 0..n * n
        invariant
            n == 4 || n == 8,
            s.wf(n as int, n as int),
            8 <= bit_depth <= 14,
            r.len() == k,
            samples_ok(r@),
            forall|i: int|
                0 <= i < k ==> #[trigger] r@[i] == nxn_at(
                    mode,
                    s@,
                    n as int,
                    bit_depth,
                    i % n as int,
                    i / n as int,
                ),
    {
        proof {
            if n == 4 {
                assert(k as int / 4 < 4);
            } else {
                assert(k as int / 8 < 8);
            }
        }
        let v = nxn_sample(mode, s, n, bit_depth, k % n, k / n);
        r.push(v);
    }
    proof {
        reveal(predict_nxn_spec);
        assert(ints(r@) =~= predict_nxn_spec(mode, s@, n as int, bit_depth));
    }
    r
}

/// Smoothed row above an 8x8 block; it covers sixteen samples.
pub open spec fn smooth_top(s: SamplesV, x: int) -> int {
    if !s.av.top {
        0
    } else if x == 0 && !s.av.top_left {
        s.avg3(1, 1, 2)
    } else if x == 15 {
        s.avg3(15, 16, 16)
    } else {
        s.avg3(x, x + 1, x + 2)
    }
}

/// Smoothed column left of an 8x8 block.
pub open spec fn smooth_left(s: SamplesV, y: int) -> int {
    if !s.av.left {
        0
    } else if y == 0 && !s.av.top_left {
        s.avg3(-1, -1, -2)
    } else if y == 7 {
        s.avg3(-7, -8, -8)
    } else {
        s.avg3(-y, -y - 1, -y - 2)
    }
}

/// Smoothed corner of an 8x8 block.
pub open spec fn smooth_corner(s: SamplesV) -> int {
    if !s.av.top_left {
        0
    } else if s.av.top && s.av.left {
        s.avg3(-1, 0, 1)
    } else if s.av.top {
        s.avg3(0, 0, 1)
    } else if s.av.left {
        s.avg3(0, 0, -1)
    } else {
        s.top_left
    }
}

/// Neighbours of an 8x8 block after smoothing.
#[verifier::opaque]
pub open spec fn smooth8(s: SamplesV) -> SamplesV {
    SamplesV {
        top_left: smooth_corner(s),
        top: Seq::new(8, |x: int| smooth_top(s, x)),
        top_right: Seq::new(8, |x: int| smooth_top(s, 8 + x)),
        left: Seq::new(8, |y: int| smooth_left(s, y)),
        av: Neighbour4x4Availability {
            top_left: s.av.top_left,
            top: s.av.top,
            top_right: s.av.top,
            left: s.av.left,
        },
    }
}

fn smooth_top_at(s: &Samples, x: i64) -> (r: i32)
    requires
        s.wf(8, 8),
        0 <= x < 16,
    ensures
        r == smooth_top(s@, x as int),
        0 <= r <= 65535,
{
    if !s.availability.top {
        0
    } else if x == 0 && !s.availability.top_left {
        s.mean3(1, 1, 2, Ghost(8))
    } else if x == 15 {
        s.mean3(15, 16, 16, Ghost(8))
    } else {
        s.mean3(x, x + 1, x + 2, Ghost(8))
    }
}

fn smooth_left_at(s: &Samples, y: i64) -> (r: i32)
    requires
        s.wf(8, 8),
        0 <= y < 8,
    ensures
        r == smooth_left(s@, y as int),
        0 <= r <= 65535,
{
    if !s.availability.left {
        0
    } else if y == 0 && !s.availability.top_left {
        s.mean3(-1, -1, -2, Ghost(8))
    } else if y == 7 {
        s.mean3(-7, -8, -8, Ghost(8))
    } else {
        s.mean3(-y, -y - 1, -y - 2, Ghost(8))
    }
}

fn smooth_corner_of(s: &Samples) -> (r: i32)
    requires
        s.wf(8, 8),
    ensures
        r == smooth_corner(s@),
        0 <= r <= 65535,
{
    let av = s.availability;
    if !av.top_left {
        0
    } else if av.top && av.left {
        s.mean3(-1, 0, 1, Ghost(8))
    } else if av.top {
        s.mean3(0, 0, 1, Ghost(8))
    } else if av.left {
        s.mean3(0, 0, -1, Ghost(8))
    } else {
        s.top_left
    }
}

/// Smooths the neighbours of an 8x8 block.
pub fn filter_samples_8x8(s: &Samples) -> (r: Samples)
    requires
        s.wf(8, 8),
    ensures
        r@ == smooth8(s@),
        r.wf(8, 8),
{
    let mut top: Vec<i32> = Vec::new();
    let mut top_right: Vec<i32> = Vec::new();
    let mut left: Vec<i32> = Vec::new();
    for x in 0..8usize
        invariant
            s.wf(8, 8),
            top.len() == x,
            top_right.len() == x,
            left.len() == x,
            samples_ok(top@),
            samples_ok(top_right@),
            samples_ok(left@),
            forall|i: int| 0 <= i < x ==> #[trigger] top@[i] == smooth_top(s@, i),
            forall|i: int| 0 <= i < x ==> #[trigger] top_right@[i] == smooth_top(s@, 8 + i),
            forall|i: int| 0 <= i < x ==> #[trigger] left@[i] == smooth_left(s@, i),
    {
        let t = smooth_top_at(s, x as i64);
        let tr = smooth_top_at(s, 8 + x as i64);
        let l = smooth_left_at(s, x as i64);
        top.push(t);
        top_right.push(tr);
        left.push(l);
    }
    let av = s.availability;
    let r = Samples {
        top_left: smooth_corner_of(s),
        top,
        top_right,
        left,
        availability: Neighbour4x4Availability {
            top_left: av.top_left,
            top: av.top,
            top_right: av.top,
            left: av.left,
        },
    };
    proof {
        reveal(smooth8);
        assert(r@ =~= smooth8(s@));
    }
    r
}

/// Gradient of the border away from the corner; `dir` is 1 along the row above and -1 down the
/// left column, `m` half the length of that side.
pub open spec fn gradient(s: SamplesV, dir: int, m: int, n: int) -> int
    decreases n,
{
    if n <= 0 {
        0
    } else {
        gradient(s, dir, m, n - 1) + n * (s.e(dir * (m + n)) - s.e(dir * (m - n)))
    }
}

/// Slope of plane prediction for a side of the given length.
pub open spec fn slope(s: SamplesV, dir: int, len: int) -> int {
    ((if len == 16 {
        5int
    } else {
        34int
    }) * gradient(s, dir, len / 2, len / 2) + 32) / 64
}

/// Plane prediction of a sample of a block that is `w` by `h` samples.
pub open spec fn plane_at(s: SamplesV, w: int, h: int, bit_depth: u32, x: int, y: int) -> int {
    clip1(
        (16 * (s.e(-h) + s.e(w)) + slope(s, 1, w) * (x - (w / 2 - 1)) + slope(s, -1, h) * (y - (h
            / 2 - 1)) + 16) / 32,
        bit_depth,
    )
}

fn slope_of(s: &Samples, down: bool, w: usize, h: usize) -> (r: i64)
    requires
        w == 8 || w == 16,
        h == 8 || h == 16,
        s.wf(w as int, h as int),
    ensures
        r == slope(
            s@,
            if down {
                -1
            } else {
                1
            },
            if down {
                h as int
            } else {
                w as int
            },
        ),
        -0x20_0000 <= r <= 0x20_0000,
{
    let len: i64 = if down {
        h as i64
    } else {
        w as i64
    };
    let m: i64 = len / 2;
    let ghost dir = if down {
        -1int
    } else {
        1int
    };
    let mut sum: i64 = 0;
    let mut n: i64 = 0;
    while n < m
        invariant
            w == 8 || w == 16,
            h == 8 || h == 16,
            s.wf(w as int, h as int),
            len == (if down {
                h
            } else {
                w
            }),
            m == len / 2,
            0 <= n <= m,
            dir == (if down {
                -1int
            } else {
                1int
            }),
            sum == gradient(s@, dir, m as int, n as int),
            -524280 * n <= sum <= 524280 * n,
        decreases m - n,
    {
        n = n + 1;
        let (a, b) = if down {
            (
                s.border(-(m + n), Ghost(w as int), Ghost(h as int)),
                s.border(-(m - n), Ghost(w as int), Ghost(h as int)),
            )
        } else {
            (
                s.border(m + n, Ghost(w as int), Ghost(h as int)),
                s.border(m - n, Ghost(w as int), Ghost(h as int)),
            )
        };
        let d: i64 = a - b;
        proof {
            assert(-524280 <= n * d <= 524280) by (nonlinear_arith)
                requires
                    1 <= n <= 8,
                    -65535 <= d <= 65535,
            ;
            assert(dir * (m + n) == (if down {
                -(m + n)
            } else {
                m + n
            })) by (nonlinear_arith)
                requires
                    dir == (if down {
                        -1int
                    } else {
                        1int
                    }),
            ;
            assert(dir * (m - n) == (if down {
                -(m - n)
            } else {
                m - n
            })) by (nonlinear_arith)
                requires
                    dir == (if down {
                        -1int
                    } else {
                        1int
                    }),
            ;
        }
        sum = sum + n * d;
    }
    if len == 16 {
        floor_div(5 * sum + 32, 64)
    } else {
        floor_div(34 * sum + 32, 64)
    }
}

fn plane_sample(
    s: &Samples,
    w: usize,
    h: usize,
    bit_depth: u32,
    b: i64,
    c: i64,
    x: usize,
    y: usize,
) -> (r: i32)
    requires
        w == 8 || w == 16,
        h == 8 || h == 16,
        s.wf(w as int, h as int),
        8 <= bit_depth <= 14,
        b == slope(s@, 1, w as int),
        c == slope(s@, -1, h as int),
        -0x20_0000 <= b <= 0x20_0000,
        -0x20_0000 <= c <= 0x20_0000,
        x < w,
        y < h,
    ensures
        r == plane_at(s@, w as int, h as int, bit_depth, x as int, y as int),
        0 <= r <= 65535,
{
    let l = s.border(-(h as i64), Ghost(w as int), Ghost(h as int));
    let t = s.border(w as i64, Ghost(w as int), Ghost(h as int));
    let dx: i64 = x as i64 - (w as i64 / 2 - 1);
    let dy: i64 = y as i64 - (h as i64 / 2 - 1);
    proof {
        assert(-0x200_0000 <= b * dx <= 0x200_0000) by (nonlinear_arith)
            requires
                -0x20_0000 <= b <= 0x20_0000,
                -16 <= dx <= 16,
        ;
        assert(-0x200_0000 <= c * dy <= 0x200_0000) by (nonlinear_arith)
            requires
                -0x20_0000 <= c <= 0x20_0000,
                -16 <= dy <= 16,
        ;
    }
    clip_sample(floor_div(16 * (l + t) + b * dx + c * dy + 16, 32), bit_depth)
}

/// Prediction of a sample of a 16x16 block.
pub open spec fn at16x16(mode: Intra16x16Mode, s: SamplesV, bit_depth: u32, x: int, y: int) -> int {
    match mode {
        Intra16x16Mode::Vertical => s.top[x],
        Intra16x16Mode::Horizontal => s.left[y],
        Intra16x16Mode::Dc => dc_value(s, 16, bit_depth),
        Intra16x16Mode::Plane => plane_at(s, 16, 16, bit_depth, x, y),
    }
}

/// Prediction of a 16x16 block, row by row.
#[verifier::opaque]
pub open spec fn predict_16x16_spec(mode: Intra16x16Mode, s: SamplesV, bit_depth: u32) -> Seq<int> {
    Seq::new(256, |k: int| at16x16(mode, s, bit_depth, k % 16, k / 16))
}

/// Prediction of a 16x16 block.
pub fn predict_16x16(mode: Intra16x16Mode, s: &Samples, bit_depth: u32) -> (r: Vec<i32>)
    requires
        s.wf(16, 16),
        8 <= bit_depth <= 14,
    ensures
        ints(r@) == predict_16x16_spec(mode, s@, bit_depth),
        samples_ok(r@),
        r.len() == 256,
{
    let dc = dc_of(s, 16, bit_depth);
    let b = slope_of(s, false, 16, 16);
    let c = slope_of(s, true, 16, 16);
    let mut r: Vec<i32> = Vec::new();
    for k in 0..256usize
        invariant
            s.wf(16, 16),
            8 <= bit_depth <= 14,
            dc == dc_value(s@, 16, bit_depth),
            0 <= dc <= 65535,
            b == slope(s@, 1, 16),
            c == slope(s@, -1, 16),
            -0x20_0000 <= b <= 0x20_0000,
            -0x20_0000 <= c <= 0x20_0000,
            r.len() == k,
            samples_ok(r@),
            forall|i: int|
                0 <= i < k ==> #[trigger] r@[i] == at16x16(mode, s@, bit_depth, i % 16, i / 16),
    {
        let v = match mode {
            Intra16x16Mode::Vertical => s.top[k % 16],
            Intra16x16Mode::Horizontal => s.left[k / 16],
            Intra16x16Mode::Dc => dc,
            Intra16x16Mode::Plane => plane_sample(s, 16, 16, bit_depth, b, c, k % 16, k / 16),
        };
        r.push(v);
    }
    proof {
        reveal(predict_16x16_spec);
        assert(ints(r@) =~= predict_16x16_spec(mode, s@, bit_depth));
    }
    r
}

/// Mean of four samples of one side.
pub open spec fn mean4(side: Seq<int>, lo: int) -> int {
    (sum_of(side, lo, 4) + 2) / 4
}

/// DC prediction of the 4x4 chroma block whose first sample is at column `xo` and row `yo`.
pub open spec fn chroma_dc_value(s: SamplesV, bit_depth: u32, xo: int, yo: int) -> int {
    if (xo == 0) == (yo == 0) && s.av.top && s.av.left {
        (sum_of(s.top, xo, 4) + sum_of(s.left, yo, 4) + 4) / 8
    } else if s.av.top && (!s.av.left || (xo > 0 && yo == 0)) {
        mean4(s.top, xo)
    } else if s.av.left {
        mean4(s.left, yo)
    } else {
        p2(bit_depth - 1)
    }
}

/// Prediction of a sample of an 8 by `h` chroma block.
pub open spec fn chroma_at(
    mode: IntraChromaMode,
    s: SamplesV,
    h: int,
    bit_depth: u32,
    x: int,
    y: int,
) -> int {
    match mode {
        IntraChromaMode::Dc => chroma_dc_value(s, bit_depth, x / 4 * 4, y / 4 * 4),
        IntraChromaMode::Horizontal => s.left[y],
        IntraChromaMode::Vertical => s.top[x],
        IntraChromaMode::Plane => plane_at(s, 8, h, bit_depth, x, y),
    }
}

/// Prediction of an 8 by `h` chroma block, row by row.
#[verifier::opaque]
pub open spec fn predict_chroma_spec(
    mode: IntraChromaMode,
    s: SamplesV,
    h: int,
    bit_depth: u32,
) -> Seq<int> {
    Seq::new((8 * h) as nat, |k: int| chroma_at(mode, s, h, bit_depth, k % 8, k / 8))
}

fn chroma_dc_of(s: &Samples, h: usize, bit_depth: u32, xo: usize, yo: usize) -> (r: i32)
    requires
        h == 8 || h == 16,
        s.wf(8, h as int),
        8 <= bit_depth <= 14,
        xo + 4 <= 8,
        yo + 4 <= h,
    ensures
        r == chroma_dc_value(s@, bit_depth, xo as int, yo as int),
        0 <= r <= 65535,
{
    let av = s.availability;
    if (xo == 0) == (yo == 0) && av.top && av.left {
        let t = sum_from(&s.top, xo, 4);
        let l = sum_from(&s.left, yo, 4);
        ((t + l + 4) / 8) as i32
    } else if av.top && (!av.left || (xo > 0 && yo == 0)) {
        ((sum_from(&s.top, xo, 4) + 2) / 4) as i32
    } else if av.left {
        ((sum_from(&s.left, yo, 4) + 2) / 4) as i32
    } else {
        mid_grey(bit_depth)
    }
}

/// Prediction of a chroma block of a 4:2:0 (`h` is 8) or 4:2:2 (`h` is 16) macroblock.
pub fn predict_chroma(mode: IntraChromaMode, s: &Samples, h: usize, bit_depth: u32) -> (r: Vec<i32>)
    requires
        h == 8 || h == 16,
        s.wf(8, h as int),
        8 <= bit_depth <= 14,
    ensures
        ints(r@) == predict_chroma_spec(mode, s@, h as int, bit_depth),
        samples_ok(r@),
        r.len() == 8 * h,
{
    let b = slope_of(s, false, 8, h);
    let c = slope_of(s, true, 8, h);
    let mut r: Vec<i32> = Vec::new();
    for k in 0..8 * h
        invariant
            h == 8 || h == 16,
            s.wf(8, h as int),
            8 <= bit_depth <= 14,
            b == slope(s@, 1, 8),
            c == slope(s@, -1, h as int),
            -0x20_0000 <= b <= 0x20_0000,
            -0x20_0000 <= c <= 0x20_0000,
            r.len() == k,
            samples_ok(r@),
            forall|i: int|
                0 <= i < k ==> #[trigger] r@[i] == chroma_at(
                    mode,
                    s@,
                    h as int,
                    bit_depth,
                    i % 8,
                    i / 8,
                ),
    {
        let (x, y): (usize, usize) = (k % 8, k / 8);
        let v = match mode {
            IntraChromaMode::Dc => chroma_dc_of(s, h, bit_depth, x / 4 * 4, y / 4 * 4),
            IntraChromaMode::Horizontal => s.left[y],
            IntraChromaMode::Vertical => s.top[x],
            IntraChromaMode::Plane => plane_sample(s, 8, h, bit_depth, b, c, x, y),
        };
        r.push(v);
    }
    proof {
        reveal(predict_chroma_spec);
        assert(ints(r@) =~= predict_chroma_spec(mode, s@, h as int, bit_depth));
    }
    r
}

/// The neighbours that a 4x4 or 8x8 mode reads are available.
pub open spec fn nxn_permitted(mode: IntraNxNMode, av: Neighbour4x4Availability) -> bool {
    match mode {
        IntraNxNMode::Dc => true,
        IntraNxNMode::Vertical
        | IntraNxNMode::DiagonalDownLeft
        | IntraNxNMode::VerticalLeft => av.top,
        IntraNxNMode::Horizontal | IntraNxNMode::HorizontalUp => av.left,
        _ => av.top && av.left && av.top_left,
    }
}

/// The neighbours that a 16x16 mode reads are available.
pub open spec fn permitted_16x16(mode: Intra16x16Mode, av: Neighbour4x4Availability) -> bool {
    match mode {
        Intra16x16Mode::Dc => true,
        Intra16x16Mode::Vertical => av.top,
        Intra16x16Mode::Horizontal => av.left,
        Intra16x16Mode::Plane => av.top && av.left && av.top_left,
    }
}

/// The neighbours that a chroma mode reads are available.
pub open spec fn chroma_permitted(mode: IntraChromaMode, av: Neighbour4x4Availability) -> bool {
    match mode {
        IntraChromaMode::Dc => true,
        IntraChromaMode::Vertical => av.top,
        IntraChromaMode::Horizontal => av.left,
        IntraChromaMode::Plane => av.top && av.left && av.top_left,
    }
}

/// Name of a 4x4 mode.
pub open spec fn name_4x4(mode: IntraNxNMode) -> Seq<char> {
    match mode {
        IntraNxNMode::Vertical => "Intra_4x4_Vertical"@,
        IntraNxNMode::Horizontal => "Intra_4x4_Horizontal"@,
        IntraNxNMode::Dc => "Intra_4x4_DC"@,
        IntraNxNMode::DiagonalDownLeft => "Intra_4x4_Diagonal_Down_Left"@,
        IntraNxNMode::DiagonalDownRight => "Intra_4x4_Diagonal_Down_Right"@,
        IntraNxNMode::VerticalRight => "Intra_4x4_Vertical_Right"@,
        IntraNxNMode::HorizontalDown => "Intra_4x4_Horizontal_Down"@,
        IntraNxNMode::VerticalLeft => "Intra_4x4_Vertical_Left"@,
        IntraNxNMode::HorizontalUp => "Intra_4x4_Horizontal_Up"@,
    }
}

/// Name of an 8x8 mode.
pub open spec fn name_8x8(mode: IntraNxNMode) -> Seq<char> {
    match mode {
        IntraNxNMode::Vertical => "Intra_8x8_Vertical"@,
        IntraNxNMode::Horizontal => "Intra_8x8_Horizontal"@,
        IntraNxNMode::Dc => "Intra_8x8_DC"@,
        IntraNxNMode::DiagonalDownLeft => "Intra_8x8_Diagonal_Down_Left"@,
        IntraNxNMode::DiagonalDownRight => "Intra_8x8_Diagonal_Down_Right"@,
        IntraNxNMode::VerticalRight => "Intra_8x8_Vertical_Right"@,
        IntraNxNMode::HorizontalDown => "Intra_8x8_Horizontal_Down"@,
        IntraNxNMode::VerticalLeft => "Intra_8x8_Vertical_Left"@,
        IntraNxNMode::HorizontalUp => "Intra_8x8_Horizontal_Up"@,
    }
}

/// Name of a 16x16 mode.
pub open spec fn name_16x16(mode: Intra16x16Mode) -> Seq<char> {
    match mode {
        Intra16x16Mode::Vertical => "Intra_16x16_Vertical"@,
        Intra16x16Mode::Horizontal => "Intra_16x16_Horizontal"@,
        Intra16x16Mode::Dc => "Intra_16x16_DC"@,
        Intra16x16Mode::Plane => "Intra_16x16_Plane"@,
    }
}

/// Name of a chroma mode.
pub open spec fn name_chroma(mode: IntraChromaMode) -> Seq<char> {
    match mode {
        IntraChromaMode::Dc => "Intra_Chroma_DC"@,
        IntraChromaMode::Horizontal => "Intra_Chroma_Horizontal"@,
        IntraChromaMode::Vertical => "Intra_Chroma_Vertical"@,
        IntraChromaMode::Plane => "Intra_Chroma_Plane"@,
    }
}

/// Outcome of asking for a mode: the error names the mode and the clause that forbids it.
pub open spec fn mode_error(permitted: bool, name: Seq<char>, clause: Seq<char>) -> Option<
    crate::error::ErrV,
> {
    if permitted {
        None
    } else {
        Some(crate::error::ErrV::IntraModeNeighboursUnavailable { mode: name, clause })
    }
}

pub open spec fn error_4x4(mode: IntraNxNMode, av: Neighbour4x4Availability) -> Option<
    crate::error::ErrV,
> {
    mode_error(nxn_permitted(mode, av), name_4x4(mode), "8.3.1.2"@)
}

pub open spec fn error_8x8(mode: IntraNxNMode, av: Neighbour4x4Availability) -> Option<
    crate::error::ErrV,
> {
    mode_error(nxn_permitted(mode, av), name_8x8(mode), "8.3.2.2"@)
}

pub open spec fn error_16x16(mode: Intra16x16Mode, av: Neighbour4x4Availability) -> Option<
    crate::error::ErrV,
> {
    mode_error(permitted_16x16(mode, av), name_16x16(mode), "8.3.3"@)
}

pub open spec fn error_chroma(mode: IntraChromaMode, av: Neighbour4x4Availability) -> Option<
    crate::error::ErrV,
> {
    mode_error(chroma_permitted(mode, av), name_chroma(mode), "8.3.4"@)
}

fn nxn_mode_permitted(mode: IntraNxNMode, av: &Neighbour4x4Availability) -> (r: bool)
    ensures
        r == nxn_permitted(mode, *av),
{
    match mode {
        IntraNxNMode::Dc => true,
        IntraNxNMode::Vertical
        | IntraNxNMode::DiagonalDownLeft
        | IntraNxNMode::VerticalLeft => av.top,
        IntraNxNMode::Horizontal | IntraNxNMode::HorizontalUp => av.left,
        _ => av.top && av.left && av.top_left,
    }
}

/// Refuses a 4x4 mode whose neighbours are not available.
pub fn require_intra_4x4_mode(mode: IntraNxNMode, av: &Neighbour4x4Availability) -> (r: Result<
    (),
    ReconstructError,
>)
    ensures
        crate::error::outcome(r) == error_4x4(mode, *av),
{
    if nxn_mode_permitted(mode, av) {
        return Ok(());
    }
    Err(
        ReconstructError::IntraModeNeighboursUnavailable {
            mode: match mode {
                IntraNxNMode::Vertical => "Intra_4x4_Vertical",
                IntraNxNMode::Horizontal => "Intra_4x4_Horizontal",
                IntraNxNMode::Dc => "Intra_4x4_DC",
                IntraNxNMode::DiagonalDownLeft => "Intra_4x4_Diagonal_Down_Left",
                IntraNxNMode::DiagonalDownRight => "Intra_4x4_Diagonal_Down_Right",
                IntraNxNMode::VerticalRight => "Intra_4x4_Vertical_Right",
                IntraNxNMode::HorizontalDown => "Intra_4x4_Horizontal_Down",
                IntraNxNMode::VerticalLeft => "Intra_4x4_Vertical_Left",
                IntraNxNMode::HorizontalUp => "Intra_4x4_Horizontal_Up",
            },
            clause: "8.3.1.2",
        },
    )
}

/// Refuses an 8x8 mode whose neighbours are not available.
pub fn require_intra_8x8_mode(mode: IntraNxNMode, av: &Neighbour4x4Availability) -> (r: Result<
    (),
    ReconstructError,
>)
    ensures
        crate::error::outcome(r) == error_8x8(mode, *av),
{
    if nxn_mode_permitted(mode, av) {
        return Ok(());
    }
    Err(
        ReconstructError::IntraModeNeighboursUnavailable {
            mode: match mode {
                IntraNxNMode::Vertical => "Intra_8x8_Vertical",
                IntraNxNMode::Horizontal => "Intra_8x8_Horizontal",
                IntraNxNMode::Dc => "Intra_8x8_DC",
                IntraNxNMode::DiagonalDownLeft => "Intra_8x8_Diagonal_Down_Left",
                IntraNxNMode::DiagonalDownRight => "Intra_8x8_Diagonal_Down_Right",
                IntraNxNMode::VerticalRight => "Intra_8x8_Vertical_Right",
                IntraNxNMode::HorizontalDown => "Intra_8x8_Horizontal_Down",
                IntraNxNMode::VerticalLeft => "Intra_8x8_Vertical_Left",
                IntraNxNMode::HorizontalUp => "Intra_8x8_Horizontal_Up",
            },
            clause: "8.3.2.2",
        },
    )
}

/// Refuses a 16x16 mode whose neighbours are not available.
pub fn require_intra_16x16_mode(mode: Intra16x16Mode, av: &Neighbour4x4Availability) -> (r: Result<
    (),
    ReconstructError,
>)
    ensures
        crate::error::outcome(r) == error_16x16(mode, *av),
{
    let ok = match mode {
        Intra16x16Mode::Dc => true,
        Intra16x16Mode::Vertical => av.top,
        Intra16x16Mode::Horizontal => av.left,
        Intra16x16Mode::Plane => av.top && av.left && av.top_left,
    };
    if ok {
        return Ok(());
    }
    Err(
        ReconstructError::IntraModeNeighboursUnavailable {
            mode: match mode {
                Intra16x16Mode::Vertical => "Intra_16x16_Vertical",
                Intra16x16Mode::Horizontal => "Intra_16x16_Horizontal",
                Intra16x16Mode::Dc => "Intra_16x16_DC",
                Intra16x16Mode::Plane => "Intra_16x16_Plane",
            },
            clause: "8.3.3",
        },
    )
}

/// Refuses a chroma mode whose neighbours are not available.
pub fn require_intra_chroma_mode(mode: IntraChromaMode, av: &Neighbour4x4Availability) -> (r:
    Result<(), ReconstructError>)
    ensures
        crate::error::outcome(r) == error_chroma(mode, *av),
{
    let ok = match mode {
        IntraChromaMode::Dc => true,
        IntraChromaMode::Vertical => av.top,
        IntraChromaMode::Horizontal => av.left,
        IntraChromaMode::Plane => av.top && av.left && av.top_left,
    };
    if ok {
        return Ok(());
    }
    Err(
        ReconstructError::IntraModeNeighboursUnavailable {
            mode: match mode {
                IntraChromaMode::Dc => "Intra_Chroma_DC",
                IntraChromaMode::Horizontal => "Intra_Chroma_Horizontal",
                IntraChromaMode::Vertical => "Intra_Chroma_Vertical",
                IntraChromaMode::Plane => "Intra_Chroma_Plane",
            },
            clause: "8.3.4",
        },
    )
}

/// Every neighbour of a block of `n` by `n` samples is `v`.
pub open spec fn flat_border(s: SamplesV, n: int, v: int) -> bool {
    &&& s.top.len() == n && s.left.len() == n && s.top_right.len() == n
    &&& s.top_left == v
    &&& forall|i: int| 0 <= i < n ==> #[trigger] s.top[i] == v
    &&& forall|i: int| 0 <= i < n ==> #[trigger] s.top_right[i] == v
    &&& forall|i: int| 0 <= i < n ==> #[trigger] s.left[i] == v
}

proof fn lemma_flat_sum(s: Seq<int>, n: int, v: int)
    requires
        0 <= n <= s.len(),
        forall|i: int| 0 <= i < s.len() ==> #[trigger] s[i] == v,
    ensures
        sum_of(s, 0, n) == n * v,
    decreases n,
{
    if n > 0 {
        lemma_flat_sum(s, n - 1, v);
        assert(s[0 + n - 1] == v);
        assert((n - 1) * v + v == n * v) by (nonlinear_arith);
    } else {
        assert(n * v == 0) by (nonlinear_arith)
            requires
                n == 0,
        ;
    }
}

/// Flat neighbours predict a flat block, whatever the mode.
pub proof fn law_flat_border_predicts_flat(
    mode: IntraNxNMode,
    s: SamplesV,
    n: int,
    v: int,
    bit_depth: u32,
    x: int,
    y: int,
)
    requires
        n == 4 || n == 8,
        flat_border(s, n, v),
        s.av.top || s.av.left,
        0 <= x < n,
        0 <= y < n,
    ensures
        nxn_at(mode, s, n, bit_depth, x, y) == v,
{
    lemma_flat_sum(s.top, n, v);
    lemma_flat_sum(s.left, n, v);
    assert forall|i: int| -n <= i <= 2 * n implies #[trigger] s.e(i) == v by {}
}

/// Without neighbours a block is predicted in the middle of the sample range.
pub proof fn law_no_neighbours_predict_middle(s: SamplesV, n: int, bit_depth: u32, x: int, y: int)
    requires
        !s.av.top,
        !s.av.left,
        bit_depth >= 1,
    ensures
        nxn_at(IntraNxNMode::Dc, s, n, bit_depth, x, y) == p2(bit_depth - 1),
        at16x16(Intra16x16Mode::Dc, s, bit_depth, x, y) == p2(bit_depth - 1),
        2 * p2(bit_depth - 1) == p2(bit_depth as int),
{
}

} // verus!
