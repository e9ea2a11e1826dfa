//! A rectangular plane of samples.
use crate::math::{clip3, ints};
use vstd::prelude::*;

verus! {

/// Largest width or height of a plane.
pub const MAX_DIM: u32 = 0x4000_0000;

/// What a plane holds: its size and the sample at each position.
#[verifier::ext_equal]
pub struct PlaneV {
    pub w: int,
    pub h: int,
    pub at: spec_fn(int, int) -> int,
}

/// The value a sample store keeps of `v`.
pub open spec fn stored(v: int) -> int {
    clip3(0, 65535, v)
}

impl PlaneV {
    pub open spec fn has(self, x: int, y: int) -> bool {
        0 <= x < self.w && 0 <= y < self.h
    }

    /// Reading with coordinates clamped into the plane; an empty plane reads as zero.
    pub open spec fn get(self, x: int, y: int) -> int {
        if self.w > 0 && self.h > 0 {
            (self.at)(clip3(0, self.w - 1, x), clip3(0, self.h - 1, y))
        } else {
            0
        }
    }

    pub open spec fn zeros(w: int, h: int) -> PlaneV {
        PlaneV { w, h, at: |x: int, y: int| 0 }
    }

    /// Every sample replaced by `v`.
    pub open spec fn filled(self, v: int) -> PlaneV {
        PlaneV {
            w: self.w,
            h: self.h,
            at: |x: int, y: int|
                if self.has(x, y) {
                    stored(v)
                } else {
                    (self.at)(x, y)
                },
        }
    }

    pub open spec fn same_size(self, other: PlaneV) -> bool {
        self.w == other.w && self.h == other.h
    }

    /// Writing one sample; a position outside the plane is ignored.
    pub open spec fn set(self, x: int, y: int, v: int) -> PlaneV {
        PlaneV {
            w: self.w,
            h: self.h,
            at: |a: int, b: int|
                if a == x && b == y && self.has(x, y) {
                    stored(v)
                } else {
                    (self.at)(a, b)
                },
        }
    }
}

/// Index of position `(x, y)` in a block that is `w` wide, starts at `(x0, y0)` and takes every
/// `step`-th row; `None` outside the block's columns and rows.
pub open spec fn block_index(x0: int, y0: int, step: int, w: int, x: int, y: int) -> Option<int> {
    if 0 <= x - x0 < w && y >= y0 && (y - y0) % step == 0 {
        Some(((y - y0) / step) * w + (x - x0))
    } else {
        None
    }
}

impl PlaneV {
    /// The plane after the first `n` samples of `vals` were written in raster order into the block
    /// that starts at `(x0, y0)`, is `w` wide and takes every `step`-th row.
    pub open spec fn put(
        self,
        x0: int,
        y0: int,
        step: int,
        w: int,
        n: int,
        vals: Seq<int>,
    ) -> PlaneV {
        PlaneV {
            w: self.w,
            h: self.h,
            at: |a: int, b: int|
                match block_index(x0, y0, step, w, a, b) {
                    Some(i) => if self.has(a, b) && i < n {
                        stored(vals[i])
                    } else {
                        (self.at)(a, b)
                    },
                    None => (self.at)(a, b),
                },
        }
    }
}

#[derive(Debug)]
pub struct Plane {
    w: u32,
    h: u32,
    data: Vec<u16>,
}

impl Plane {
    #[verifier::type_invariant]
    spec fn inv(self) -> bool {
        self.w <= MAX_DIM && self.h <= MAX_DIM && self.data.len() == self.w * self.h
    }
}

impl View for Plane {
    type V = PlaneV;

    closed spec fn view(&self) -> PlaneV {
        PlaneV {
            w: self.w as int,
            h: self.h as int,
            at: |x: int, y: int|
                if 0 <= x < self.w && 0 <= y < self.h {
                    self.data@[y * self.w + x] as int
                } else {
                    0
                },
        }
    }
}

proof fn lemma_index(w: int, h: int, x: int, y: int)
    requires
        0 <= x < w,
        0 <= y < h,
    ensures
        0 <= y * w + x < w * h,
{
    assert(0 <= y * w + x < w * h) by (nonlinear_arith)
        requires
            0 <= x < w,
            0 <= y < h,
    ;
}

proof fn lemma_block_index(x0: int, y0: int, step: int, w: int, k: int, a: int, b: int)
    requires
        step == 1 || step == 2,
        w > 0,
        k >= 0,
    ensures
        0 <= k % w < w,
        0 <= k / w <= k,
        block_index(x0, y0, step, w, x0 + k % w, y0 + step * (k / w)) == Some(k),
        block_index(x0, y0, step, w, a, b) == Some(k) ==> a == x0 + k % w && b == y0 + step * (k
            / w),
{
    vstd::arithmetic::div_mod::lemma_fundamental_div_mod(k, w);
    let q = k / w;
    assert(0 <= q <= k) by (nonlinear_arith)
        requires
            k == w * q + k % w,
            0 <= k % w < w,
            k >= 0,
    ;
    assert(q * w == w * q) by (nonlinear_arith);
    assert((step * q) % step == 0 && (step * q) / step == q);
    if block_index(x0, y0, step, w, a, b) == Some(k) {
        let d = (b - y0) / step;
        lemma_index_unique(w, a - x0, d, k % w, q);
    }
}

proof fn lemma_index_unique(w: int, x: int, y: int, a: int, b: int)
    requires
        0 <= x < w,
        0 <= a < w,
        y * w + x == b * w + a,
    ensures
        x == a && y == b,
{
    assert(x == a && y == b) by (nonlinear_arith)
        requires
            0 <= x < w,
            0 <= a < w,
            y * w + x == b * w + a,
    ;
}

impl Plane {
    /// A plane of zeros.
    pub fn new(w: u32, h: u32) -> (r: Plane)
        requires
            w <= MAX_DIM,
            h <= MAX_DIM,
            w * h <= usize::MAX,
        ensures
            r@ == PlaneV::zeros(w as int, h as int),
    {
        assert(w as usize as int * h as usize as int == w * h);
        let n: usize = w as usize * h as usize;
        let r = Plane { w, h, data: vec![0u16; n] };
        proof {
            let now = r@.at;
            let zero = PlaneV::zeros(w as int, h as int).at;
            assert forall|a: int, b: int| #[trigger] now(a, b) == zero(a, b) by {
                if r@.has(a, b) {
                    lemma_index(w as int, h as int, a, b);
                }
            }
            assert(r@ =~= PlaneV::zeros(w as int, h as int));
        }
        r
    }

    /// Sets every sample to `v`.
    pub fn fill(&mut self, v: i32)
        ensures
            final(self)@ == old(self)@.filled(v as int),
    {
        proof {
            use_type_invariant(&*self);
        }
        let n = self.data.len();
        let s: u16 = crate::math::clip3_i32(0, 65535, v) as u16;
        let mut i: usize = 0;
        while i < n
            invariant
                i <= n,
                n == self.data.len(),
                self.inv(),
                self.w == old(self).w,
                self.h == old(self).h,
                forall|k: int| 0 <= k < i ==> self.data@[k] == s,
            decreases n - i,
        {
            self.data[i] = s;
            i += 1;
        }
        proof {
            let now = self@.at;
            let want = old(self)@.filled(v as int).at;
            assert forall|a: int, b: int| #[trigger] now(a, b) == want(a, b) by {
                if self@.has(a, b) {
                    lemma_index(self.w as int, self.h as int, a, b);
                }
            }
            assert(self@ =~= old(self)@.filled(v as int));
        }
    }

    /// All samples, row by row.
    pub fn values(&self) -> (r: Vec<i32>)
        ensures
            r.len() == self@.w * self@.h,
            forall|x: int, y: int|
                self@.has(x, y) ==> #[trigger] r@[y * self@.w + x] == (self@.at)(x, y),
    {
        proof {
            use_type_invariant(self);
        }
        let mut r: Vec<i32> = Vec::new();
        for i in 0..self.data.len()
            invariant
                r.len() == i,
                forall|k: int| 0 <= k < i ==> r@[k] == self.data@[k],
        {
            r.push(self.data[i] as i32);
        }
        proof {
            assert forall|x: int, y: int| self@.has(x, y) implies #[trigger] r@[y * self@.w + x]
                == (self@.at)(x, y) by {
                lemma_index(self.w as int, self.h as int, x, y);
            }
        }
        r
    }

    pub fn width(&self) -> (r: u32)
        ensures
            r == self@.w,
            r <= MAX_DIM,
    {
        proof {
            use_type_invariant(self);
        }
        self.w
    }

    pub fn height(&self) -> (r: u32)
        ensures
            r == self@.h,
            r <= MAX_DIM,
    {
        proof {
            use_type_invariant(self);
        }
        self.h
    }

    /// The sample at `(x, y)`, coordinates clamped into the plane.
    pub fn get(&self, x: i64, y: i64) -> (r: i32)
        ensures
            r == self@.get(x as int, y as int),
            0 <= r <= 65535,
    {
        proof {
            use_type_invariant(self);
        }
        if self.w == 0 || self.h == 0 {
            return 0;
        }
        let cx = crate::math::clip3_i64(0, self.w as i64 - 1, x) as usize;
        let cy = crate::math::clip3_i64(0, self.h as i64 - 1, y) as usize;
        proof {
            lemma_index(self.w as int, self.h as int, cx as int, cy as int);
        }
        self.data[cy * self.w as usize + cx] as i32
    }

    /// Stores `v` at `(x, y)`; a position outside the plane is ignored.
    pub fn set(&mut self, x: i64, y: i64, v: i32)
        ensures
            final(self)@ == old(self)@.set(x as int, y as int, v as int),
    {
        proof {
            use_type_invariant(&*self);
        }
        if x >= 0 && y >= 0 && x < self.w as i64 && y < self.h as i64 {
            proof {
                lemma_index(self.w as int, self.h as int, x as int, y as int);
            }
            let i: usize = y as usize * self.w as usize + x as usize;
            self.data[i] = crate::math::clip3_i32(0, 65535, v) as u16;
            proof {
                let now = self@.at;
                let want = old(self)@.set(x as int, y as int, v as int).at;
                assert forall|a: int, b: int| #[trigger] now(a, b) == want(a, b) by {
                    if old(self)@.has(a, b) {
                        lemma_index(self.w as int, self.h as int, a, b);
                        if b * self.w + a == y * self.w + x {
                            lemma_index_unique(self.w as int, x as int, y as int, a, b);
                        }
                    }
                }
            }
        }
        assert(self@ =~= old(self)@.set(x as int, y as int, v as int));
    }

    /// Writes `vals` in raster order into the block of `w` columns that starts at `(x0, y0)` and
    /// takes every `step`-th row. Positions outside the plane are ignored.
    pub fn put(&mut self, x0: i64, y0: i64, step: i64, w: usize, vals: &Vec<i32>)
        requires
            step == 1 || step == 2,
            0 < w,
            vals.len() <= 0x1_0000,
            w <= 0x1_0000,
            -0x1_0000_0000 <= x0 <= 0x1_0000_0000,
            -0x1_0000_0000 <= y0 <= 0x1_0000_0000,
        ensures
            final(self)@ == old(self)@.put(
                x0 as int,
                y0 as int,
                step as int,
                w as int,
                vals.len() as int,
                ints(vals@),
            ),
    {
        let n = vals.len();
        let mut k: usize = 0;
        assert(self@ =~= old(self)@.put(x0 as int, y0 as int, step as int, w as int, 0, ints(vals@))) by {
            let now = old(self)@.put(x0 as int, y0 as int, step as int, w as int, 0, ints(vals@)).at;
            let was = old(self)@.at;
            assert forall|a: int, b: int| #[trigger] now(a, b) == was(a, b) by {
                if let Some(i) = block_index(x0 as int, y0 as int, step as int, w as int, a, b) {
                    let d = (b - y0) / step as int;
                    assert(d * w >= 0) by (nonlinear_arith)
                        requires
                            d >= 0,
                            w > 0,
                    ;
                }
            }
        }
        while k < n
            invariant
                k <= n,
                n == vals.len(),
                n <= 0x1_0000,
                step == 1 || step == 2,
                0 < w <= 0x1_0000,
                -0x1_0000_0000 <= x0 <= 0x1_0000_0000,
                -0x1_0000_0000 <= y0 <= 0x1_0000_0000,
                self@ == old(self)@.put(
                    x0 as int,
                    y0 as int,
                    step as int,
                    w as int,
                    k as int,
                    ints(vals@),
                ),
            decreases n - k,
        {
            let ghost before = self@;
            proof {
                lemma_block_index(x0 as int, y0 as int, step as int, w as int, k as int, 0, 0);
            }
            let x: i64 = x0 + (k % w) as i64;
            let y: i64 = y0 + step * (k / w) as i64;
            self.set(x, y, vals[k]);
            proof {
                let want = old(self)@.put(
                    x0 as int,
                    y0 as int,
                    step as int,
                    w as int,
                    k + 1,
                    ints(vals@),
                );
                let now = self@.at;
                let goal = want.at;
                assert forall|a: int, b: int| #[trigger] now(a, b) == goal(a, b) by {
                    lemma_block_index(x0 as int, y0 as int, step as int, w as int, k as int, a, b);
                }
                assert(self@ =~= want);
            }
            k += 1;
        }
    }
}

} // verus!
