//! Laws of sample addresses.
use crate::boundary_strength::EdgeCtxV;
use crate::geometry::writer_of;
use crate::mb_address::{lemma_div_mod_bound, MAX_ADDR};
use crate::mb_grid::GridV;
use vstd::prelude::*;

verus! {

/// In an MBAFF frame the samples of a macroblock are read as neighbours exactly where they were
/// written, luma and chroma alike.
pub proof fn law_samples_are_read_where_written(g: GridV, addr: int, xw: int, yw: int, cat: u32)
    requires
        g.w >= 1,
        0 <= addr <= MAX_ADDR,
        cat <= 3,
    ensures
        ({
            let field = g.field_at(addr);
            let o = g.origin(addr, true, field);
            let wr = writer_of(g, addr, o.0 as i32, o.1 as i32, true, field, cat);
            &&& g.abs_luma(addr, xw, yw) == (wr.mb_px + xw, wr.mb_py + yw * wr.step())
            &&& g.abs_chroma(addr, xw, yw, cat) == (wr.cx() + xw, wr.cy() + yw * wr.step())
        }),
{
    lemma_div_mod_bound(addr / 2, g.w);
    let field = g.field_at(addr);
    let o = g.origin(addr, true, field);
    let wr = writer_of(g, addr, o.0 as i32, o.1 as i32, true, field, cat);
    assert(yw * wr.step() == if field {
        2 * yw
    } else {
        yw
    }) by (nonlinear_arith)
        requires
            wr.step() == (if field {
                2int
            } else {
                1int
            }),
    ;
}

/// The macroblocks of an MBAFF frame come in pairs, both of a pair frame or both field macroblocks,
/// and the flags say which.
pub open spec fn is_paired(c: EdgeCtxV) -> bool {
    &&& c.mbaff
    &&& c.g.w >= 1
    &&& c.g.h >= 2
    &&& c.g.h % 2 == 0
    &&& c.g.info.len() == c.g.w * c.g.h
    &&& c.flags.len() == c.g.w * c.g.h
    &&& forall|k: int|
        0 <= k < c.flags.len() ==> #[trigger] c.flags[k] == c.flags[2 * (k / 2)]
    &&& forall|k: int| 0 <= k < c.flags.len() ==> #[trigger] c.g.field_at(k) == c.flags[k]
}

/// Finding the macroblock of a luma sample undoes placing the samples of a macroblock, for frame
/// and field pairs alike.
pub proof fn law_pixel_finds_its_macroblock(c: EdgeCtxV, addr: int, xw: int, yw: int)
    requires
        is_paired(c),
        0 <= addr < c.g.w * c.g.h,
        0 <= xw < 16,
        0 <= yw < 16,
    ensures
        ({
            let (x, y) = c.g.abs_luma(addr, xw, yw);
            c.pixel_addr(x, y) == Some(addr)
        }),
{
    let (w, h) = (c.g.w, c.g.h);
    let pair = addr / 2;
    let (q, r) = (pair / w, pair % w);
    lemma_div_mod_bound(pair, w);
    let (x, y) = c.g.abs_luma(addr, xw, yw);
    assert(c.g.field_at(addr) == c.flags[addr]);
    assert(c.flags[addr] == c.flags[2 * pair]);
    assert(x / 16 == r);
    assert(y / 32 == q);
    assert(q * w == w * q) by (nonlinear_arith);
    assert(2 * q < h) by (nonlinear_arith)
        requires
            2 * (w * q) <= addr,
            addr < w * h,
            w >= 1,
    ;
}

/// A luma position has a macroblock exactly inside the picture.
pub proof fn law_pixel_has_macroblock_inside(c: EdgeCtxV, x: int, y: int)
    requires
        c.g.w >= 1,
        c.mbaff ==> c.g.h % 2 == 0,
    ensures
        c.pixel_addr(x, y) is None <==> x < 0 || y < 0 || x >= 16 * c.g.w || y >= 16 * c.g.h,
{
}

} // verus!
