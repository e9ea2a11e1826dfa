//! Decoded pictures.
use crate::plane::{Plane, PlaneV, MAX_DIM};
use vstd::prelude::*;

verus! {

/// How a picture was coded.
#[derive(Debug, Clone, Copy, PartialEq, Eq, Structural)]
pub enum PicCodingStruct {
    Frm,
    Fld,
    Afrm,
}

/// Motion kept of one macroblock for direct prediction from a later picture.
#[derive(Debug, Clone, Copy)]
pub struct ColocatedMb {
    pub mv_l0: [(i16, i16); 16],
    pub ref_idx_l0: [i8; 4],
    pub mv_l1: [(i16, i16); 16],
    pub ref_idx_l1: [i8; 4],
    pub is_intra: bool,
}

/// The sample planes of a picture.
#[verifier::ext_equal]
pub struct PicV {
    pub luma: PlaneV,
    pub cb: PlaneV,
    pub cr: PlaneV,
}

pub struct Picture {
    pub luma: Plane,
    pub cb: Plane,
    pub cr: Plane,
    pub chroma_array_type: u32,
    pub pic_order_cnt: i32,
    pub top_field_order_cnt: i32,
    pub bottom_field_order_cnt: i32,
    /// A placeholder for a frame that was never decoded.
    pub non_existing: bool,
    pub coding_struct: PicCodingStruct,
    pub is_bottom_field: bool,
    /// Parity of a field that is stored as a view of its frame.
    pub view_of_frame_parity: Option<u8>,
    /// `mb_field_decoding_flag` of each macroblock of an MBAFF frame.
    pub mb_field_flags: Vec<bool>,
    pub colocated: Vec<ColocatedMb>,
    pub ref_list_0_pocs: Vec<i32>,
    pub ref_list_0_keys: Vec<u32>,
    pub ref_list_0_unit_keys: Vec<u32>,
    pub ref_list_0_parities: Vec<Option<u8>>,
    pub ref_list_1_pocs: Vec<i32>,
    pub ref_list_1_keys: Vec<u32>,
    pub ref_list_1_unit_keys: Vec<u32>,
    pub ref_list_1_parities: Vec<Option<u8>>,
}

/// Width of the chroma planes of a picture that is `w` luma samples wide.
pub open spec fn chroma_w(cat: u32, w: int) -> int {
    if cat == 1 || cat == 2 {
        w / 2
    } else if cat == 3 {
        w
    } else {
        0
    }
}

/// Height of the chroma planes of a picture that is `h` luma samples high.
pub open spec fn chroma_h(cat: u32, h: int) -> int {
    if cat == 1 {
        h / 2
    } else if cat == 2 || cat == 3 {
        h
    } else {
        0
    }
}

/// Everything about a picture except its samples is the same.
pub open spec fn same_meta(a: Picture, b: Picture) -> bool {
    &&& a.chroma_array_type == b.chroma_array_type
    &&& a.pic_order_cnt == b.pic_order_cnt
    &&& a.top_field_order_cnt == b.top_field_order_cnt
    &&& a.bottom_field_order_cnt == b.bottom_field_order_cnt
    &&& a.non_existing == b.non_existing
    &&& a.coding_struct == b.coding_struct
    &&& a.is_bottom_field == b.is_bottom_field
    &&& a.view_of_frame_parity == b.view_of_frame_parity
    &&& a.mb_field_flags == b.mb_field_flags
    &&& a.colocated == b.colocated
    &&& a.ref_list_0_pocs == b.ref_list_0_pocs
    &&& a.ref_list_0_keys == b.ref_list_0_keys
    &&& a.ref_list_0_unit_keys == b.ref_list_0_unit_keys
    &&& a.ref_list_0_parities == b.ref_list_0_parities
    &&& a.ref_list_1_pocs == b.ref_list_1_pocs
    &&& a.ref_list_1_keys == b.ref_list_1_keys
    &&& a.ref_list_1_unit_keys == b.ref_list_1_unit_keys
    &&& a.ref_list_1_parities == b.ref_list_1_parities
    &&& a.luma@.same_size(b.luma@)
    &&& a.cb@.same_size(b.cb@)
    &&& a.cr@.same_size(b.cr@)
}

/// Motion of 4x4 block `blk4` of macroblock `mb_addr`, per list.
pub open spec fn colocated_of(p: Picture, list: int, mb_addr: int, blk4: int) -> Option<
    ((i16, i16), i8, bool),
> {
    if 0 <= mb_addr < p.colocated@.len() && 0 <= blk4 < 16 {
        let m = p.colocated@[mb_addr];
        let q = blk4 / 4;
        if list == 0 {
            Some((m.mv_l0@[blk4], m.ref_idx_l0@[q], m.is_intra))
        } else {
            Some((m.mv_l1@[blk4], m.ref_idx_l1@[q], m.is_intra))
        }
    } else {
        None
    }
}

impl Picture {
    pub open spec fn planes(&self) -> PicV {
        PicV { luma: self.luma@, cb: self.cb@, cr: self.cr@ }
    }

    /// A black picture of the given luma size.
    pub fn new(w: u32, h: u32, chroma_array_type: u32, _bit_depth_y: u32, _bit_depth_c: u32) -> (r:
        Picture)
        requires
            w <= MAX_DIM,
            h <= MAX_DIM,
            w * h <= usize::MAX,
        ensures
            r.luma@ == PlaneV::zeros(w as int, h as int),
            r.cb@ == PlaneV::zeros(
                chroma_w(chroma_array_type, w as int),
                chroma_h(chroma_array_type, h as int),
            ),
            r.cr@ == r.cb@,
            r.chroma_array_type == chroma_array_type,
            r.pic_order_cnt == 0,
            r.top_field_order_cnt == 0,
            r.bottom_field_order_cnt == 0,
            !r.non_existing,
            r.coding_struct is Frm,
            !r.is_bottom_field,
            r.view_of_frame_parity is None,
            r.mb_field_flags@.len() == 0,
            r.colocated@.len() == 0,
            r.ref_list_0_pocs@.len() == 0,
            r.ref_list_0_keys@.len() == 0,
            r.ref_list_0_unit_keys@.len() == 0,
            r.ref_list_0_parities@.len() == 0,
            r.ref_list_1_pocs@.len() == 0,
            r.ref_list_1_keys@.len() == 0,
            r.ref_list_1_unit_keys@.len() == 0,
            r.ref_list_1_parities@.len() == 0,
    {
        let cw: u32 = match chroma_array_type {
            1 | 2 => w / 2,
            3 => w,
            _ => 0,
        };
        let ch: u32 = match chroma_array_type {
            1 => h / 2,
            2 | 3 => h,
            _ => 0,
        };
        assert(cw * ch <= w * h) by (nonlinear_arith)
            requires
                0 <= cw <= w,
                0 <= ch <= h,
        ;
        Picture {
            luma: Plane::new(w, h),
            cb: Plane::new(cw, ch),
            cr: Plane::new(cw, ch),
            chroma_array_type,
            pic_order_cnt: 0,
            top_field_order_cnt: 0,
            bottom_field_order_cnt: 0,
            non_existing: false,
            coding_struct: PicCodingStruct::Frm,
            is_bottom_field: false,
            view_of_frame_parity: None,
            mb_field_flags: Vec::new(),
            colocated: Vec::new(),
            ref_list_0_pocs: Vec::new(),
            ref_list_0_keys: Vec::new(),
            ref_list_0_unit_keys: Vec::new(),
            ref_list_0_parities: Vec::new(),
            ref_list_1_pocs: Vec::new(),
            ref_list_1_keys: Vec::new(),
            ref_list_1_unit_keys: Vec::new(),
            ref_list_1_parities: Vec::new(),
        }
    }

    pub fn chroma_width(&self) -> (r: u32)
        ensures
            r == self.cb@.w,
    {
        self.cb.width()
    }

    pub fn chroma_height(&self) -> (r: u32)
        ensures
            r == self.cb@.h,
    {
        self.cb.height()
    }

    pub fn luma_at(&self, x: i32, y: i32) -> (r: i32)
        ensures
            r == self.luma@.get(x as int, y as int),
    {
        self.luma.get(x as i64, y as i64)
    }

    pub fn cb_at(&self, x: i32, y: i32) -> (r: i32)
        ensures
            r == self.cb@.get(x as int, y as int),
    {
        self.cb.get(x as i64, y as i64)
    }

    pub fn cr_at(&self, x: i32, y: i32) -> (r: i32)
        ensures
            r == self.cr@.get(x as int, y as int),
    {
        self.cr.get(x as i64, y as i64)
    }

    pub fn set_luma(&mut self, x: i32, y: i32, v: i32)
        ensures
            final(self).luma@ == old(self).luma@.set(x as int, y as int, v as int),
            final(self).cb == old(self).cb,
            final(self).cr == old(self).cr,
            same_meta(*final(self), *old(self)),
    {
        self.luma.set(x as i64, y as i64, v);
    }

    pub fn set_cb(&mut self, x: i32, y: i32, v: i32)
        ensures
            final(self).cb@ == old(self).cb@.set(x as int, y as int, v as int),
            final(self).luma == old(self).luma,
            final(self).cr == old(self).cr,
            same_meta(*final(self), *old(self)),
    {
        self.cb.set(x as i64, y as i64, v);
    }

    pub fn set_cr(&mut self, x: i32, y: i32, v: i32)
        ensures
            final(self).cr@ == old(self).cr@.set(x as int, y as int, v as int),
            final(self).luma == old(self).luma,
            final(self).cb == old(self).cb,
            same_meta(*final(self), *old(self)),
    {
        self.cr.set(x as i64, y as i64, v);
    }

    pub fn fill_luma(&mut self, v: i32)
        ensures
            final(self).luma@ == old(self).luma@.filled(v as int),
            final(self).cb == old(self).cb,
            final(self).cr == old(self).cr,
            same_meta(*final(self), *old(self)),
    {
        self.luma.fill(v);
    }

    pub fn luma_values(&self) -> (r: Vec<i32>)
        ensures
            r.len() == self.luma@.w * self.luma@.h,
            forall|x: int, y: int|
                self.luma@.has(x, y) ==> #[trigger] r@[y * self.luma@.w + x] == (self.luma@.at)(
                    x,
                    y,
                ),
    {
        self.luma.values()
    }

    pub fn cb_values(&self) -> (r: Vec<i32>)
        ensures
            r.len() == self.cb@.w * self.cb@.h,
            forall|x: int, y: int|
                self.cb@.has(x, y) ==> #[trigger] r@[y * self.cb@.w + x] == (self.cb@.at)(x, y),
    {
        self.cb.values()
    }

    pub fn cr_values(&self) -> (r: Vec<i32>)
        ensures
            r.len() == self.cr@.w * self.cr@.h,
            forall|x: int, y: int|
                self.cr@.has(x, y) ==> #[trigger] r@[y * self.cr@.w + x] == (self.cr@.at)(x, y),
    {
        self.cr.values()
    }

    /// Motion kept of a block of macroblock `mb_addr` in the given list.
    pub fn colocated_in(&self, list: u8, mb_addr: u32, blk4: usize) -> (r: Option<
        ((i16, i16), i8, bool),
    >)
        ensures
            r == colocated_of(*self, list as int, mb_addr as int, blk4 as int),
    {
        if (mb_addr as usize) < self.colocated.len() && blk4 < 16 {
            let m = &self.colocated[mb_addr as usize];
            let q: usize = blk4 / 4;
            if list == 0 {
                Some((m.mv_l0[blk4], m.ref_idx_l0[q], m.is_intra))
            } else {
                Some((m.mv_l1[blk4], m.ref_idx_l1[q], m.is_intra))
            }
        } else {
            None
        }
    }
}

} // verus!
