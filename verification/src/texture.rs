//! Textures and nearest-neighbor sampling.

use vstd::prelude::*;
use crate::fx::ONE;

verus! {

#[derive(Debug)]
pub struct Texture {
    pub data: Vec<u32>,
    pub width: u32,
    pub height: u32,
}

/// The texel array matches the stated dimensions, and both are
/// positive so that sampling is defined.
pub open spec fn texture_wf(t: Texture) -> bool {
    t.data.len() == t.width as int * t.height as int && t.width >= 1 && t.height >= 1
}

/// A texture coordinate clamped to the unit interval, in fixed point.
pub open spec fn clamp01(u: int) -> int {
    if u < 0 {
        0
    } else if u > ONE as int {
        ONE as int
    } else {
        u
    }
}

/// The texel index along one axis: the clamped coordinate scaled to
/// `extent - 1` and rounded to the nearest texel, clamped to the row.
pub open spec fn texel_coord(u: int, extent: int) -> int {
    let scaled = (clamp01(u) * (extent - 1) + (ONE as int) / 2) / (ONE as int);
    if scaled > extent - 1 {
        extent - 1
    } else {
        scaled
    }
}

/// The packed color `sample` returns.
pub open spec fn sample_spec(t: Texture, u: int, v: int) -> u32 {
    t.data[texel_coord(v, t.height as int) * t.width + texel_coord(u, t.width as int)]
}

/// The texel coordinate lies within the row.
pub proof fn lemma_texel_coord_range(u: int, extent: int)
    requires
        extent >= 1,
    ensures
        0 <= texel_coord(u, extent) < extent,
{
    let c = clamp01(u);
    let s = c * (extent - 1) + (ONE as int) / 2;
    assert(s >= 0) by (nonlinear_arith)
        requires
            c >= 0,
            extent >= 1,
            s == c * (extent - 1) + (ONE as int) / 2,
    ;
    vstd::arithmetic::div_mod::lemma_div_pos_is_pos(s, ONE as int);
}

impl Texture {
    /// Wraps a row-major packed-color array with its dimensions.
    pub fn new(data: Vec<u32>, width: u32, height: u32) -> (r: Texture)
        requires
            data.len() == width as int * height as int,
        ensures
            r.data == data,
            r.width == width,
            r.height == height,
    {
        Texture { data, width, height }
    }

    /// Samples the nearest texel to the fixed-point coordinates
    /// `(u, v)`, each clamped to the unit interval.
    pub fn sample(&self, u: i64, v: i64) -> (r: u32)
        requires
            texture_wf(*self),
        ensures
            r == sample_spec(*self, u as int, v as int),
    {
        let uc: i64 = if u < 0 {
            0
        } else if u > ONE {
            ONE
        } else {
            u
        };
        let vc: i64 = if v < 0 {
            0
        } else if v > ONE {
            ONE
        } else {
            v
        };
        proof {
            lemma_texel_coord_range(u as int, self.width as int);
            lemma_texel_coord_range(v as int, self.height as int);
            crate::fx::lemma_mul_bound2(uc as int, self.width as int - 1, ONE as int, 0x1_0000_0000);
            crate::fx::lemma_mul_bound2(
                vc as int,
                self.height as int - 1,
                ONE as int,
                0x1_0000_0000,
            );
        }
        let sx: i64 = crate::fx::div_floor_i64(uc * (self.width as i64 - 1) + ONE / 2, ONE);
        let sy: i64 = crate::fx::div_floor_i64(vc * (self.height as i64 - 1) + ONE / 2, ONE);
        let x: u32 = if sx > self.width as i64 - 1 {
            self.width - 1
        } else {
            sx as u32
        };
        let y: u32 = if sy > self.height as i64 - 1 {
            self.height - 1
        } else {
            sy as u32
        };
        proof {
            assert(x as int == texel_coord(u as int, self.width as int));
            assert(y as int == texel_coord(v as int, self.height as int));
            assert(0 <= (y as int) * (self.width as int) + (x as int) && (y as int) * (
            self.width as int) + (x as int) < (self.width as int) * (self.height as int))
                by (nonlinear_arith)
                requires
                    0 <= (x as int) < (self.width as int),
                    0 <= (y as int) < (self.height as int),
            ;
        }
        self.data[(y as usize) * (self.width as usize) + (x as usize)]
    }
}

} // verus!
