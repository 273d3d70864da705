//! Nearest-neighbor rescaling of a color buffer, used when a frame is
//! presented on a surface of a different size.

use vstd::prelude::*;
use crate::render_target::{lemma_pixel_index_injective, pixel_index};

verus! {

/// Largest buffer extent the scaler accepts.
pub const BLIT_MAX: u32 = 0x8000;

/// The fixed-point (scale 65536) ratio between a source and a
/// destination extent.
pub open spec fn scale_factor(src_dim: int, dst_dim: int) -> int {
    (src_dim * 65536) / dst_dim
}

/// The source coordinate a destination coordinate samples from.
pub open spec fn src_coord(d: int, factor: int) -> int {
    (d * factor) / 65536
}

/// The sampled source coordinate stays inside the source extent.
pub proof fn lemma_src_coord_range(d: int, dst_dim: int, src_dim: int)
    requires
        0 <= d < dst_dim,
        1 <= dst_dim,
        1 <= src_dim,
    ensures
        0 <= src_coord(d, scale_factor(src_dim, dst_dim)) < src_dim,
{
    let f = scale_factor(src_dim, dst_dim);
    vstd::arithmetic::div_mod::lemma_div_pos_is_pos(src_dim * 65536, dst_dim);
    assert(src_dim * 65536 > 0) by (nonlinear_arith)
        requires
            src_dim >= 1,
    ;
    assert(f >= 0);
    assert(d * f >= 0) by (nonlinear_arith)
        requires
            d >= 0,
            f >= 0,
    ;
    vstd::arithmetic::div_mod::lemma_div_pos_is_pos(d * f, 65536);
    vstd::arithmetic::div_mod::lemma_fundamental_div_mod(src_dim * 65536, dst_dim);
    assert(dst_dim * f <= src_dim * 65536) by (nonlinear_arith)
        requires
            src_dim * 65536 == dst_dim * f + (src_dim * 65536) % dst_dim,
            (src_dim * 65536) % dst_dim >= 0,
    ;
    assert(0 <= (src_dim * 65536) % dst_dim) by (nonlinear_arith)
        requires
            dst_dim > 0,
    ;
    if f == 0 {
        assert(d * f == 0) by (nonlinear_arith)
            requires
                f == 0,
        ;
        assert(src_coord(d, f) == 0int / 65536);
        assert(0int / 65536 == 0) by (nonlinear_arith);
    } else {
        assert(d * f <= dst_dim * f - f) by (nonlinear_arith)
            requires
                d < dst_dim,
                f >= 1,
        ;
        assert(d * f <= src_dim * 65536 - 1);
        vstd::arithmetic::div_mod::lemma_div_is_ordered(d * f, src_dim * 65536 - 1, 65536);
        assert(src_dim * 65536 - 1 == 65536 * (src_dim - 1) + 65535) by (nonlinear_arith);
        vstd::arithmetic::div_mod::lemma_div_multiples_vanish_fancy(src_dim - 1, 65535, 65536);
        assert((src_dim * 65536 - 1) / 65536 == src_dim - 1);
    }
}

/// The state of the destination buffer while the copy scan is at
/// `(cx, cy)` (row-major): pixels before the scan position carry the
/// sampled source texel (or stay untouched when the sampled row is
/// outside the source); the rest still carry the snapshot.
pub open spec fn blit_scan(
    src: Seq<u32>,
    d0: Seq<u32>,
    dst_width: u32,
    src_width: int,
    src_height: int,
    xf: int,
    yf: int,
    px: int,
    py: int,
    cx: int,
    cy: int,
) -> u32 {
    let idx = pixel_index(dst_width, px, py);
    if (py < cy || (py == cy && px < cx)) && src_coord(py, yf) < src_height {
        src[src_coord(py, yf) * src_width + src_coord(px, xf)]
    } else {
        d0[idx]
    }
}

/// Scales `src_buf` into `dst_buf` with nearest-neighbor sampling.
/// Empty buffers leave the destination untouched; equal sizes copy
/// one-to-one; otherwise every destination pixel samples the source
/// at the fixed-point ratio of the extents.
pub fn scale_buffer(
    dst_buf: &mut Vec<u32>,
    dst_width: u32,
    dst_height: u32,
    src_buf: &Vec<u32>,
    src_width: u32,
    src_height: u32,
)
    requires
        old(dst_buf).len() == dst_width as int * dst_height as int,
        src_buf.len() == src_width as int * src_height as int,
        dst_width <= BLIT_MAX,
        dst_height <= BLIT_MAX,
        src_width <= BLIT_MAX,
        src_height <= BLIT_MAX,
    ensures
        final(dst_buf).len() == old(dst_buf).len(),
        src_buf.len() == 0 || old(dst_buf).len() == 0 ==> final(dst_buf)@ == old(dst_buf)@,
        src_buf.len() != 0 && old(dst_buf).len() != 0 && dst_width == src_width && dst_height
            == src_height ==> final(dst_buf)@ == src_buf@,
        src_buf.len() != 0 && old(dst_buf).len() != 0 && !(dst_width == src_width && dst_height
            == src_height) ==> forall|px: int, py: int|
            0 <= px < dst_width && 0 <= py < dst_height ==> final(dst_buf)@[pixel_index(
                dst_width,
                px,
                py,
            )] == blit_scan(
                src_buf@,
                old(dst_buf)@,
                dst_width,
                src_width as int,
                src_height as int,
                scale_factor(src_width as int, dst_width as int),
                scale_factor(src_height as int, dst_height as int),
                px,
                py,
                0,
                dst_height as int,
            ),
{
    if src_buf.len() == 0 || dst_buf.len() == 0 {
        return ;
    }
    proof {
        assert(dst_width >= 1 && dst_height >= 1) by (nonlinear_arith)
            requires
                dst_width as int * dst_height as int > 0,
        ;
        assert(src_width >= 1 && src_height >= 1) by (nonlinear_arith)
            requires
                src_width as int * src_height as int > 0,
        ;
    }
    if dst_width == src_width && dst_height == src_height {
        let n: usize = src_buf.len();
        let mut i: usize = 0;
        while i < n
            invariant
                n == src_buf.len(),
                dst_buf.len() == n,
                0 <= i <= n,
                forall|j: int| 0 <= j < i ==> dst_buf@[j] == src_buf@[j],
                forall|j: int| i <= j < n ==> dst_buf@[j] == old(dst_buf)@[j],
            decreases n - i,
        {
            dst_buf.set(i, src_buf[i]);
            i = i + 1;
        }
        proof {
            assert(dst_buf@ =~= src_buf@);
        }
        return ;
    }
    let x_scale: u64 = (src_width as u64 * 65536) / (dst_width as u64);
    let y_scale: u64 = (src_height as u64 * 65536) / (dst_height as u64);
    let ghost xf = scale_factor(src_width as int, dst_width as int);
    let ghost yf = scale_factor(src_height as int, dst_height as int);
    proof {
        assert(x_scale == xf && y_scale == yf);
    }
    let ghost d0 = dst_buf@;
    let mut dy: u32 = 0;
    while dy < dst_height
        invariant
            0 <= dy <= dst_height,
            1 <= dst_width <= BLIT_MAX,
            1 <= dst_height <= BLIT_MAX,
            1 <= src_width <= BLIT_MAX,
            1 <= src_height <= BLIT_MAX,
            dst_buf.len() == dst_width as int * dst_height as int,
            src_buf.len() == src_width as int * src_height as int,
            d0 == old(dst_buf)@,
            d0.len() == dst_buf.len(),
            xf == scale_factor(src_width as int, dst_width as int),
            yf == scale_factor(src_height as int, dst_height as int),
            x_scale == xf,
            y_scale == yf,
            forall|px: int, py: int|
                0 <= px < dst_width && 0 <= py < dst_height ==> #[trigger] dst_buf@[pixel_index(
                    dst_width,
                    px,
                    py,
                )] == blit_scan(
                    src_buf@,
                    d0,
                    dst_width,
                    src_width as int,
                    src_height as int,
                    xf,
                    yf,
                    px,
                    py,
                    0,
                    dy as int,
                ),
        decreases dst_height - dy,
    {
        proof {
            lemma_src_coord_range(dy as int, dst_height as int, src_height as int);
            vstd::arithmetic::div_mod::lemma_div_nonincreasing(
                src_height as int * 65536,
                dst_height as int,
            );
            crate::fx::lemma_mul_bound2(src_height as int, 65536, BLIT_MAX as int, 65536);
            vstd::arithmetic::div_mod::lemma_div_pos_is_pos(
                src_height as int * 65536,
                dst_height as int,
            );
            crate::fx::lemma_mul_bound2(dy as int, yf, BLIT_MAX as int, (BLIT_MAX as int) * 65536);
            vstd::arithmetic::div_mod::lemma_div_pos_is_pos(dy as int * yf, 65536);
        }
        let src_y: u32 = ((dy as u64 * y_scale) / 65536) as u32;
        if src_y < src_height {
            proof {
                crate::fx::lemma_mul_bound2(src_y as int, src_width as int, BLIT_MAX as int, BLIT_MAX as int);
            }
            let src_row_start: usize = (src_y as usize) * (src_width as usize);
            let mut dx: u32 = 0;
            while dx < dst_width
                invariant
                    0 <= dx <= dst_width,
                    0 <= dy < dst_height,
                    1 <= dst_width <= BLIT_MAX,
                    1 <= dst_height <= BLIT_MAX,
                    1 <= src_width <= BLIT_MAX,
                    1 <= src_height <= BLIT_MAX,
                    dst_buf.len() == dst_width as int * dst_height as int,
                    src_buf.len() == src_width as int * src_height as int,
                    d0 == old(dst_buf)@,
                    d0.len() == dst_buf.len(),
                    xf == scale_factor(src_width as int, dst_width as int),
                    yf == scale_factor(src_height as int, dst_height as int),
                    x_scale == xf,
                    y_scale == yf,
                    src_y as int == src_coord(dy as int, yf),
                    src_y < src_height,
                    src_row_start == src_y as int * src_width as int,
                    forall|px: int, py: int|
                        0 <= px < dst_width && 0 <= py < dst_height ==> #[trigger] dst_buf@[pixel_index(
                            dst_width,
                            px,
                            py,
                        )] == blit_scan(
                            src_buf@,
                            d0,
                            dst_width,
                            src_width as int,
                            src_height as int,
                            xf,
                            yf,
                            px,
                            py,
                            dx as int,
                            dy as int,
                        ),
                decreases dst_width - dx,
            {
                proof {
                    lemma_src_coord_range(dx as int, dst_width as int, src_width as int);
                    vstd::arithmetic::div_mod::lemma_div_nonincreasing(
                        src_width as int * 65536,
                        dst_width as int,
                    );
                    crate::fx::lemma_mul_bound2(src_width as int, 65536, BLIT_MAX as int, 65536);
                    vstd::arithmetic::div_mod::lemma_div_pos_is_pos(
                        src_width as int * 65536,
                        dst_width as int,
                    );
                    crate::fx::lemma_mul_bound2(
                        dx as int,
                        xf,
                        BLIT_MAX as int,
                        (BLIT_MAX as int) * 65536,
                    );
                    vstd::arithmetic::div_mod::lemma_div_pos_is_pos(dx as int * xf, 65536);
                    assert(0 <= src_y as int * src_width as int + src_coord(dx as int, xf)
                        && src_y as int * src_width as int + src_coord(dx as int, xf)
                        < src_width as int * src_height as int) by (nonlinear_arith)
                        requires
                            0 <= src_coord(dx as int, xf) < (src_width as int),
                            0 <= (src_y as int) < (src_height as int),
                    ;
                }
                let src_x: u32 = ((dx as u64 * x_scale) / 65536) as u32;
                let src_index: usize = src_row_start + (src_x as usize);
                let ghost dw = dst_width;
                proof {
                    assert(0 <= (dy as int) * (dw as int) + (dx as int) && (dy as int) * (
                    dw as int) + (dx as int) < (dw as int) * (dst_height as int))
                        by (nonlinear_arith)
                        requires
                            0 <= (dx as int) < (dw as int),
                            0 <= (dy as int) < (dst_height as int),
                    ;
                }
                let dst_index: usize = (dy as usize) * (dst_width as usize) + (dx as usize);
                dst_buf.set(dst_index, src_buf[src_index]);
                proof {
                    assert forall|px: int, py: int|
                        0 <= px < dst_width && 0 <= py < dst_height implies #[trigger] dst_buf@[pixel_index(
                        dst_width,
                        px,
                        py,
                    )] == blit_scan(
                        src_buf@,
                        d0,
                        dst_width,
                        src_width as int,
                        src_height as int,
                        xf,
                        yf,
                        px,
                        py,
                        dx as int + 1,
                        dy as int,
                    ) by {
                        if px == dx as int && py == dy as int {
                        } else {
                            lemma_pixel_index_injective(dst_width, px, py, dx as int, dy as int);
                            assert(0 <= py * (dst_width as int) + px < (dst_width as int) * (
                            dst_height as int)) by (nonlinear_arith)
                                requires
                                    0 <= px < (dst_width as int),
                                    0 <= py < (dst_height as int),
                            ;
                        }
                    }
                }
                dx = dx + 1;
            }
            proof {
                assert forall|px: int, py: int|
                    0 <= px < dst_width && 0 <= py < dst_height implies #[trigger] dst_buf@[pixel_index(
                    dst_width,
                    px,
                    py,
                )] == blit_scan(
                    src_buf@,
                    d0,
                    dst_width,
                    src_width as int,
                    src_height as int,
                    xf,
                    yf,
                    px,
                    py,
                    0,
                    dy as int + 1,
                ) by {
                    assert(dst_buf@[pixel_index(dst_width, px, py)] == blit_scan(
                        src_buf@,
                        d0,
                        dst_width,
                        src_width as int,
                        src_height as int,
                        xf,
                        yf,
                        px,
                        py,
                        dst_width as int,
                        dy as int,
                    ));
                }
            }
        } else {
            proof {
                assert forall|px: int, py: int|
                    0 <= px < dst_width && 0 <= py < dst_height implies #[trigger] dst_buf@[pixel_index(
                    dst_width,
                    px,
                    py,
                )] == blit_scan(
                    src_buf@,
                    d0,
                    dst_width,
                    src_width as int,
                    src_height as int,
                    xf,
                    yf,
                    px,
                    py,
                    0,
                    dy as int + 1,
                ) by {
                    assert(dst_buf@[pixel_index(dst_width, px, py)] == blit_scan(
                        src_buf@,
                        d0,
                        dst_width,
                        src_width as int,
                        src_height as int,
                        xf,
                        yf,
                        px,
                        py,
                        0,
                        dy as int,
                    ));
                }
            }
        }
        dy = dy + 1;
    }
}

} // verus!
