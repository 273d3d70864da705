//! The color and depth buffers the pipeline writes into.
//!
//! Both buffers are row-major with index `y * width + x`. The color
//! buffer holds packed `0xAARRGGBB` values; the depth buffer holds
//! fixed-point camera-space depths, cleared to `DEPTH_CLEAR` (the
//! stand-in for negative infinity: every finite depth beats it).

use vstd::prelude::*;

verus! {

/// The cleared depth value; the camera looks down negative Z, so
/// larger (less negative) depth values are nearer and every real depth
/// exceeds this.
pub const DEPTH_CLEAR: i64 = i64::MIN;

pub struct RenderTarget {
    pub width: u32,
    pub height: u32,
    pub size: usize,
    pub color_buffer: Vec<u32>,
    pub depth_buffer: Vec<i64>,
}

/// Buffer sizes agree with the stated dimensions.
pub open spec fn target_wf(t: RenderTarget) -> bool {
    t.size == t.width as int * t.height as int && t.color_buffer.len() == t.size
        && t.depth_buffer.len() == t.size
}

/// The row-major buffer index of a pixel.
pub open spec fn pixel_index(width: u32, x: int, y: int) -> int {
    y * width + x
}

/// A pixel index is within the buffer when its coordinates are within
/// the target.
pub proof fn lemma_pixel_index_bound(t: RenderTarget, x: int, y: int)
    requires
        target_wf(t),
        0 <= x < t.width,
        0 <= y < t.height,
    ensures
        0 <= pixel_index(t.width, x, y) < t.size,
        pixel_index(t.width, x, y) == y * t.width + x,
{
    assert(0 <= y * t.width + x < t.width as int * t.height as int) by (nonlinear_arith)
        requires
            0 <= x < t.width,
            0 <= y < t.height,
    ;
}

/// Distinct pixels have distinct buffer indices.
pub proof fn lemma_pixel_index_injective(width: u32, x1: int, y1: int, x2: int, y2: int)
    requires
        0 <= x1 < width,
        0 <= x2 < width,
        0 <= y1,
        0 <= y2,
        x1 != x2 || y1 != y2,
    ensures
        pixel_index(width, x1, y1) != pixel_index(width, x2, y2),
{
    assert(y1 * (width as int) + x1 != y2 * (width as int) + x2) by (nonlinear_arith)
        requires
            0 <= x1 < (width as int),
            0 <= x2 < (width as int),
            0 <= y1,
            0 <= y2,
            x1 != x2 || y1 != y2,
    ;
}

impl RenderTarget {
    /// A target of the given size with both buffers cleared.
    pub fn new(width: u32, height: u32) -> (r: RenderTarget)
        requires
            width as int * height as int <= 0x4000_0000,
        ensures
            target_wf(r),
            r.width == width,
            r.height == height,
            forall|i: int| 0 <= i < r.size ==> r.color_buffer[i] == 0u32,
            forall|i: int| 0 <= i < r.size ==> r.depth_buffer[i] == DEPTH_CLEAR,
    {
        proof {
            crate::fx::lemma_mul_bound2(width as int, height as int, 0x1_0000_0000, 0x1_0000_0000);
        }
        let size: usize = (width as usize) * (height as usize);
        let mut color_buffer: Vec<u32> = Vec::new();
        let mut depth_buffer: Vec<i64> = Vec::new();
        let mut i: usize = 0;
        while i < size
            invariant
                0 <= i <= size,
                color_buffer.len() == i,
                depth_buffer.len() == i,
                forall|j: int| 0 <= j < i ==> color_buffer[j] == 0u32,
                forall|j: int| 0 <= j < i ==> depth_buffer[j] == DEPTH_CLEAR,
            decreases size - i,
        {
            color_buffer.push(0);
            depth_buffer.push(DEPTH_CLEAR);
            i = i + 1;
        }
        RenderTarget { width, height, size, color_buffer, depth_buffer }
    }

    /// Writes one pixel of the color buffer.
    pub fn set_pixel(&mut self, x: u32, y: u32, color: u32)
        requires
            target_wf(*old(self)),
            x < old(self).width,
            y < old(self).height,
        ensures
            target_wf(*final(self)),
            final(self).width == old(self).width,
            final(self).height == old(self).height,
            final(self).size == old(self).size,
            final(self).depth_buffer == old(self).depth_buffer,
            final(self).color_buffer@ == old(self).color_buffer@.update(
                pixel_index(old(self).width, x as int, y as int),
                color,
            ),
    {
        proof {
            lemma_pixel_index_bound(*self, x as int, y as int);
        }
        let index: usize = (y as usize) * (self.width as usize) + (x as usize);
        self.color_buffer.set(index, color);
    }

    /// Reads one pixel of the color buffer.
    pub fn get_pixel(&self, x: u32, y: u32) -> (r: u32)
        requires
            target_wf(*self),
            x < self.width,
            y < self.height,
        ensures
            r == self.color_buffer[pixel_index(self.width, x as int, y as int)],
    {
        proof {
            lemma_pixel_index_bound(*self, x as int, y as int);
        }
        self.color_buffer[(y as usize) * (self.width as usize) + (x as usize)]
    }

    /// Fills the whole color buffer with one color.
    pub fn fill(&mut self, color: u32)
        requires
            target_wf(*old(self)),
        ensures
            target_wf(*final(self)),
            final(self).width == old(self).width,
            final(self).height == old(self).height,
            final(self).size == old(self).size,
            final(self).depth_buffer == old(self).depth_buffer,
            final(self).color_buffer.len() == old(self).color_buffer.len(),
            forall|i: int|
                0 <= i < final(self).color_buffer.len() ==> final(self).color_buffer[i] == color,
    {
        let n: usize = self.color_buffer.len();
        let mut i: usize = 0;
        while i < n
            invariant
                0 <= i <= n,
                self.color_buffer.len() == n,
                self.width == old(self).width,
                self.height == old(self).height,
                self.size == old(self).size,
                self.depth_buffer == old(self).depth_buffer,
                target_wf(*old(self)),
                n == old(self).color_buffer.len(),
                forall|j: int| 0 <= j < i ==> self.color_buffer[j] == color,
            decreases n - i,
        {
            self.color_buffer.set(i, color);
            i = i + 1;
        }
    }

    /// Resets every depth entry to the cleared value.
    pub fn clear_depth(&mut self)
        requires
            target_wf(*old(self)),
        ensures
            target_wf(*final(self)),
            final(self).width == old(self).width,
            final(self).height == old(self).height,
            final(self).size == old(self).size,
            final(self).color_buffer == old(self).color_buffer,
            final(self).depth_buffer.len() == old(self).depth_buffer.len(),
            forall|i: int|
                0 <= i < final(self).depth_buffer.len() ==> final(self).depth_buffer[i]
                    == DEPTH_CLEAR,
    {
        let n: usize = self.depth_buffer.len();
        let mut i: usize = 0;
        while i < n
            invariant
                0 <= i <= n,
                self.depth_buffer.len() == n,
                self.width == old(self).width,
                self.height == old(self).height,
                self.size == old(self).size,
                self.color_buffer == old(self).color_buffer,
                target_wf(*old(self)),
                n == old(self).depth_buffer.len(),
                forall|j: int| 0 <= j < i ==> self.depth_buffer[j] == DEPTH_CLEAR,
            decreases n - i,
        {
            self.depth_buffer.set(i, DEPTH_CLEAR);
            i = i + 1;
        }
    }
}

} // verus!
