//! A small deterministic pseudo-random generator (linear congruential),
//! used for per-triangle debug colors.

use vstd::prelude::*;

verus! {

/// One step of the linear congruential generator.
pub open spec fn lcg_next(s: u32) -> u32 {
    s.wrapping_mul(1103515245).wrapping_add(12345)
}

/// The value `rand_range` derives from a raw sample.
pub open spec fn in_range(raw: u32, min: u32, max: u32) -> u32
    recommends
        min <= max,
        max - min < u32::MAX,
{
    (min + raw % (max - min + 1) as u32) as u32
}

#[derive(Clone, Copy, PartialEq, Eq, Structural, Debug)]
pub struct SimpleRng {
    state: u32,
}

impl SimpleRng {
    pub fn new(seed: u32) -> (r: SimpleRng)
        ensures
            r.state_spec() == seed,
    {
        SimpleRng { state: seed }
    }

    /// The current generator state, visible to specifications.
    pub closed spec fn state_spec(&self) -> u32 {
        self.state
    }

    pub fn next_u32(&mut self) -> (r: u32)
        ensures
            final(self).state_spec() == lcg_next(old(self).state_spec()),
            r == final(self).state_spec(),
    {
        self.state = self.state.wrapping_mul(1103515245).wrapping_add(12345);
        self.state
    }

    pub fn rand_range(&mut self, min: u32, max: u32) -> (r: u32)
        requires
            min <= max,
            max - min < u32::MAX,
        ensures
            final(self).state_spec() == lcg_next(old(self).state_spec()),
            r == in_range(lcg_next(old(self).state_spec()), min, max),
            min <= r <= max,
    {
        let raw = self.next_u32();
        let span: u32 = max - min + 1;
        let m: u32 = raw % span;
        min + m
    }

    pub fn random_argb(&mut self) -> (r: u32)
        ensures
            final(self).state_spec() == lcg_next(lcg_next(lcg_next(lcg_next(old(self).state_spec())))),
            r == argb_sample(old(self).state_spec()),
    {
        let a = self.rand_range(0, 255) << 24u32;
        let r = self.rand_range(0, 255) << 16u32;
        let g = self.rand_range(0, 255) << 8u32;
        let b = self.rand_range(0, 255);
        a | r | g | b
    }
}

/// The packed color `random_argb` draws from a given starting state:
/// four byte-range samples packed as `0xAARRGGBB`.
pub open spec fn argb_sample(s: u32) -> u32 {
    let s1 = lcg_next(s);
    let s2 = lcg_next(s1);
    let s3 = lcg_next(s2);
    let s4 = lcg_next(s3);
    ((in_range(s1, 0, 255) << 24u32) | (in_range(s2, 0, 255) << 16u32) | (in_range(s3, 0, 255)
        << 8u32) | in_range(s4, 0, 255)) as u32
}

} // verus!
