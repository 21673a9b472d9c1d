//! The deterministic random source: a PCG-32 stream with an exact
//! functional contract for every draw.

use vstd::prelude::*;

verus! {

/// The default PCG multiplier for 64-bit LCG state.
pub const PCG_MULTIPLIER: u64 = 6364136223846793005;

/// One LCG step: the next 64-bit state from the current one.
#[verifier::opaque]
pub open spec fn pcg_advance(state: u64, increment: u64) -> u64 {
    state.wrapping_mul(PCG_MULTIPLIER).wrapping_add(increment)
}

/// A right rotation of a 32-bit word by `rot % 32` bits.
#[verifier::opaque]
pub open spec fn pcg_rotr(x: u32, rot: u32) -> u32 {
    let s = rot % 32;
    if s == 0 {
        x
    } else {
        (x >> s) | (x << ((32 - s) as u32))
    }
}

/// The XSH-RR output permutation: xorshift the high bits down, then
/// rotate by the topmost five bits of the state.
#[verifier::opaque]
pub open spec fn pcg_output(state: u64) -> u32 {
    let rot = (state >> 59) as u32;
    let xsh = (((state >> 18) ^ state) >> 27) as u32;
    pcg_rotr(xsh, rot)
}

/// The stream selector is forced odd by discarding its top bit.
#[verifier::opaque]
pub open spec fn pcg_increment_of(stream: u64) -> u64 {
    (stream << 1) | 1u64
}

/// The state a freshly seeded generator starts in: the seed is moved away
/// from its initial value by one add and one LCG step.
#[verifier::opaque]
pub open spec fn pcg_seed_state(state: u64, stream: u64) -> u64 {
    pcg_advance(state.wrapping_add(pcg_increment_of(stream)), pcg_increment_of(stream))
}

/// The deterministic random source of the generator: a PCG-32
/// (XSH RR 64/32) stream. Every draw is an exact function of the state
/// pair, so a fixed seed reproduces the same sequence on every run.
pub struct Pcg32 {
    pub state: u64,
    pub increment: u64,
}

impl Pcg32 {
    /// Seeds the stream from a 64-bit state and a 64-bit stream selector.
    pub fn new(state: u64, stream: u64) -> (r: Pcg32)
        ensures
            r.increment == pcg_increment_of(stream),
            r.state == pcg_seed_state(state, stream),
    {
        proof {
            reveal(pcg_increment_of);
            reveal(pcg_seed_state);
            reveal(pcg_advance);
        }
        let increment: u64 = (stream << 1) | 1u64;
        let moved: u64 = state.wrapping_add(increment);
        let stepped: u64 = moved.wrapping_mul(PCG_MULTIPLIER).wrapping_add(increment);
        Pcg32 { state: stepped, increment }
    }

    /// The next raw 32-bit draw; advances the state by one LCG step.
    pub fn next_u32(&mut self) -> (r: u32)
        ensures
            final(self).increment == old(self).increment,
            final(self).state == pcg_advance(old(self).state, old(self).increment),
            r == pcg_output(old(self).state),
    {
        proof {
            reveal(pcg_advance);
            reveal(pcg_output);
            reveal(pcg_rotr);
        }
        let state = self.state;
        self.state = state.wrapping_mul(PCG_MULTIPLIER).wrapping_add(self.increment);
        let rot: u32 = #[verifier::truncate] ((state >> 59) as u32);
        let xsh: u32 = #[verifier::truncate] ((((state >> 18) ^ state) >> 27) as u32);
        let s: u32 = rot % 32;
        if s == 0 {
            xsh
        } else {
            (xsh >> s) | (xsh << (32 - s))
        }
    }

    /// A draw in `[min, max)`, or `None` when the range is degenerate
    /// (`max <= min`). The value is taken as a plain modulo of one raw
    /// draw over the range width; this is deterministic but not a
    /// perfectly uniform mapping when the width does not divide 2^32.
    pub fn next_bounded(&mut self, min: u32, max: u32) -> (r: Option<u32>)
        ensures
            final(self).increment == old(self).increment,
            r is None <==> max <= min,
            max <= min ==> *final(self) == *old(self),
            min < max ==> final(self).state == pcg_advance(old(self).state, old(self).increment),
            min < max ==> r == (Some((min + pcg_output(old(self).state) % (max - min) as u32)
                as u32)),
            r matches Some(v) ==> min <= v < max,
    {
        if max <= min {
            return None;
        }
        let draw = self.next_u32();
        Some(min + draw % (max - min))
    }

    /// A uniformly intended index into a sequence of the given length, or
    /// `None` for an empty sequence. This is the generator's choice
    /// operation; callers must present candidates in a deterministic
    /// order for reproducibility.
    pub fn pick_index(&mut self, len: usize) -> (r: Option<usize>)
        ensures
            final(self).increment == old(self).increment,
            r is None <==> len == 0,
            len == 0 ==> *final(self) == *old(self),
            len > 0 ==> final(self).state == pcg_advance(old(self).state, old(self).increment),
            len > 0 ==> r == (Some((pcg_output(old(self).state) as u64 % len as u64) as usize)),
            r matches Some(i) ==> i < len,
    {
        if len == 0 {
            return None;
        }
        let draw = self.next_u32();
        let i = (draw as u64 % len as u64) as usize;
        Some(i)
    }
}

} // verus!
