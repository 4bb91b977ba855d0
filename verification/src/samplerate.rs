//! Integration arithmetic for the sample-rate conversion stage.
//!
//! The sinc resampler itself is an external primitive; what is decided here
//! is the decisions around it: when a conversion is a pure pass-through, and
//! how large an output buffer must be sized so the primitive can always
//! consume its whole input in one call.

use vstd::prelude::*;
use vstd::arithmetic::div_mod::{
    lemma_div_nonincreasing,
    lemma_fundamental_div_mod, lemma_fundamental_div_mod_converse, lemma_mod_bound,
};
use crate::types::SampleRate;

verus! {

/// Whether converting between these rates is the identity (ratio exactly 1),
/// so the stage passes buffers through untouched.
pub fn resample_is_passthrough(inrate: SampleRate, outrate: SampleRate) -> (r: bool)
    ensures
        r == (inrate == outrate),
{
    inrate.as_u32() == outrate.as_u32()
}

/// Frame capacity an output buffer needs for converting `frames` input
/// frames: the rounded-up product with the rate ratio,
/// `ceil(frames * outrate / inrate)`.
pub open spec fn spec_out_frames_cap(frames: nat, inrate: SampleRate, outrate: SampleRate) -> int {
    (frames * outrate.spec_u32() + inrate.spec_u32() - 1) / (inrate.spec_u32() as int)
}

/// Conservative sample capacity for the output of one conversion call:
/// `ceil(frames * ratio)` frames of `channels` samples each.  Returns `None`
/// only when that capacity does not fit in `usize`.
pub fn resample_capacity(samples: usize, channels: u16, inrate: SampleRate, outrate: SampleRate)
    -> (r: Option<usize>)
    requires
        channels > 0,
        samples as int % channels as int == 0,
    ensures
        r matches Some(c) ==> c as int == spec_out_frames_cap(
            (samples as int / channels as int) as nat,
            inrate,
            outrate,
        ) * channels as int,
        r is None <==> spec_out_frames_cap((samples as int / channels as int) as nat, inrate, outrate)
            * channels as int > usize::MAX as int,
{
    let frames: u128 = (samples as u128) / (channels as u128);
    let inr: u128 = inrate.as_u32() as u128;
    let outr: u128 = outrate.as_u32() as u128;
    proof {
        lemma_div_nonincreasing(samples as int, channels as int);
        // frames <= samples, so every intermediate product stays far below
        // the u128 range.
        assert(frames as int * outr as int <= 0xffff_ffff_ffff_ffff * 192000) by (nonlinear_arith)
            requires
                0 <= frames as int <= 0xffff_ffff_ffff_ffff,
                0 <= outr as int <= 192000,
        ;
    }
    let cap_frames: u128 = (frames * outr + inr - 1) / inr;
    proof {
        lemma_div_nonincreasing((frames * outr + inr - 1) as int, inr as int);
        assert(0 <= cap_frames as int <= 0xffff_ffff_ffff_ffff * 192000 + 192000);
        assert(cap_frames as int * (channels as u128) as int <= (0xffff_ffff_ffff_ffff * 192000
            + 192000) * 0xffff) by (nonlinear_arith)
            requires
                0 <= cap_frames as int <= 0xffff_ffff_ffff_ffff * 192000 + 192000,
                0 <= (channels as u128) as int <= 0xffff,
        ;
    }
    let cap: u128 = cap_frames * (channels as u128);
    if cap <= usize::MAX as u128 {
        Some(cap as usize)
    } else {
        None
    }
}

/// Law: the output frame capacity moves with the target rate — converting to
/// a higher rate strictly grows the frame count, to a lower rate strictly
/// shrinks it (for at least two input frames; a single frame still rounds up
/// to one), and to the same rate preserves it exactly.
pub proof fn lemma_capacity_monotone(frames: nat, inrate: SampleRate, outrate: SampleRate)
    ensures
        inrate == outrate ==> spec_out_frames_cap(frames, inrate, outrate) == frames,
        outrate.spec_u32() > inrate.spec_u32() && frames >= 1 ==> spec_out_frames_cap(
            frames,
            inrate,
            outrate,
        ) > frames,
        outrate.spec_u32() < inrate.spec_u32() && frames >= 2 ==> spec_out_frames_cap(
            frames,
            inrate,
            outrate,
        ) < frames,
{
    let f = frames as int;
    if inrate == outrate {
        let r = inrate.spec_u32() as int;
        lemma_fundamental_div_mod_converse(f * r + r - 1, r, f, r - 1);
    } else if outrate.spec_u32() > inrate.spec_u32() {
        // 48 kHz up to 192 kHz: exactly four output frames per input frame.
        lemma_fundamental_div_mod_converse(f * 192000 + 48000 - 1, 48000, 4 * f, 47999);
    } else if frames >= 2 {
        // 192 kHz down to 48 kHz: one output frame per four input frames,
        // rounded up.
        lemma_fundamental_div_mod(f, 4);
        lemma_mod_bound(f, 4);
        let k = f / 4;
        let s = f % 4;
        if s == 0 {
            lemma_fundamental_div_mod_converse(f * 48000 + 192000 - 1, 192000, k, 191999);
        } else {
            lemma_fundamental_div_mod_converse(
                f * 48000 + 192000 - 1,
                192000,
                k + 1,
                48000 * s - 1,
            );
        }
    }
}

} // verus!
