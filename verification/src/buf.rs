//! The sample buffer: the single currency passed between pipeline stages.

use vstd::prelude::*;
use vstd::pervasive::unreached;
use crate::types::BitDepth;

verus! {

/// A chunk of interleaved PCM samples in exactly one representation.
///
/// 32-bit float samples are carried as their raw IEEE-754 bit patterns, so
/// the buffer itself involves no floating-point arithmetic; the stages that
/// do numeric work on them interpret the bits.  24-bit samples are widened
/// into 32-bit integers.
#[derive(Debug)]
pub enum Buf {
    /// No representation has been chosen yet.
    Uninit,
    /// 32-bit float samples, as raw bit patterns.
    F32(Vec<u32>),
    /// 24-bit integer samples.
    I24(Vec<i32>),
    /// 16-bit integer samples.
    I16(Vec<i16>),
}

impl Buf {
    /// Number of samples currently held; an uninitialized buffer holds none.
    pub open spec fn spec_len(self) -> nat {
        match self {
            Buf::Uninit => 0,
            Buf::F32(v) => v@.len(),
            Buf::I24(v) => v@.len(),
            Buf::I16(v) => v@.len(),
        }
    }

    /// The bit depth of the representation currently held, if any.
    pub open spec fn spec_bit_depth(self) -> Option<BitDepth> {
        match self {
            Buf::Uninit => None,
            Buf::F32(v) => Some(BitDepth::F32),
            Buf::I24(v) => Some(BitDepth::I24),
            Buf::I16(v) => Some(BitDepth::I16),
        }
    }

    /// Whether the buffer holds no samples.
    pub fn is_empty(&self) -> (r: bool)
        ensures
            r == (self.spec_len() == 0),
    {
        match self {
            Buf::Uninit => true,
            Buf::F32(v) => v.len() == 0,
            Buf::I24(v) => v.len() == 0,
            Buf::I16(v) => v.len() == 0,
        }
    }

    /// Number of samples held.  The buffer must have materialized some
    /// representation before its length can be asked for.
    pub fn len(&self) -> (r: usize)
        requires
            !(*self is Uninit),
        ensures
            r == self.spec_len(),
    {
        match self {
            Buf::Uninit => unreached(),
            Buf::F32(v) => v.len(),
            Buf::I24(v) => v.len(),
            Buf::I16(v) => v.len(),
        }
    }

    /// The bit depth of the representation currently held, if any.
    pub fn bit_depth(&self) -> (r: Option<BitDepth>)
        ensures
            r == self.spec_bit_depth(),
    {
        match self {
            Buf::Uninit => None,
            Buf::F32(v) => Some(BitDepth::F32),
            Buf::I24(v) => Some(BitDepth::I24),
            Buf::I16(v) => Some(BitDepth::I16),
        }
    }

    /// The float-bits storage, for a producer to refill.  A buffer already in
    /// the float representation keeps its samples (and its allocation); any
    /// other representation is replaced by an empty float buffer.
    pub fn f32_mut(&mut self) -> (r: &mut Vec<u32>)
        ensures
            *final(self) == Buf::F32(*final(r)),
            *old(self) matches Buf::F32(v) ==> *r == v,
            !(*old(self) is F32) ==> r@ == Seq::<u32>::empty(),
    {
        match self {
            Buf::F32(v) => return v,
            _ => {}
        }
        *self = Buf::F32(Vec::new());
        match self {
            Buf::F32(v) => v,
            _ => unreached(),
        }
    }

    /// The 24-bit storage, for a producer to refill; as [`Buf::f32_mut`].
    pub fn i24_mut(&mut self) -> (r: &mut Vec<i32>)
        ensures
            *final(self) == Buf::I24(*final(r)),
            *old(self) matches Buf::I24(v) ==> *r == v,
            !(*old(self) is I24) ==> r@ == Seq::<i32>::empty(),
    {
        match self {
            Buf::I24(v) => return v,
            _ => {}
        }
        *self = Buf::I24(Vec::new());
        match self {
            Buf::I24(v) => v,
            _ => unreached(),
        }
    }

    /// The 16-bit storage, for a producer to refill; as [`Buf::f32_mut`].
    pub fn i16_mut(&mut self) -> (r: &mut Vec<i16>)
        ensures
            *final(self) == Buf::I16(*final(r)),
            *old(self) matches Buf::I16(v) ==> *r == v,
            !(*old(self) is I16) ==> r@ == Seq::<i16>::empty(),
    {
        match self {
            Buf::I16(v) => return v,
            _ => {}
        }
        *self = Buf::I16(Vec::new());
        match self {
            Buf::I16(v) => v,
            _ => unreached(),
        }
    }
}

} // verus!
