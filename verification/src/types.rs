//! Core value types describing PCM streams and target encodings.

use vstd::prelude::*;

verus! {

/// Container codec of an audio file.
#[derive(Clone, Copy, Debug, PartialEq, Eq, Structural)]
pub enum Codec {
    Wav,
    Flac,
    Vorbis,
}

/// Numeric representation of one sample.
#[derive(Clone, Copy, Debug, PartialEq, Eq, Structural)]
pub enum BitDepth {
    F32,
    I24,
    I16,
}

/// Frames per second of a PCM stream.
#[derive(Clone, Copy, Debug, PartialEq, Eq, Structural)]
pub enum SampleRate {
    K192,
    K48,
}

/// A complete target encoding: codec, bit depth and sample rate.
#[derive(Clone, Copy, Debug, PartialEq, Eq, Structural)]
pub struct Format {
    pub codec: Codec,
    pub bit_depth: BitDepth,
    pub sample_rate: SampleRate,
}

/// Shape of a PCM stream: channel count plus its format.
#[derive(Clone, Copy, Debug, PartialEq, Eq, Structural)]
pub struct Props {
    pub channels: u16,
    pub format: Format,
}

impl SampleRate {
    /// The rate in frames per second.
    pub fn as_u32(&self) -> (r: u32)
        ensures
            r == self.spec_u32(),
    {
        match self {
            SampleRate::K192 => 192_000,
            SampleRate::K48 => 48_000,
        }
    }

    /// The rate in frames per second, as a spec-level value.
    pub open spec fn spec_u32(self) -> u32 {
        match self {
            SampleRate::K192 => 192_000,
            SampleRate::K48 => 48_000,
        }
    }
}

impl Codec {
    /// The filename extension used for files of this codec.
    pub fn ext(&self) -> (r: &'static str)
        ensures
            r@ == self.spec_ext(),
    {
        match self {
            Codec::Wav => {
                proof {
                    reveal_strlit("wav");
                }
                "wav"
            }
            Codec::Flac => {
                proof {
                    reveal_strlit("flac");
                }
                "flac"
            }
            Codec::Vorbis => {
                proof {
                    reveal_strlit("ogg");
                }
                "ogg"
            }
        }
    }

    /// The filename extension for this codec, as a sequence of characters.
    pub open spec fn spec_ext(self) -> Seq<char> {
        match self {
            Codec::Wav => seq!['w', 'a', 'v'],
            Codec::Flac => seq!['f', 'l', 'a', 'c'],
            Codec::Vorbis => seq!['o', 'g', 'g'],
        }
    }
}

} // verus!
