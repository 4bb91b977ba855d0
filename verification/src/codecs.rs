//! Codec selection and the WAV header mapping.
//!
//! The container codecs themselves are external collaborators; what is
//! decided here is which codec a path's extension selects, and how a PCM
//! stream's shape translates to and from a WAV header.

use vstd::prelude::*;
use crate::pathutil::str_eq;
use crate::types::{BitDepth, Codec, Format, Props, SampleRate};

verus! {

/// Why no codec could be selected for an input path.
#[derive(Debug, PartialEq, Eq)]
pub enum CodecSelectError {
    /// The path's extension matches no known codec.
    UnknownExtension(String),
    /// The path has no extension to go by.
    NoExtension,
}

/// Selects the codec that reads files with the given extension, or says why
/// none does.
pub fn codec_for_extension(ext: Option<&str>) -> (r: Result<Codec, CodecSelectError>)
    ensures
        (match ext {
            Some(e) => if e@ == Codec::Wav.spec_ext() {
                r == Ok::<Codec, CodecSelectError>(Codec::Wav)
            } else if e@ == Codec::Flac.spec_ext() {
                r == Ok::<Codec, CodecSelectError>(Codec::Flac)
            } else if e@ == Codec::Vorbis.spec_ext() {
                r == Ok::<Codec, CodecSelectError>(Codec::Vorbis)
            } else {
                match r {
                    Err(CodecSelectError::UnknownExtension(x)) => x@ == e@,
                    _ => false,
                }
            },
            None => r == Err::<Codec, CodecSelectError>(CodecSelectError::NoExtension),
        }),
{
    proof {
        reveal_strlit("wav");
        reveal_strlit("flac");
        reveal_strlit("ogg");
        assert("wav"@ =~= Codec::Wav.spec_ext());
        assert("flac"@ =~= Codec::Flac.spec_ext());
        assert("ogg"@ =~= Codec::Vorbis.spec_ext());
    }
    match ext {
        None => Err(CodecSelectError::NoExtension),
        Some(e) => {
            if str_eq(e, "wav") {
                Ok(Codec::Wav)
            } else if str_eq(e, "flac") {
                Ok(Codec::Flac)
            } else if str_eq(e, "ogg") {
                Ok(Codec::Vorbis)
            } else {
                Err(CodecSelectError::UnknownExtension(String::from_str(e)))
            }
        },
    }
}

/// Why a WAV header does not describe a supported PCM stream.
#[derive(Clone, Copy, Debug, PartialEq, Eq, Structural)]
pub enum WavSpecError {
    /// Bits per sample and sample kind outside the supported set.
    UnsupportedSampleFormat(u16, bool),
    /// A sample rate outside the supported set.
    UnsupportedSampleRate(u32),
}

/// The bit depth a WAV header with this width and sample kind describes.
pub open spec fn spec_wav_depth(bits: u16, is_float: bool) -> Option<BitDepth> {
    if bits == 32 && is_float {
        Some(BitDepth::F32)
    } else if bits == 24 && !is_float {
        Some(BitDepth::I24)
    } else if bits == 16 && !is_float {
        Some(BitDepth::I16)
    } else {
        None
    }
}

/// The supported sample rate a WAV header with this rate describes.
pub open spec fn spec_wav_rate(rate: u32) -> Option<SampleRate> {
    if rate == 48000 {
        Some(SampleRate::K48)
    } else if rate == 192000 {
        Some(SampleRate::K192)
    } else {
        None
    }
}

/// The stream shape a WAV header describes, or why it is unsupported: an
/// unsupported sample format is reported before an unsupported rate.
pub open spec fn spec_props_from_wav(
    channels: u16,
    sample_rate: u32,
    bits: u16,
    is_float: bool,
) -> Result<Props, WavSpecError> {
    match spec_wav_depth(bits, is_float) {
        Some(bd) => match spec_wav_rate(sample_rate) {
            Some(sr) => Ok(
                Props {
                    channels,
                    format: Format { codec: Codec::Wav, bit_depth: bd, sample_rate: sr },
                },
            ),
            None => Err(WavSpecError::UnsupportedSampleRate(sample_rate)),
        },
        None => Err(WavSpecError::UnsupportedSampleFormat(bits, is_float)),
    }
}

/// Reads a WAV header's fields into the stream shape they describe; see
/// [`spec_props_from_wav`].
pub fn props_from_wav_spec(channels: u16, sample_rate: u32, bits: u16, is_float: bool) -> (r:
    Result<Props, WavSpecError>)
    ensures
        r == spec_props_from_wav(channels, sample_rate, bits, is_float),
{
    let bd = if bits == 32 && is_float {
        Some(BitDepth::F32)
    } else if bits == 24 && !is_float {
        Some(BitDepth::I24)
    } else if bits == 16 && !is_float {
        Some(BitDepth::I16)
    } else {
        None
    };
    match bd {
        None => Err(WavSpecError::UnsupportedSampleFormat(bits, is_float)),
        Some(bd) => {
            let sr = if sample_rate == 48000 {
                Some(SampleRate::K48)
            } else if sample_rate == 192000 {
                Some(SampleRate::K192)
            } else {
                None
            };
            match sr {
                None => Err(WavSpecError::UnsupportedSampleRate(sample_rate)),
                Some(sr) => Ok(
                    Props {
                        channels,
                        format: Format { codec: Codec::Wav, bit_depth: bd, sample_rate: sr },
                    },
                ),
            }
        },
    }
}

/// The WAV header fields — channels, rate, bits per sample, float flag —
/// that describe a stream shape; the inverse of [`spec_props_from_wav`], so
/// writing a header and reading it back preserves the shape exactly.
pub fn wav_spec_for(props: Props) -> (r: (u16, u32, u16, bool))
    requires
        props.format.codec == Codec::Wav,
    ensures
        r.0 == props.channels,
        r.1 == props.format.sample_rate.spec_u32(),
        spec_wav_depth(r.2, r.3) == Some(props.format.bit_depth),
        spec_wav_rate(r.1) == Some(props.format.sample_rate),
        spec_props_from_wav(r.0, r.1, r.2, r.3) == Ok::<Props, WavSpecError>(props),
{
    let bits: u16 = match props.format.bit_depth {
        BitDepth::F32 => 32,
        BitDepth::I24 => 24,
        BitDepth::I16 => 16,
    };
    let is_float = match props.format.bit_depth {
        BitDepth::F32 => true,
        BitDepth::I24 => false,
        BitDepth::I16 => false,
    };
    (props.channels, props.format.sample_rate.as_u32(), bits, is_float)
}

/// How many samples one streaming read asks a codec reader for: a bounded
/// chunk of a few thousand frames of `channels` samples each.
pub fn read_chunk_samples(channels: u16) -> (r: usize)
    ensures
        r == 4096 * channels as usize,
{
    4096 * (channels as usize)
}

} // verus!
