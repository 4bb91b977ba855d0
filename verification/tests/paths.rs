//! Path reasoning, codec selection, header mapping, and resampler sizing.

use audiotool::codecs::{
    codec_for_extension, props_from_wav_spec, read_chunk_samples, wav_spec_for, CodecSelectError,
    WavSpecError,
};
use audiotool::pathutil::{
    extension_of, file_stem_of, hex4, rel_dir_of, rfind_char, str_eq, str_starts_with,
    tmp_name_for,
};
use audiotool::samplerate::{resample_capacity, resample_is_passthrough};
use audiotool::types::{BitDepth, Codec, Format, Props, SampleRate};

#[test]
fn string_helpers() {
    assert!(str_eq("abc", "abc"));
    assert!(!str_eq("abc", "abd"));
    assert!(!str_eq("abc", "ab"));
    assert!(str_starts_with("abc/def", "abc"));
    assert!(!str_starts_with("ab", "abc"));
    assert_eq!(rfind_char("a/b/c", '/'), Some(3));
    assert_eq!(rfind_char("abc", '/'), None);
}

#[test]
fn extensions() {
    assert_eq!(extension_of("in/track.wav"), Some("wav"));
    assert_eq!(extension_of("in/track.tar.gz"), Some("gz"));
    assert_eq!(extension_of("in/.hidden"), None);
    assert_eq!(extension_of("in.d/track"), None);
    assert_eq!(extension_of("track."), Some(""));
}

#[test]
fn file_stems() {
    assert_eq!(file_stem_of("in/track.wav").as_deref(), Some("track"));
    assert_eq!(file_stem_of("track.tar.gz").as_deref(), Some("track.tar"));
    assert_eq!(file_stem_of(".hidden").as_deref(), Some(".hidden"));
    assert_eq!(file_stem_of("plain").as_deref(), Some("plain"));
    assert_eq!(file_stem_of("dir/"), None);
}

#[test]
fn relative_dirs() {
    assert_eq!(rel_dir_of("in", "in/a/b.wav").as_deref(), Some("a"));
    assert_eq!(rel_dir_of("in", "in/a/b/c.wav").as_deref(), Some("a/b"));
    assert_eq!(rel_dir_of("in", "in/b.wav").as_deref(), Some("."));
    assert_eq!(rel_dir_of("in/", "in/b.wav").as_deref(), Some("."));
    assert_eq!(rel_dir_of("out", "in/b.wav"), None);
    assert_eq!(rel_dir_of("in", "inx/a.wav"), None);
}

#[test]
fn hex_formatting() {
    assert_eq!(hex4(0x00AB), "00AB");
    assert_eq!(hex4(0), "0000");
    assert_eq!(hex4(0xFFFF), "FFFF");
    assert_eq!(hex4(0x1234), "1234");
}

#[test]
fn tmp_names_sit_beside_the_final_path() {
    assert_eq!(tmp_name_for("out/a.wav", 0x00AB), "out/a.wav.00AB.tmp");
    assert_eq!(tmp_name_for("a.flac", 0xFFFF), "a.flac.FFFF.tmp");
}

#[test]
fn codec_selection() {
    assert_eq!(codec_for_extension(Some("wav")), Ok(Codec::Wav));
    assert_eq!(codec_for_extension(Some("flac")), Ok(Codec::Flac));
    assert_eq!(codec_for_extension(Some("ogg")), Ok(Codec::Vorbis));
    match codec_for_extension(Some("mp3")) {
        Err(CodecSelectError::UnknownExtension(e)) => assert_eq!(e, "mp3"),
        other => panic!("expected unknown extension, got {other:?}"),
    }
    assert!(matches!(
        codec_for_extension(None),
        Err(CodecSelectError::NoExtension)
    ));
}

#[test]
fn wav_header_mapping() {
    let p = props_from_wav_spec(2, 48000, 24, false).unwrap();
    assert_eq!(
        p,
        Props {
            channels: 2,
            format: Format {
                codec: Codec::Wav,
                bit_depth: BitDepth::I24,
                sample_rate: SampleRate::K48,
            },
        }
    );
    let p = props_from_wav_spec(1, 192000, 32, true).unwrap();
    assert_eq!(p.format.bit_depth, BitDepth::F32);
    assert_eq!(p.format.sample_rate, SampleRate::K192);
    assert_eq!(
        props_from_wav_spec(2, 48000, 8, false),
        Err(WavSpecError::UnsupportedSampleFormat(8, false))
    );
    assert_eq!(
        props_from_wav_spec(2, 48000, 32, false),
        Err(WavSpecError::UnsupportedSampleFormat(32, false))
    );
    assert_eq!(
        props_from_wav_spec(2, 44100, 16, false),
        Err(WavSpecError::UnsupportedSampleRate(44100))
    );
}

#[test]
fn wav_header_roundtrip() {
    for bd in [BitDepth::F32, BitDepth::I24, BitDepth::I16] {
        for sr in [SampleRate::K48, SampleRate::K192] {
            let props = Props {
                channels: 2,
                format: Format { codec: Codec::Wav, bit_depth: bd, sample_rate: sr },
            };
            let (ch, rate, bits, float) = wav_spec_for(props);
            assert_eq!(props_from_wav_spec(ch, rate, bits, float), Ok(props));
        }
    }
}

#[test]
fn chunk_sizes() {
    assert_eq!(read_chunk_samples(2), 8192);
    assert_eq!(read_chunk_samples(1), 4096);
}

#[test]
fn resampler_passthrough() {
    assert!(resample_is_passthrough(SampleRate::K48, SampleRate::K48));
    assert!(resample_is_passthrough(SampleRate::K192, SampleRate::K192));
    assert!(!resample_is_passthrough(SampleRate::K48, SampleRate::K192));
}

#[test]
fn resampler_capacity() {
    // 1024 frames of 2 channels, 48 kHz to 192 kHz: four times the frames.
    assert_eq!(
        resample_capacity(2048, 2, SampleRate::K48, SampleRate::K192),
        Some(8192)
    );
    // Downsampling divides, rounding frames up.
    assert_eq!(
        resample_capacity(2048, 2, SampleRate::K192, SampleRate::K48),
        Some(512)
    );
    assert_eq!(
        resample_capacity(2050, 2, SampleRate::K192, SampleRate::K48),
        Some(514)
    );
    // The same rate preserves the sample count exactly.
    assert_eq!(
        resample_capacity(2048, 2, SampleRate::K48, SampleRate::K48),
        Some(2048)
    );
}

#[test]
fn sample_rate_values() {
    assert_eq!(SampleRate::K48.as_u32(), 48_000);
    assert_eq!(SampleRate::K192.as_u32(), 192_000);
    assert_eq!(Codec::Wav.ext(), "wav");
    assert_eq!(Codec::Flac.ext(), "flac");
    assert_eq!(Codec::Vorbis.ext(), "ogg");
}
