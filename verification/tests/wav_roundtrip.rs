//! Identity conversion at the WAV codec boundary: a buffer written through
//! the header mapping and read back decodes byte-identically, with the same
//! declared stream shape.

use audiotool::codecs::{props_from_wav_spec, wav_spec_for};
use audiotool::types::{BitDepth, Codec, Format, Props, SampleRate};
use std::io::Cursor;

fn identity_props(bit_depth: BitDepth) -> Props {
    Props {
        channels: 2,
        format: Format {
            codec: Codec::Wav,
            bit_depth,
            sample_rate: SampleRate::K48,
        },
    }
}

fn hound_spec(props: Props) -> hound::WavSpec {
    let (channels, sample_rate, bits_per_sample, is_float) = wav_spec_for(props);
    hound::WavSpec {
        channels,
        sample_rate,
        bits_per_sample,
        sample_format: if is_float {
            hound::SampleFormat::Float
        } else {
            hound::SampleFormat::Int
        },
    }
}

fn read_props(reader: &hound::WavReader<Cursor<Vec<u8>>>) -> Props {
    let spec = reader.spec();
    let is_float = matches!(spec.sample_format, hound::SampleFormat::Float);
    props_from_wav_spec(spec.channels, spec.sample_rate, spec.bits_per_sample, is_float).unwrap()
}

#[test]
fn wav_identity_preserves_i16_samples_and_props() {
    let props = identity_props(BitDepth::I16);
    // 1024 frames of 2 channels.
    let samples: Vec<i16> = (0..2048).map(|i| (i * 31 - 1024) as i16).collect();
    let mut bytes = Cursor::new(Vec::new());
    let mut writer = hound::WavWriter::new(&mut bytes, hound_spec(props)).unwrap();
    for s in &samples {
        writer.write_sample(*s).unwrap();
    }
    writer.finalize().unwrap();

    let reader = hound::WavReader::new(Cursor::new(bytes.into_inner())).unwrap();
    assert_eq!(read_props(&reader), props);
    let mut reader = reader;
    let decoded: Vec<i16> = reader.samples::<i16>().map(|s| s.unwrap()).collect();
    assert_eq!(decoded, samples);
}

#[test]
fn wav_identity_preserves_f32_samples_and_props() {
    let props = identity_props(BitDepth::F32);
    let samples: Vec<f32> = (0..2048).map(|i| (i as f32 - 1024.0) / 1024.0).collect();
    let mut bytes = Cursor::new(Vec::new());
    let mut writer = hound::WavWriter::new(&mut bytes, hound_spec(props)).unwrap();
    for s in &samples {
        writer.write_sample(*s).unwrap();
    }
    writer.finalize().unwrap();

    let reader = hound::WavReader::new(Cursor::new(bytes.into_inner())).unwrap();
    assert_eq!(read_props(&reader), props);
    let mut reader = reader;
    let decoded: Vec<f32> = reader.samples::<f32>().map(|s| s.unwrap()).collect();
    assert_eq!(decoded.len(), samples.len());
    for (a, b) in decoded.iter().zip(samples.iter()) {
        assert_eq!(a.to_bits(), b.to_bits());
    }
}
