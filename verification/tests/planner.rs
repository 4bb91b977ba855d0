//! Plan building against the real template and pattern engines.

use audiotool::plan::{outfile_for, outputs_for, Config, PlanBuilder, PlanError};
use audiotool::types::{BitDepth, Codec, Format, SampleRate};

fn test_config() -> Config {
    Config {
        reference_tracks_dir: "in".to_string(),
        reference_track_regex: "\\.wav$".to_string(),
        out_root_dir: "out".to_string(),
        out_path_template: "{{out_root_dir}}/{{relative_path}}/{{file_stem}}.{{format_ext}}"
            .to_string(),
        formats: vec![
            Format {
                codec: Codec::Flac,
                bit_depth: BitDepth::I24,
                sample_rate: SampleRate::K48,
            },
            Format {
                codec: Codec::Wav,
                bit_depth: BitDepth::I16,
                sample_rate: SampleRate::K192,
            },
        ],
    }
}

#[test]
fn template_config_defaults() {
    let c = Config::template();
    assert_eq!(c.reference_tracks_dir, "./in/");
    assert_eq!(c.reference_track_regex, "\\.wav");
    assert_eq!(c.out_root_dir, "./out/");
    assert_eq!(
        c.out_path_template,
        "{{out_root_dir}}/{{relative_path}}/{{file_stem}}.{{format_ext}}"
    );
    assert_eq!(c.formats.len(), 1);
    assert_eq!(c.formats[0].codec, Codec::Wav);
    assert_eq!(c.formats[0].bit_depth, BitDepth::I24);
    assert_eq!(c.formats[0].sample_rate, SampleRate::K48);
}

#[test]
fn outfile_paths_render_through_the_template() {
    let c = test_config();
    let of = outfile_for(&c, "in/a/track.wav", c.formats[0]).unwrap();
    assert_eq!(of.path, "out/a/track.flac");
    assert_eq!(of.format, c.formats[0]);
    let of = outfile_for(&c, "in/track.wav", c.formats[1]).unwrap();
    assert_eq!(of.path, "out/./track.wav");
}

#[test]
fn outfile_errors() {
    let c = test_config();
    assert_eq!(
        outfile_for(&c, "elsewhere/track.wav", c.formats[0]).unwrap_err(),
        PlanError::OutsideRoot
    );
    assert_eq!(
        outfile_for(&c, "in/", c.formats[0]).unwrap_err(),
        PlanError::NoFileStem
    );
    let mut bad = test_config();
    bad.out_path_template = "{{not_a_variable}}".to_string();
    assert_eq!(
        outfile_for(&bad, "in/track.wav", bad.formats[0]).unwrap_err(),
        PlanError::BadTemplate
    );
    let mut unparsable = test_config();
    unparsable.out_path_template = "{{".to_string();
    assert_eq!(
        outfile_for(&unparsable, "in/track.wav", unparsable.formats[0]).unwrap_err(),
        PlanError::BadTemplate
    );
}

#[test]
fn outputs_follow_the_format_list() {
    let c = test_config();
    let v = outputs_for(&c, "in/a/track.wav").unwrap();
    assert_eq!(v.len(), 2);
    assert_eq!(v[0].path, "out/a/track.flac");
    assert_eq!(v[1].path, "out/a/track.wav");
    assert_eq!(v[0].format.codec, Codec::Flac);
    assert_eq!(v[1].format.codec, Codec::Wav);
}

#[test]
fn builder_rejects_a_bad_pattern() {
    let mut c = test_config();
    c.reference_track_regex = "(".to_string();
    match PlanBuilder::new(c) {
        Err(PlanError::BadPattern) => {}
        other => panic!("expected a bad-pattern error, got {:?}", other.map(|_| ())),
    }
}

#[test]
fn builder_collects_matching_files_only() {
    let mut pb = PlanBuilder::new(test_config()).unwrap();
    pb.accept_entry("in", false).unwrap();
    pb.accept_entry("in/a", false).unwrap();
    pb.accept_entry("in/a/track.wav", true).unwrap();
    pb.accept_entry("in/a/notes.txt", true).unwrap();
    pb.accept_entry("in/b.wav", true).unwrap();
    let plan = pb.finish();
    assert_eq!(plan.outputs.len(), 2);
    assert_eq!(plan.outputs[0].infile, "in/a/track.wav");
    assert_eq!(plan.outputs[0].outfiles.len(), 2);
    assert_eq!(plan.outputs[0].outfiles[0].path, "out/a/track.flac");
    assert_eq!(plan.outputs[0].outfiles[1].path, "out/a/track.wav");
    assert_eq!(plan.outputs[1].infile, "in/b.wav");
    assert_eq!(plan.outputs[1].outfiles[0].path, "out/./b.flac");
}

#[test]
fn builder_aborts_on_a_template_failure() {
    let mut c = test_config();
    c.out_path_template = "{{missing}}".to_string();
    let mut pb = PlanBuilder::new(c).unwrap();
    pb.accept_entry("in", false).unwrap();
    assert_eq!(pb.accept_entry("in/track.wav", true), Err(PlanError::BadTemplate));
}
