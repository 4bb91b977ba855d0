//! The per-file conversion engine: branch grouping, slot resolution,
//! failure isolation, and the cleanup pass.

use audiotool::engine::{
    branch_step, terminal_response, BranchAction, BranchPhase, ConvertError, FileRun, Response,
};
use audiotool::plan::{InfilePlan, OutFile};
use audiotool::types::{BitDepth, Codec, Format, SampleRate};

fn fmt(codec: Codec, bit_depth: BitDepth, sample_rate: SampleRate) -> Format {
    Format { codec, bit_depth, sample_rate }
}

fn test_plan() -> InfilePlan {
    InfilePlan {
        infile: "in/track.wav".to_string(),
        outfiles: vec![
            OutFile {
                path: "out/a.wav".to_string(),
                format: fmt(Codec::Wav, BitDepth::I16, SampleRate::K48),
            },
            OutFile {
                path: "out/b.flac".to_string(),
                format: fmt(Codec::Flac, BitDepth::I24, SampleRate::K48),
            },
            OutFile {
                path: "out/c.wav".to_string(),
                format: fmt(Codec::Wav, BitDepth::I16, SampleRate::K192),
            },
            OutFile {
                path: "out/d.flac".to_string(),
                format: fmt(Codec::Flac, BitDepth::I16, SampleRate::K48),
            },
        ],
    }
}

#[test]
fn grouping_dedupes_rates_and_depths() {
    let run = FileRun::new(&test_plan());
    // Two distinct target rates; under 48 kHz, two distinct depths; the two
    // 48 kHz / 16-bit outputs share one depth branch.
    assert_eq!(run.branches.len(), 2);
    assert_eq!(run.branches[0].sample_rate, SampleRate::K48);
    assert_eq!(run.branches[0].depths.len(), 2);
    assert_eq!(run.branches[0].depths[0].bit_depth, BitDepth::I16);
    assert_eq!(run.branches[0].depths[0].slots.len(), 2);
    assert_eq!(run.branches[0].depths[0].slots[0].out_path, "out/a.wav");
    assert_eq!(run.branches[0].depths[0].slots[1].out_path, "out/d.flac");
    assert_eq!(run.branches[0].depths[1].bit_depth, BitDepth::I24);
    assert_eq!(run.branches[0].depths[1].slots[0].out_path, "out/b.flac");
    assert_eq!(run.branches[1].sample_rate, SampleRate::K192);
    assert_eq!(run.branches[1].depths.len(), 1);
    assert_eq!(run.branches[1].depths[0].slots[0].out_path, "out/c.wav");
    for rb in &run.branches {
        for db in &rb.depths {
            for slot in &db.slots {
                assert!(!slot.resolved);
                assert!(slot.tmp_path.starts_with(&format!("{}.", slot.out_path)));
                assert!(slot.tmp_path.ends_with(".tmp"));
                assert_eq!(slot.tmp_path.len(), slot.out_path.len() + 9);
            }
        }
    }
}

#[test]
fn failure_is_isolated_from_siblings() {
    let mut run = FileRun::new(&test_plan());
    // The 48 kHz / 16-bit branch holds two outputs; fail the first mid-write.
    let ev = run.resolve_failure(0, 0, 0, ConvertError::Write("disk full".to_string()));
    assert_eq!(ev.in_path, "in/track.wav");
    assert_eq!(ev.out_path, "out/a.wav");
    assert!(matches!(ev.error, Some(ConvertError::Write(ref m)) if m == "disk full"));
    assert!(run.branches[0].depths[0].slots[0].resolved);
    // Its sibling in the same branch is untouched and can still succeed.
    assert!(!run.branches[0].depths[0].slots[1].resolved);
    let ev = run.resolve_success(0, 0, 1);
    assert_eq!(ev.out_path, "out/d.flac");
    assert!(ev.error.is_none());
    assert_eq!(ev.format, fmt(Codec::Flac, BitDepth::I16, SampleRate::K48));
}

#[test]
fn cleanup_after_cancellation_reports_every_open_output() {
    let mut run = FileRun::new(&test_plan());
    // One output already renamed into place before the cancellation.
    let done = run.resolve_success(1, 0, 0);
    assert_eq!(done.out_path, "out/c.wav");
    let tmp_a = run.branches[0].depths[0].slots[0].tmp_path.clone();
    let tmp_b = run.branches[0].depths[1].slots[0].tmp_path.clone();
    let tmp_d = run.branches[0].depths[0].slots[1].tmp_path.clone();
    let (events, deletions) = run.cleanup(None);
    // Exactly the three unresolved outputs get a cancellation result, and
    // exactly their temporary files are named for deletion.
    assert_eq!(events.len(), 3);
    assert_eq!(deletions.len(), 3);
    for ev in &events {
        assert_eq!(ev.in_path, "in/track.wav");
        assert!(matches!(ev.error, Some(ConvertError::Cancelled)));
        assert_ne!(ev.out_path, "out/c.wav");
    }
    let mut expected = vec![tmp_a, tmp_d, tmp_b];
    let mut got = deletions.clone();
    expected.sort();
    got.sort();
    assert_eq!(got, expected);
    // The renamed output is untouched.
    assert!(run.branches[1].depths[0].slots[0].resolved);
    // Every slot is now resolved: a second cleanup has nothing to do.
    let (events, deletions) = run.cleanup(None);
    assert!(events.is_empty());
    assert!(deletions.is_empty());
}

#[test]
fn cleanup_after_a_read_error_reports_the_read_error() {
    let mut run = FileRun::new(&test_plan());
    let (events, _deletions) = run.cleanup(Some("truncated stream".to_string()));
    assert_eq!(events.len(), 4);
    for ev in &events {
        assert!(matches!(ev.error, Some(ConvertError::Read(ref m)) if m == "truncated stream"));
    }
}

#[test]
fn each_failure_stage_reports_its_own_error() {
    let mut run = FileRun::new(&test_plan());
    let ev = run.resolve_failure(0, 0, 0, ConvertError::Finalize("short write".to_string()));
    assert!(matches!(ev.error, Some(ConvertError::Finalize(ref m)) if m == "short write"));
    let ev = run.resolve_failure(0, 0, 1, ConvertError::Rename("cross-device link".to_string()));
    assert!(matches!(ev.error, Some(ConvertError::Rename(ref m)) if m == "cross-device link"));
    assert_eq!(ev.out_path, "out/d.flac");
}

use BranchAction::{Deliver, Drain, Skip};
use BranchPhase::{Finished, Streaming};

#[test]
fn branch_steps_deliver_drain_once_and_skip() {
    // Samples flow while the branch streams.
    assert_eq!(branch_step(Streaming, false, false), (Deliver, Streaming));
    // A zero-frame resample skips the round without ending the branch.
    assert_eq!(branch_step(Streaming, false, true), (Skip, Streaming));
    // The first empty chunk drains the resampler and finishes the branch...
    assert_eq!(branch_step(Streaming, true, false), (Drain, Finished));
    // ...and a finished branch is never written or drained again.
    assert_eq!(branch_step(Finished, true, false), (Skip, Finished));
    assert_eq!(branch_step(Finished, false, false), (Skip, Finished));
}

#[test]
fn terminal_responses() {
    assert!(matches!(terminal_response(false), Response::Done));
    assert!(matches!(terminal_response(true), Response::Cancelled));
}
