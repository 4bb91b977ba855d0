//! Conversion plans: which input files become which outputs, and the builder
//! that makes a plan from a walk of the input tree.

use vstd::prelude::*;
use crate::outside::{
    pattern_matches, pattern_valid, regex_is_match, regex_pattern_ok, render_out_path,
};
use crate::pathutil::{file_stem_of, rel_dir_of, spec_file_stem, spec_rel_dir};
use crate::types::Format;

verus! {

/// How a run is configured: where the reference tracks live, which of them
/// to convert, and where and in which formats the outputs go.
#[derive(Debug)]
pub struct Config {
    pub reference_tracks_dir: String,
    pub reference_track_regex: String,
    pub out_root_dir: String,
    pub out_path_template: String,
    pub formats: Vec<Format>,
}

/// One output to produce: where it goes and in which format.
#[derive(Debug)]
pub struct OutFile {
    pub path: String,
    pub format: Format,
}

/// All outputs planned for one input file.
#[derive(Debug)]
pub struct InfilePlan {
    pub infile: String,
    pub outfiles: Vec<OutFile>,
}

/// The whole conversion plan, built once and executed once.
#[derive(Debug)]
pub struct Plan {
    pub outputs: Vec<InfilePlan>,
}

/// Why no plan could be built.  Any of these aborts the whole plan: planning
/// is all-or-nothing.
#[derive(Debug, Clone, PartialEq, Eq)]
pub enum PlanError {
    /// The inclusion pattern does not compile.
    BadPattern,
    /// An input path does not lie under the input root.
    OutsideRoot,
    /// An input path has no file name to derive an output name from.
    NoFileStem,
    /// The output path template does not render for an input file.
    BadTemplate,
    /// An input path is not valid UTF-8: an explicitly unsupported case.
    NonUtf8Path,
    /// Walking the input tree failed, with the walker's message.
    Walk(String),
}

/// A request to a running plan build.
pub enum Request {
    Cancel,
}

/// What a plan build reports back: the plan, `None` for a build cancelled
/// before the walk finished, or the error that aborted it.
pub enum Response {
    Done(Result<Option<Plan>, PlanError>),
}

impl Config {
    /// A starting-point configuration: convert every WAV file under `./in/`
    /// into a 24-bit 48 kHz WAV file under `./out/`, mirroring the tree.
    pub fn template() -> (c: Config)
        ensures
            c.reference_tracks_dir@ == "./in/"@,
            c.reference_track_regex@ == "\\.wav"@,
            c.out_root_dir@ == "./out/"@,
            c.out_path_template@ == "{{out_root_dir}}/{{relative_path}}/{{file_stem}}.{{format_ext}}"@,
            c.formats@.len() == 1,
            c.formats@[0] == (Format {
                codec: crate::types::Codec::Wav,
                bit_depth: crate::types::BitDepth::I24,
                sample_rate: crate::types::SampleRate::K48,
            }),
    {
        Config {
            reference_tracks_dir: String::from_str("./in/"),
            reference_track_regex: String::from_str("\\.wav"),
            out_root_dir: String::from_str("./out/"),
            out_path_template: String::from_str(
                "{{out_root_dir}}/{{relative_path}}/{{file_stem}}.{{format_ext}}",
            ),
            formats: vec![
                Format {
                    codec: crate::types::Codec::Wav,
                    bit_depth: crate::types::BitDepth::I24,
                    sample_rate: crate::types::SampleRate::K48,
                },
            ],
        }
    }
}

/// The error that stops an output of `path` being planned before the path
/// template is even consulted: the input must lie under the input root and
/// have a file stem.  `None` when both hold — whether the template then
/// renders is the template engine's decision, not a function of these
/// inputs.
pub open spec fn spec_precheck(c: Config, path: Seq<char>) -> Option<PlanError> {
    if spec_rel_dir(c.reference_tracks_dir@, path) is None {
        Some(PlanError::OutsideRoot)
    } else if spec_file_stem(path) is None {
        Some(PlanError::NoFileStem)
    } else {
        None
    }
}

/// Computes the planned output of `path` in format `format`: the template is
/// rendered against the output root, the input's directory relative to the
/// input root, its file stem, and the codec's extension.  An output carries
/// its format and whatever path the template engine rendered; the errors
/// before the rendering are pinned by [`spec_precheck`], and a rendering
/// failure is `BadTemplate`.
pub fn outfile_for(config: &Config, path: &str, format: Format) -> (r: Result<OutFile, PlanError>)
    ensures
        r matches Ok(of) ==> of.format == format && spec_precheck(*config, path@) is None,
        spec_precheck(*config, path@) matches Some(pe) ==> r == Err::<OutFile, PlanError>(pe),
        r matches Err(e) ==> (match spec_precheck(*config, path@) {
            Some(pe) => e == pe,
            None => e is BadTemplate,
        }),
{
    let rel = match rel_dir_of(config.reference_tracks_dir.as_str(), path) {
        None => {
            return Err(PlanError::OutsideRoot);
        },
        Some(rel) => rel,
    };
    let stem = match file_stem_of(path) {
        None => {
            return Err(PlanError::NoFileStem);
        },
        Some(stem) => stem,
    };
    let rendered = render_out_path(
        config.out_path_template.as_str(),
        config.out_root_dir.as_str(),
        rel.as_str(),
        stem.as_str(),
        format.codec.ext(),
    );
    match rendered {
        None => Err(PlanError::BadTemplate),
        Some(p) => Ok(OutFile { path: p, format }),
    }
}

/// Computes the planned outputs of `path`, one per configured format, in
/// configuration order; the first format whose output cannot be planned
/// aborts with its error.  With no formats configured there is nothing to
/// plan, so the path is not examined at all.
pub fn outputs_for(config: &Config, path: &str) -> (r: Result<Vec<OutFile>, PlanError>)
    ensures
        r matches Ok(v) ==> {
            &&& v@.len() == config.formats@.len()
            &&& forall|j: int| 0 <= j < v@.len() ==> (#[trigger] v@[j]).format == config.formats@[j]
            &&& v@.len() > 0 ==> spec_precheck(*config, path@) is None
        },
        config.formats@.len() > 0 ==> (match spec_precheck(*config, path@) {
            Some(pe) => r == Err::<Vec<OutFile>, PlanError>(pe),
            None => true,
        }),
        r matches Err(e) ==> (match spec_precheck(*config, path@) {
            Some(pe) => e == pe,
            None => e is BadTemplate,
        }),
{
    let mut v: Vec<OutFile> = Vec::new();
    let nf = config.formats.len();
    let mut j: usize = 0;
    while j < nf
        invariant
            j <= nf,
            nf == config.formats@.len(),
            v@.len() == j,
            forall|j2: int| 0 <= j2 < j ==> (#[trigger] v@[j2]).format == config.formats@[j2],
            j > 0 ==> spec_precheck(*config, path@) is None,
        decreases nf - j,
    {
        let f = config.formats[j];
        match outfile_for(config, path, f) {
            Ok(of) => {
                v.push(of);
            },
            Err(e) => {
                return Err(e);
            },
        }
        j = j + 1;
    }
    Ok(v)
}

/// Builds a plan entry by entry as the input tree is walked.  The walk
/// itself, and the cancellation poll between entries, live with the caller;
/// the builder decides what each entry contributes to the plan.
pub struct PlanBuilder {
    pub config: Config,
    pub outputs: Vec<InfilePlan>,
}

impl PlanBuilder {
    /// Starts a plan build, rejecting a configuration whose inclusion
    /// pattern does not compile before any entry is looked at.
    pub fn new(config: Config) -> (r: Result<PlanBuilder, PlanError>)
        ensures
            r matches Ok(pb) ==> {
                &&& pb.config == config
                &&& pb.outputs@.len() == 0
                &&& pattern_valid(config.reference_track_regex@)
            },
            r is Err <==> !pattern_valid(config.reference_track_regex@),
            r matches Err(e) ==> e is BadPattern,
    {
        if regex_pattern_ok(config.reference_track_regex.as_str()) {
            Ok(PlanBuilder { config, outputs: Vec::new() })
        } else {
            Err(PlanError::BadPattern)
        }
    }

    /// Feeds one filesystem entry to the builder.  Non-files and files whose
    /// path the inclusion pattern does not match contribute nothing; a
    /// matching file contributes one entry with every configured output; a
    /// planning failure for any output aborts the build.
    pub fn accept_entry(&mut self, path: &str, is_file: bool) -> (r: Result<(), PlanError>)
        ensures
            final(self).config == old(self).config,
            !is_file ==> r is Ok && final(self).outputs@ == old(self).outputs@,
            is_file && !pattern_valid(old(self).config.reference_track_regex@) ==> (match r {
                Ok(u) => false,
                Err(e) => e is BadPattern && final(self).outputs@ == old(self).outputs@,
            }),
            is_file && pattern_valid(old(self).config.reference_track_regex@) && !pattern_matches(
                old(self).config.reference_track_regex@,
                path@,
            ) ==> r is Ok && final(self).outputs@ == old(self).outputs@,
            is_file && pattern_valid(old(self).config.reference_track_regex@) && pattern_matches(
                old(self).config.reference_track_regex@,
                path@,
            ) && old(self).config.formats@.len() > 0 ==> (match spec_precheck(
                old(self).config,
                path@,
            ) {
                Some(pe) => r == Err::<(), PlanError>(pe),
                None => true,
            }),
            is_file && pattern_valid(old(self).config.reference_track_regex@) && pattern_matches(
                old(self).config.reference_track_regex@,
                path@,
            ) ==> (match r {
                Ok(u) => {
                    &&& final(self).outputs@.len() == old(self).outputs@.len() + 1
                    &&& forall|k: int|
                        0 <= k < old(self).outputs@.len() ==> #[trigger] final(self).outputs@[k]
                            == old(self).outputs@[k]
                    &&& final(self).outputs@.last().infile@ == path@
                    &&& final(self).outputs@.last().outfiles@.len()
                        == old(self).config.formats@.len()
                    &&& forall|j: int|
                        0 <= j < old(self).config.formats@.len() ==> (
                        #[trigger] final(self).outputs@.last().outfiles@[j]).format == old(
                            self,
                        ).config.formats@[j]
                },
                Err(e) => {
                    &&& final(self).outputs@ == old(self).outputs@
                    &&& (match spec_precheck(old(self).config, path@) {
                        Some(pe) => e == pe,
                        None => e is BadTemplate,
                    })
                },
            }),
    {
        if !is_file {
            return Ok(());
        }
        let matched = regex_is_match(self.config.reference_track_regex.as_str(), path);
        match matched {
            None => Err(PlanError::BadPattern),
            Some(false) => Ok(()),
            Some(true) => {
                match outputs_for(&self.config, path) {
                    Ok(outfiles) => {
                        self.outputs.push(
                            InfilePlan { infile: String::from_str(path), outfiles },
                        );
                        Ok(())
                    },
                    Err(e) => Err(e),
                }
            },
        }
    }

    /// Ends the build with the fully materialized plan.
    pub fn finish(self) -> (r: Plan)
        ensures
            r.outputs@ == self.outputs@,
    {
        Plan { outputs: self.outputs }
    }
}

} // verus!
