//! The per-job conversion state machine: retained diagnostic tail,
//! progress tracking over the diagnostic stream, failure classification
//! and the terminal-outcome decision.
//!
//! The surrounding runtime performs the operating-system work (spawning,
//! reading the stream, waiting, deleting files) and feeds the results to
//! these functions; every decision they make is verified.

use vstd::prelude::*;
use vstd::string::*;
use crate::error;
use crate::error::ConversionError;
use crate::ffmpeg;
use crate::naming;
use crate::naming::NamingEngine;
use crate::pathres;
use crate::strutil;
use crate::types;
use crate::types::ConversionConfig;
use crate::types::ConversionConfigView;
use crate::types::ConversionRequest;
use crate::types::OutputFormat;

verus! {

/// Occurrence of a diagnostic marker in the retained log text.
pub open spec fn log_contains(log: Seq<char>, needle: Seq<char>) -> bool {
    exists|i: int| strutil::matches_at(log, needle, i)
}

/// The classified failure message for a non-zero exit: three known
/// diagnostic markers map to stable messages, anything else to a generic
/// message carrying the exit code and the retained diagnostic tail.
pub open spec fn classify_failure_spec(exit_code: Option<i32>, log: Seq<char>) -> Seq<char> {
    if log_contains(log, "Output file does not contain any stream"@) {
        "Conversion failed: Input file has no suitable audio stream."@
    } else if log_contains(log, "Permission denied"@) {
        "Conversion failed: Permission denied writing to output."@
    } else if log_contains(log, "No space left on device"@) {
        "Conversion failed: Disk full."@
    } else {
        "FFmpeg exited with code: "@ + error::exit_code_spec(exit_code) + "\n"@ + log
    }
}

/// Classifies a failed conversion from its exit code and diagnostic tail.
pub fn classify_failure(exit_code: Option<i32>, log: &str) -> (r: String)
    ensures
        r@ == classify_failure_spec(exit_code, log@),
{
    if strutil::contains_sub(log, "Output file does not contain any stream") {
        String::from_str("Conversion failed: Input file has no suitable audio stream.")
    } else if strutil::contains_sub(log, "Permission denied") {
        String::from_str("Conversion failed: Permission denied writing to output.")
    } else if strutil::contains_sub(log, "No space left on device") {
        String::from_str("Conversion failed: Disk full.")
    } else {
        let mut m = String::from_str("FFmpeg exited with code: ");
        match exit_code {
            Some(c) => {
                m.append("Some(");
                let digits = strutil::i64_to_dec(c as i64);
                m.append(digits.as_str());
                m.append(")");
            },
            None => {
                m.append("None");
            },
        }
        m.append("\n");
        m.append(log);
        m
    }
}

/// What a log tail becomes when a line arrives: the oldest line falls out
/// once twenty are retained.
pub open spec fn tail_push_spec(s: Seq<Seq<char>>, l: Seq<char>) -> Seq<Seq<char>> {
    if s.len() >= 20 {
        s.drop_first().push(l)
    } else {
        s.push(l)
    }
}

/// The twenty most recent diagnostic lines, for failure classification.
pub struct LogTail {
    lines: Vec<String>,
}

impl View for LogTail {
    type V = Seq<Seq<char>>;

    closed spec fn view(&self) -> Seq<Seq<char>> {
        self.lines@.map_values(|s: String| s@)
    }
}

impl LogTail {
    pub open spec fn wf(&self) -> bool {
        self@.len() <= 20
    }

    /// Creates an empty tail.
    pub fn new() -> (r: Self)
        ensures
            r.wf(),
            r@ == Seq::<Seq<char>>::empty(),
    {
        let r = LogTail { lines: Vec::new() };
        proof {
            assert(r@ =~= Seq::<Seq<char>>::empty());
        }
        r
    }

    /// Retains a new line, dropping the oldest once twenty are held.
    pub fn push(&mut self, line: String)
        requires
            old(self).wf(),
        ensures
            final(self).wf(),
            final(self)@ == tail_push_spec(old(self)@, line@),
    {
        let ghost l = line@;
        if self.lines.len() >= 20 {
            let _ = self.lines.remove(0);
            proof {
                assert(self@ =~= old(self)@.drop_first());
            }
        }
        let ghost mid = self@;
        self.lines.push(line);
        proof {
            assert(self@ =~= mid.push(l));
        }
    }

    /// The retained lines joined with line breaks, for classification.
    pub fn joined(&self) -> (r: String)
        ensures
            r@ == strutil::join_spec(self@, "\n"@),
    {
        strutil::join_strings(&self.lines, "\n")
    }
}

/// Progress monitoring state: the total duration once announced.
pub struct ProgressTracker {
    duration_us: Option<u64>,
}

impl ProgressTracker {
    /// The total duration extracted so far, in microseconds.
    pub closed spec fn duration_spec(&self) -> Option<u64> {
        self.duration_us
    }

    /// Creates a tracker that has not yet seen a duration announcement.
    pub fn new() -> (r: Self)
        ensures
            r.duration_spec() is None,
    {
        ProgressTracker { duration_us: None }
    }

    /// The total duration in microseconds, if announced yet.
    pub fn duration_us(&self) -> (r: Option<u64>)
        ensures
            r == self.duration_spec(),
    {
        self.duration_us
    }

    /// Consumes one diagnostic line: the first duration announcement wins,
    /// and any recognized progress encoding yields a clamped percentage
    /// computed against the announced total.
    pub fn observe_line(&mut self, line: &str) -> (r: Option<u8>)
        ensures
            final(self).duration_spec() == (if old(self).duration_spec() is None {
                match ffmpeg::parse_duration_spec(line@) {
                    Some(d) => Some(d as u64),
                    None => old(self).duration_spec(),
                }
            } else {
                old(self).duration_spec()
            }),
            match r {
                Some(p) => ffmpeg::parse_progress_spec(line@, final(self).duration_spec())
                    == Some(p as int) && p <= 100,
                None => ffmpeg::parse_progress_spec(line@, final(self).duration_spec()) is None,
            },
    {
        if self.duration_us.is_none() {
            match ffmpeg::parse_duration(line) {
                Some(d) => {
                    self.duration_us = Some(d);
                },
                None => {},
            }
        }
        ffmpeg::parse_progress(line, self.duration_us)
    }
}

/// How the resolved output will be produced: a verbatim file copy when
/// processing is disabled, otherwise a transcoder invocation with the
/// synthesized arguments.
#[derive(Debug)]
pub enum PlanMode {
    DirectCopy,
    Transcode { args: Vec<String> },
}

/// Everything the runtime needs to start one conversion job.
#[derive(Debug)]
pub struct ConversionPlan {
    pub output_path: String,
    pub mode: PlanMode,
}

/// The stem the plan uses: the naming-pipeline result when a naming
/// configuration was given, else the input's stem.
pub open spec fn stem_choice_spec(
    naming_config: Option<crate::types::NamingConfig>,
    input_stem: Seq<char>,
    stem_used: Seq<char>,
) -> bool {
    match naming_config {
        None => stem_used == input_stem,
        Some(cfg) => exists|parts: Seq<Seq<char>>|
            #![auto]
            naming::parts_ok(cfg.blocks@, input_stem, parts) && stem_used
                == naming::pipeline_finish_spec(
                strutil::join_spec(parts, "_"@),
                cfg.sanitize_enabled,
            ),
    }
}

/// The configuration a plan hands to the argument synthesizer.
pub open spec fn planned_view(r: ConversionRequest, f: OutputFormat, out: Seq<char>) -> ConversionConfigView {
    ConversionConfigView {
        input_path: r.input_path@,
        output_path: out,
        output_format: f,
        quality_percent: r.quality_percent,
        resize_config: r.resize_config,
        is_muted: r.is_muted,
        strip_metadata: r.strip_metadata,
        conflict_mode: r.conflict_mode@,
        max_bitrate: r.max_bitrate,
    }
}

/// The argument vector for the target family.
pub open spec fn family_args_spec(c: ConversionConfigView) -> Seq<Seq<char>> {
    match c.output_format {
        OutputFormat::Video(_) => ffmpeg::video_args_spec(c),
        OutputFormat::Audio(_) => ffmpeg::audio_args_spec(c),
        OutputFormat::Image(_) => ffmpeg::image_args_spec(c),
    }
}

/// Plans one conversion: verifies the input exists, resolves the target
/// format, applies the naming pipeline, chooses the output directory and
/// extension (the input's own extension in direct-copy mode), resolves
/// conflicts against the existing paths, and synthesizes the transcoder
/// arguments.  Nothing is spawned or written here.
pub fn plan_conversion(
    request: &ConversionRequest,
    input_exists: bool,
    input_stem: &str,
    input_parent: &str,
    input_ext: &str,
    existing: &Vec<String>,
    engine: &mut NamingEngine,
) -> (r: Result<ConversionPlan, ConversionError>)
    requires
        request.quality_percent <= 100,
        match request.resize_config {
            Some(rc) => rc.wf(),
            None => true,
        },
    ensures
        !input_exists ==> (r matches Err(ConversionError::FileNotFound { path }) && path@
            == request.input_path@),
        input_exists && types::output_format_from_ident_spec(
            strutil::lower_seq_spec(request.output_format@),
        ) is None ==> (r matches Err(ConversionError::UnsupportedFormat { input, output, reason })
            && input@ == request.input_path@ && output@ == request.output_format@ && reason@
            == "unrecognized output format"@),
        ({
            let fmt = types::output_format_from_ident_spec(
                strutil::lower_seq_spec(request.output_format@),
            );
            input_exists && fmt is Some ==> ({
                let f = fmt->Some_0;
                let dirv = pathres::output_dir_spec(
                    input_parent@,
                    match request.output_directory {
                        Some(d) => Some(d@),
                        None => None,
                    },
                );
                let extv = pathres::used_extension_spec(
                    request.processing_enabled,
                    f.extension_spec(),
                    input_ext@,
                );
                let ex = existing@.map_values(|e: String| e@);
                exists|stem_used: Seq<char>|
                    #![auto]
                    stem_choice_spec(request.naming_config, input_stem@, stem_used) && (match r {
                        Ok(plan) => {
                            &&& pathres::resolved_ok_spec(
                                dirv,
                                stem_used,
                                extv,
                                request.conflict_mode@,
                                ex,
                                plan.output_path@,
                            )
                            &&& !request.processing_enabled ==> plan.mode is DirectCopy
                            &&& request.processing_enabled ==> (plan.mode matches PlanMode::Transcode { args }
                                && args@.map_values(|s: String| s@) == family_args_spec(
                                planned_view(*request, f, plan.output_path@),
                            ))
                        },
                        Err(e) => pathres::resolved_err_spec(
                            dirv,
                            stem_used,
                            extv,
                            request.conflict_mode@,
                            ex,
                            e,
                        ),
                    })
            })
        }),
        !request.processing_enabled && r is Ok ==> strutil::has_suffix(
            r->Ok_0.output_path@,
            "."@ + input_ext@,
        ),
{
    if !input_exists {
        return Err(ConversionError::FileNotFound { path: request.input_path.clone() });
    }
    let format = match types::parse_output_format(request.output_format.as_str()) {
        Some(f) => f,
        None => {
            return Err(
                ConversionError::UnsupportedFormat {
                    input: request.input_path.clone(),
                    output: request.output_format.clone(),
                    reason: String::from_str("unrecognized output format"),
                },
            );
        },
    };
    let named: Option<String> = match &request.naming_config {
        Some(cfg) => Some(naming::apply_naming_pipeline(input_stem, cfg, engine)),
        None => None,
    };
    let ghost stem_used = match &named {
        Some(s) => s@,
        None => input_stem@,
    };
    proof {
        assert(stem_choice_spec(request.naming_config, input_stem@, stem_used));
    }
    let stem: &str = match &named {
        Some(s) => s.as_str(),
        None => input_stem,
    };
    let dir: &str = match &request.output_directory {
        Some(d) => d.as_str(),
        None => input_parent,
    };
    let ext: &str = pathres::used_extension(
        request.processing_enabled,
        format.extension(),
        input_ext,
    );
    let output_path = match pathres::resolve_conflict(
        dir,
        stem,
        ext,
        request.conflict_mode.as_str(),
        existing,
    ) {
        Ok(p) => p,
        Err(e) => {
            return Err(e);
        },
    };
    proof {
        pathres::lemma_resolved_path_suffix(
            dir@,
            stem_used,
            ext@,
            request.conflict_mode@,
            existing@.map_values(|e: String| e@),
            output_path@,
        );
    }
    if !request.processing_enabled {
        return Ok(ConversionPlan { output_path, mode: PlanMode::DirectCopy });
    }
    let config = ConversionConfig {
        input_path: request.input_path.clone(),
        output_path: output_path.clone(),
        output_format: format,
        quality_percent: request.quality_percent,
        resize_config: request.resize_config,
        is_muted: request.is_muted,
        strip_metadata: request.strip_metadata,
        conflict_mode: request.conflict_mode.clone(),
        max_bitrate: request.max_bitrate,
    };
    proof {
        assert(config@ == planned_view(*request, format, output_path@));
    }
    let args = match format {
        OutputFormat::Video(_) => ffmpeg::build_video_args(&config),
        OutputFormat::Audio(_) => ffmpeg::build_audio_extract_args(&config),
        OutputFormat::Image(_) => ffmpeg::build_image_args(&config),
    };
    Ok(ConversionPlan { output_path, mode: PlanMode::Transcode { args } })
}

/// The terminal outcome of one conversion job.
#[derive(Debug)]
pub enum JobOutcome {
    Completed { output_path: String },
    Failed { message: String },
    Cancelled,
}

/// Decides the terminal outcome once the diagnostic stream has ended.
/// A job no longer in the registry was cancelled concurrently; a zero
/// exit completes with the output path; any other exit fails with the
/// classified message.
pub fn finish_conversion(
    registered: bool,
    exit_ok: bool,
    exit_code: Option<i32>,
    tail: &LogTail,
    output_path: &str,
) -> (r: JobOutcome)
    ensures
        !registered ==> r is Cancelled,
        registered && exit_ok ==> (r matches JobOutcome::Completed { output_path: p } && p@
            == output_path@),
        registered && !exit_ok ==> (r matches JobOutcome::Failed { message } && message@
            == classify_failure_spec(exit_code, strutil::join_spec(tail@, "\n"@))),
{
    if !registered {
        JobOutcome::Cancelled
    } else if exit_ok {
        JobOutcome::Completed { output_path: String::from_str(output_path) }
    } else {
        let log = tail.joined();
        JobOutcome::Failed { message: classify_failure(exit_code, log.as_str()) }
    }
}

} // verus!
