use aether_convert::error::ConversionError;
use aether_convert::naming::NamingEngine;
use aether_convert::orchestrate::{plan_conversion, ConversionPlan, PlanMode};
use aether_convert::pathres;
use aether_convert::types::ConversionRequest;

fn request(format: &str, conflict: &str, processing: bool) -> ConversionRequest {
    ConversionRequest {
        id: String::from("job-1"),
        input_path: String::from("/media/in/clip.mov"),
        output_format: String::from(format),
        quality_percent: 50,
        strip_metadata: false,
        is_muted: false,
        resize_config: None,
        naming_config: None,
        output_directory: None,
        conflict_mode: String::from(conflict),
        processing_enabled: processing,
        max_bitrate: None,
    }
}

fn plan(req: &ConversionRequest, exists: bool, existing: Vec<&str>) -> Result<ConversionPlan, ConversionError> {
    let existing: Vec<String> = existing.into_iter().map(String::from).collect();
    let mut engine = NamingEngine::new();
    plan_conversion(req, exists, "clip", "/media/in", "mov", &existing, &mut engine)
}

#[test]
fn join_builds_dir_stem_ext() {
    assert_eq!(pathres::join_output_path("/out", "clip", "mp4"), "/out/clip.mp4");
}

#[test]
fn calculate_output_path_prefers_override_and_naming() {
    let over = String::from("/elsewhere");
    let named = String::from("renamed");
    assert_eq!(
        pathres::calculate_output_path("clip", "/media/in", Some(&over), Some(&named), "mp4"),
        "/elsewhere/renamed.mp4"
    );
    assert_eq!(
        pathres::calculate_output_path("clip", "/media/in", None, None, "mp4"),
        "/media/in/clip.mp4"
    );
}

#[test]
fn conflict_free_path_is_kept() {
    let existing = vec![String::from("/d/other.mp4")];
    let r = pathres::resolve_conflict("/d", "a", "mp4", "reject", &existing);
    assert_eq!(r.unwrap(), "/d/a.mp4");
}

#[test]
fn conflict_overwrite_keeps_path() {
    let existing = vec![String::from("/d/a.mp4")];
    let r = pathres::resolve_conflict("/d", "a", "mp4", "overwrite", &existing);
    assert_eq!(r.unwrap(), "/d/a.mp4");
}

#[test]
fn conflict_reject_fails_with_conflict() {
    let existing = vec![String::from("/d/a.mp4")];
    let r = pathres::resolve_conflict("/d", "a", "mp4", "reject", &existing);
    match r {
        Err(ConversionError::FileConflict { path }) => assert_eq!(path, "/d/a.mp4"),
        other => panic!("expected a conflict, got {:?}", other),
    }
}

#[test]
fn keep_both_picks_next_free_version() {
    let existing = vec![String::from("/d/a.mp4"), String::from("/d/a_2.mp4")];
    let r = pathres::resolve_conflict("/d", "a", "mp4", "keep_both", &existing);
    assert_eq!(r.unwrap(), "/d/a_3.mp4");
}

#[test]
fn keep_both_starts_at_two() {
    let existing = vec![String::from("/d/a.mp4")];
    let r = pathres::resolve_conflict("/d", "a", "mp4", "keep_both", &existing);
    assert_eq!(r.unwrap(), "/d/a_2.mp4");
}

#[test]
fn keep_both_ignores_zero_padded_variants() {
    let existing = vec![String::from("/d/a.mp4"), String::from("/d/a_02.mp4")];
    let r = pathres::resolve_conflict("/d", "a", "mp4", "keep_both", &existing);
    assert_eq!(r.unwrap(), "/d/a_2.mp4");
}

#[test]
fn keep_both_exhausted_after_9999() {
    let mut existing = vec![String::from("/d/a.mp4")];
    for v in 2..=9999u32 {
        existing.push(format!("/d/a_{}.mp4", v));
    }
    let r = pathres::resolve_conflict("/d", "a", "mp4", "keep_both", &existing);
    match r {
        Err(ConversionError::Unknown { message }) => {
            assert_eq!(message, "Too many duplicate files");
        },
        other => panic!("expected exhaustion, got {:?}", other),
    }
}

#[test]
fn used_extension_switches_in_copy_mode() {
    assert_eq!(pathres::used_extension(true, "mp4", "mov"), "mp4");
    assert_eq!(pathres::used_extension(false, "mp4", "mov"), "mov");
}

#[test]
fn plan_missing_input_is_file_not_found() {
    let req = request("mp4", "overwrite", true);
    match plan(&req, false, vec![]) {
        Err(ConversionError::FileNotFound { path }) => assert_eq!(path, "/media/in/clip.mov"),
        other => panic!("expected FileNotFound, got {:?}", other),
    }
}

#[test]
fn plan_unknown_format_is_unsupported() {
    let req = request("xyz", "overwrite", true);
    match plan(&req, true, vec![]) {
        Err(ConversionError::UnsupportedFormat { output, .. }) => assert_eq!(output, "xyz"),
        other => panic!("expected UnsupportedFormat, got {:?}", other),
    }
}

#[test]
fn plan_transcode_targets_nominal_extension() {
    let req = request("mp4", "overwrite", true);
    let plan = plan(&req, true, vec![]).unwrap();
    assert_eq!(plan.output_path, "/media/in/clip.mp4");
    match plan.mode {
        PlanMode::Transcode { args } => {
            assert_eq!(args.last().unwrap(), "/media/in/clip.mp4");
            assert!(args.iter().any(|a| a == "libx264"));
        },
        PlanMode::DirectCopy => panic!("expected a transcode plan"),
    }
}

#[test]
fn plan_direct_copy_preserves_input_extension() {
    let req = request("mp4", "overwrite", false);
    let plan = plan(&req, true, vec![]).unwrap();
    assert_eq!(plan.output_path, "/media/in/clip.mov");
    assert!(matches!(plan.mode, PlanMode::DirectCopy));
}

#[test]
fn plan_direct_copy_renames_with_input_extension() {
    let req = request("webm", "keep_both", false);
    let existing = vec!["/media/in/clip.mov"];
    let plan = plan(&req, true, existing).unwrap();
    assert_eq!(plan.output_path, "/media/in/clip_2.mov");
}

#[test]
fn plan_conflict_reject_propagates() {
    let req = request("mp4", "reject", true);
    let existing = vec!["/media/in/clip.mp4"];
    match plan(&req, true, existing) {
        Err(ConversionError::FileConflict { path }) => assert_eq!(path, "/media/in/clip.mp4"),
        other => panic!("expected FileConflict, got {:?}", other),
    }
}

#[test]
fn plan_audio_extraction_uses_audio_args() {
    let req = request("mp3", "overwrite", true);
    let plan = plan(&req, true, vec![]).unwrap();
    assert_eq!(plan.output_path, "/media/in/clip.mp3");
    match plan.mode {
        PlanMode::Transcode { args } => {
            assert!(args.iter().any(|a| a == "libmp3lame"));
            assert!(args.iter().any(|a| a == "-vn"));
        },
        PlanMode::DirectCopy => panic!("expected a transcode plan"),
    }
}
