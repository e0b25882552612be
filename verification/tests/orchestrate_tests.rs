use aether_convert::orchestrate::{classify_failure, finish_conversion, JobOutcome, LogTail};

#[test]
fn classify_recognizes_missing_audio_stream() {
    let log = "foo\nOutput file does not contain any stream\nbar";
    assert_eq!(
        classify_failure(Some(1), log),
        "Conversion failed: Input file has no suitable audio stream."
    );
}

#[test]
fn classify_recognizes_permission_denied() {
    assert_eq!(
        classify_failure(Some(1), "x Permission denied y"),
        "Conversion failed: Permission denied writing to output."
    );
}

#[test]
fn classify_recognizes_disk_full() {
    assert_eq!(
        classify_failure(Some(1), "No space left on device"),
        "Conversion failed: Disk full."
    );
}

#[test]
fn classify_generic_carries_code_and_tail() {
    assert_eq!(
        classify_failure(Some(187), "line one\nline two"),
        "FFmpeg exited with code: Some(187)\nline one\nline two"
    );
    assert_eq!(classify_failure(None, "boom"), "FFmpeg exited with code: None\nboom");
    assert_eq!(
        classify_failure(Some(-9), "sig"),
        "FFmpeg exited with code: Some(-9)\nsig"
    );
}

#[test]
fn log_tail_retains_last_twenty_lines() {
    let mut tail = LogTail::new();
    for i in 0..25 {
        tail.push(format!("line{}", i));
    }
    let joined = tail.joined();
    let lines: Vec<&str> = joined.split('\n').collect();
    assert_eq!(lines.len(), 20);
    assert_eq!(lines[0], "line5");
    assert_eq!(lines[19], "line24");
}

#[test]
fn finish_unregistered_job_is_cancelled() {
    let tail = LogTail::new();
    let outcome = finish_conversion(false, true, Some(0), &tail, "/out/a.mp4");
    assert!(matches!(outcome, JobOutcome::Cancelled));
}

#[test]
fn finish_zero_exit_completes_with_path() {
    let tail = LogTail::new();
    match finish_conversion(true, true, Some(0), &tail, "/out/a.mp4") {
        JobOutcome::Completed { output_path } => assert_eq!(output_path, "/out/a.mp4"),
        other => panic!("expected completion, got {:?}", outcome_name(&other)),
    }
}

#[test]
fn finish_nonzero_exit_classifies_from_tail() {
    let mut tail = LogTail::new();
    tail.push(String::from("some noise"));
    tail.push(String::from("No space left on device"));
    match finish_conversion(true, false, Some(1), &tail, "/out/a.mp4") {
        JobOutcome::Failed { message } => assert_eq!(message, "Conversion failed: Disk full."),
        other => panic!("expected failure, got {:?}", outcome_name(&other)),
    }
}

#[test]
fn finish_nonzero_exit_generic_message_includes_tail() {
    let mut tail = LogTail::new();
    tail.push(String::from("a"));
    tail.push(String::from("b"));
    match finish_conversion(true, false, Some(3), &tail, "/out/a.mp4") {
        JobOutcome::Failed { message } => {
            assert_eq!(message, "FFmpeg exited with code: Some(3)\na\nb");
        },
        other => panic!("expected failure, got {:?}", outcome_name(&other)),
    }
}

fn outcome_name(o: &JobOutcome) -> &'static str {
    match o {
        JobOutcome::Completed { .. } => "completed",
        JobOutcome::Failed { .. } => "failed",
        JobOutcome::Cancelled => "cancelled",
    }
}
