use aether_convert::ffmpeg;
use aether_convert::orchestrate::ProgressTracker;

#[test]
fn duration_announcement_parses_to_micros() {
    let d = ffmpeg::parse_duration("  Duration: 00:01:40.00, start: 0.000000, bitrate: 5 kb/s");
    assert_eq!(d, Some(100_000_000));
}

#[test]
fn duration_with_fraction() {
    let d = ffmpeg::parse_duration("Duration: 01:02:03.50,");
    assert_eq!(d, Some((3600 + 2 * 60 + 3) * 1_000_000 + 500_000));
}

#[test]
fn duration_requires_comma() {
    assert_eq!(ffmpeg::parse_duration("Duration: 00:01:40.00"), None);
}

#[test]
fn duration_absent_on_other_lines() {
    assert_eq!(ffmpeg::parse_duration("frame=  100 fps= 25"), None);
}

#[test]
fn out_time_us_line_yields_half_progress() {
    let p = ffmpeg::parse_progress("out_time_us=5000000", Some(10_000_000));
    assert_eq!(p, Some(50));
}

#[test]
fn out_time_us_without_total_yields_nothing() {
    assert_eq!(ffmpeg::parse_progress("out_time_us=5000000", None), None);
}

#[test]
fn out_time_formatted_line_parses() {
    let p = ffmpeg::parse_progress("out_time=00:00:05.000000", Some(10_000_000));
    assert_eq!(p, Some(50));
}

#[test]
fn inline_time_field_parses() {
    let line = "frame=  120 fps= 24 q=28.0 size=  256kB time=00:00:05.00 bitrate= 418.1kbits/s";
    let p = ffmpeg::parse_progress(line, Some(10_000_000));
    assert_eq!(p, Some(50));
}

#[test]
fn progress_is_clamped_to_one_hundred() {
    let p = ffmpeg::parse_progress("out_time_us=25000000", Some(10_000_000));
    assert_eq!(p, Some(100));
}

#[test]
fn malformed_progress_lines_yield_nothing() {
    assert_eq!(ffmpeg::parse_progress("out_time_us=abc", Some(10_000_000)), None);
    assert_eq!(ffmpeg::parse_progress("speed=1.02x", Some(10_000_000)), None);
    assert_eq!(ffmpeg::parse_progress("", Some(10_000_000)), None);
}

#[test]
fn zero_total_duration_yields_nothing() {
    assert_eq!(ffmpeg::parse_progress("out_time_us=5000000", Some(0)), None);
}

#[test]
fn time_to_micros_requires_three_parts() {
    assert_eq!(ffmpeg::parse_time_to_micros("00:01:40.00"), Some(100_000_000));
    assert_eq!(ffmpeg::parse_time_to_micros("01:40"), None);
    assert_eq!(ffmpeg::parse_time_to_micros("00:00:01:00"), None);
    assert_eq!(ffmpeg::parse_time_to_micros("aa:bb:cc"), None);
}

#[test]
fn tracker_learns_duration_then_reports_progress() {
    let mut t = ProgressTracker::new();
    assert_eq!(t.duration_us(), None);
    assert_eq!(t.observe_line("Duration: 00:00:10.00, start: 0.0"), None);
    assert_eq!(t.duration_us(), Some(10_000_000));
    assert_eq!(t.observe_line("out_time_us=5000000"), Some(50));
    assert_eq!(t.observe_line("out_time_us=9999999999", ), Some(100));
}

#[test]
fn tracker_first_duration_wins() {
    let mut t = ProgressTracker::new();
    t.observe_line("Duration: 00:00:10.00,");
    t.observe_line("Duration: 00:00:99.00,");
    assert_eq!(t.duration_us(), Some(10_000_000));
}

#[test]
fn tracker_reports_nothing_before_duration() {
    let mut t = ProgressTracker::new();
    assert_eq!(t.observe_line("out_time_us=5000000"), None);
}
