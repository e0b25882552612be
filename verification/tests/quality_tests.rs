use aether_convert::quality;
use aether_convert::types::{ConversionConfig, OutputFormat, VideoFormat, AudioFormat};

fn config_with(format: OutputFormat, quality: u8) -> ConversionConfig {
    ConversionConfig {
        input_path: String::from("/in/a.mp4"),
        output_path: String::from("/out/a.mp4"),
        output_format: format,
        quality_percent: quality,
        resize_config: None,
        is_muted: false,
        strip_metadata: false,
        conflict_mode: String::from("overwrite"),
        max_bitrate: None,
    }
}

#[test]
fn webm_crf_range_and_edges() {
    assert_eq!(config_with(OutputFormat::Video(VideoFormat::Webm), 0).calculate_crf(), 63);
    assert_eq!(config_with(OutputFormat::Video(VideoFormat::Webm), 50).calculate_crf(), 47);
    assert_eq!(config_with(OutputFormat::Video(VideoFormat::Webm), 100).calculate_crf(), 31);
}

#[test]
fn h264_crf_range_and_edges() {
    assert_eq!(config_with(OutputFormat::Video(VideoFormat::Mp4), 0).calculate_crf(), 51);
    assert_eq!(config_with(OutputFormat::Video(VideoFormat::Mp4), 50).calculate_crf(), 37);
    assert_eq!(config_with(OutputFormat::Video(VideoFormat::Mp4), 75).calculate_crf(), 30);
    assert_eq!(config_with(OutputFormat::Video(VideoFormat::Mkv), 100).calculate_crf(), 23);
    assert_eq!(config_with(OutputFormat::Video(VideoFormat::Mov), 100).calculate_crf(), 23);
}

#[test]
fn qscale_codecs_use_their_own_range() {
    assert_eq!(config_with(OutputFormat::Video(VideoFormat::Avi), 0).calculate_crf(), 31);
    assert_eq!(config_with(OutputFormat::Video(VideoFormat::Avi), 50).calculate_crf(), 17);
    assert_eq!(config_with(OutputFormat::Video(VideoFormat::Wmv), 100).calculate_crf(), 3);
}

#[test]
fn crf_monotonic_over_all_qualities() {
    for family in [
        OutputFormat::Video(VideoFormat::Webm),
        OutputFormat::Video(VideoFormat::Mp4),
        OutputFormat::Video(VideoFormat::Avi),
    ] {
        let mut prev = config_with(family, 0).calculate_crf();
        for q in 1..=100u8 {
            let cur = config_with(family, q).calculate_crf();
            assert!(cur <= prev, "CRF must not increase as quality rises");
            prev = cur;
        }
    }
}

#[test]
fn audio_bitrate_clamped_and_monotonic() {
    assert_eq!(quality::audio_bitrate_kbps(0), 128);
    assert_eq!(quality::audio_bitrate_kbps(25), 128);
    assert_eq!(quality::audio_bitrate_kbps(50), 192);
    assert_eq!(quality::audio_bitrate_kbps(100), 320);
    let mut prev = quality::audio_bitrate_kbps(0);
    for q in 1..=100u8 {
        let cur = quality::audio_bitrate_kbps(q);
        assert!((128..=320).contains(&cur));
        assert!(cur >= prev);
        prev = cur;
    }
}

#[test]
fn mp3_scale_inverted_and_clamped() {
    assert_eq!(quality::mp3_quality(0), 9);
    assert_eq!(quality::mp3_quality(50), 5);
    assert_eq!(quality::mp3_quality(100), 0);
    let mut prev = quality::mp3_quality(0);
    for q in 1..=100u8 {
        let cur = quality::mp3_quality(q);
        assert!(cur <= 9);
        assert!(cur <= prev);
        prev = cur;
    }
}

#[test]
fn ogg_scale_clamped() {
    assert_eq!(quality::ogg_quality(0), 1);
    assert_eq!(quality::ogg_quality(50), 4);
    assert_eq!(quality::ogg_quality(100), 8);
    for q in 0..=100u8 {
        let v = quality::ogg_quality(q);
        assert!((1..=8).contains(&v));
    }
}

#[test]
fn jpeg_qscale_clamped_and_inverted() {
    assert_eq!(quality::jpeg_qscale(0), 31);
    assert_eq!(quality::jpeg_qscale(50), 17);
    assert_eq!(quality::jpeg_qscale(100), 2);
    for q in 0..=100u8 {
        let v = quality::jpeg_qscale(q);
        assert!((2..=31).contains(&v));
    }
}

#[test]
fn webp_quality_capped() {
    assert_eq!(quality::webp_quality(0), 20);
    assert_eq!(quality::webp_quality(50), 56);
    assert_eq!(quality::webp_quality(90), 84);
    assert_eq!(quality::webp_quality(100), 92);
}

#[test]
fn x264_preset_tiers() {
    assert_eq!(quality::x264_preset(100), "slow");
    assert_eq!(quality::x264_preset(80), "slow");
    assert_eq!(quality::x264_preset(79), "medium");
    assert_eq!(quality::x264_preset(50), "medium");
    assert_eq!(quality::x264_preset(49), "fast");
    assert_eq!(quality::x264_preset(0), "fast");
}
