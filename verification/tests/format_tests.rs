use aether_convert::error::ConversionError;
use aether_convert::probe;
use aether_convert::thumbs;
use aether_convert::types::{
    parse_output_format, AudioFormat, ImageFormat, MediaType, OutputFormat, VideoFormat,
};

#[test]
fn every_identifier_maps_to_its_format() {
    assert_eq!(parse_output_format("mp4"), Some(OutputFormat::Video(VideoFormat::Mp4)));
    assert_eq!(parse_output_format("mkv"), Some(OutputFormat::Video(VideoFormat::Mkv)));
    assert_eq!(parse_output_format("mov"), Some(OutputFormat::Video(VideoFormat::Mov)));
    assert_eq!(parse_output_format("webm"), Some(OutputFormat::Video(VideoFormat::Webm)));
    assert_eq!(parse_output_format("avi"), Some(OutputFormat::Video(VideoFormat::Avi)));
    assert_eq!(parse_output_format("wmv"), Some(OutputFormat::Video(VideoFormat::Wmv)));
    assert_eq!(parse_output_format("m4v"), Some(OutputFormat::Video(VideoFormat::M4v)));
    assert_eq!(parse_output_format("flv"), Some(OutputFormat::Video(VideoFormat::Flv)));
    assert_eq!(parse_output_format("jpg"), Some(OutputFormat::Image(ImageFormat::Jpg)));
    assert_eq!(parse_output_format("jpeg"), Some(OutputFormat::Image(ImageFormat::Jpg)));
    assert_eq!(parse_output_format("png"), Some(OutputFormat::Image(ImageFormat::Png)));
    assert_eq!(parse_output_format("webp"), Some(OutputFormat::Image(ImageFormat::Webp)));
    assert_eq!(parse_output_format("bmp"), Some(OutputFormat::Image(ImageFormat::Bmp)));
    assert_eq!(parse_output_format("tiff"), Some(OutputFormat::Image(ImageFormat::Tiff)));
    assert_eq!(parse_output_format("mp3"), Some(OutputFormat::Audio(AudioFormat::Mp3)));
    assert_eq!(parse_output_format("wav"), Some(OutputFormat::Audio(AudioFormat::Wav)));
    assert_eq!(parse_output_format("aac"), Some(OutputFormat::Audio(AudioFormat::Aac)));
    assert_eq!(parse_output_format("flac"), Some(OutputFormat::Audio(AudioFormat::Flac)));
    assert_eq!(parse_output_format("m4a"), Some(OutputFormat::Audio(AudioFormat::M4a)));
    assert_eq!(parse_output_format("ogg"), Some(OutputFormat::Audio(AudioFormat::Ogg)));
    assert_eq!(parse_output_format("xyz"), None);
    assert_eq!(parse_output_format(""), None);
}

#[test]
fn identifier_parsing_is_case_insensitive() {
    assert_eq!(parse_output_format("MP4"), Some(OutputFormat::Video(VideoFormat::Mp4)));
    assert_eq!(parse_output_format("WebM"), Some(OutputFormat::Video(VideoFormat::Webm)));
}

#[test]
fn extension_matches_each_format() {
    assert_eq!(OutputFormat::Video(VideoFormat::Mp4).extension(), "mp4");
    assert_eq!(OutputFormat::Video(VideoFormat::Webm).extension(), "webm");
    assert_eq!(OutputFormat::Image(ImageFormat::Jpg).extension(), "jpg");
    assert_eq!(OutputFormat::Audio(AudioFormat::M4a).extension(), "m4a");
}

#[test]
fn transparency_only_on_alpha_formats() {
    assert!(OutputFormat::Image(ImageFormat::Png).supports_transparency());
    assert!(OutputFormat::Image(ImageFormat::Webp).supports_transparency());
    assert!(OutputFormat::Video(VideoFormat::Webm).supports_transparency());
    assert!(!OutputFormat::Video(VideoFormat::Mp4).supports_transparency());
    assert!(!OutputFormat::Image(ImageFormat::Jpg).supports_transparency());
    assert!(!OutputFormat::Audio(AudioFormat::Mp3).supports_transparency());
}

#[test]
fn media_type_classification() {
    assert_eq!(MediaType::from_extension("mp4"), Some(MediaType::Video));
    assert_eq!(MediaType::from_extension("JPEG"), Some(MediaType::Image));
    assert_eq!(MediaType::from_extension("flac"), Some(MediaType::Audio));
    assert_eq!(MediaType::from_extension("txt"), None);
}

#[test]
fn error_messages_are_exact() {
    let e = ConversionError::FileConflict { path: String::from("/x/y.mp4") };
    assert_eq!(e.message(), "File already exists: /x/y.mp4");
    let e = ConversionError::FileNotFound { path: String::from("/gone") };
    assert_eq!(e.message(), "File not found: /gone");
    let e = ConversionError::UnsupportedFormat {
        input: String::from("/a.bin"),
        output: String::from("xyz"),
        reason: String::from("unrecognized output format"),
    };
    assert_eq!(e.message(), "Unsupported format: /a.bin -> xyz (unrecognized output format)");
    let e = ConversionError::Cancelled { id: String::from("job-9") };
    assert_eq!(e.message(), "Process cancelled: job-9");
    let e = ConversionError::IoError { message: String::from("broken pipe") };
    assert_eq!(e.message(), "IO error: broken pipe");
    let e = ConversionError::InvalidConfig { message: String::from("bad") };
    assert_eq!(e.message(), "Invalid configuration: bad");
    let e = ConversionError::ThumbnailError { message: String::from("bad") };
    assert_eq!(e.message(), "Thumbnail error: bad");
    let e = ConversionError::Unknown { message: String::from("bad") };
    assert_eq!(e.message(), "Unknown error: bad");
}

#[test]
fn process_error_message_uses_first_line() {
    let e = ConversionError::ProcessError {
        tool: String::from("ffmpeg"),
        exit_code: Some(1),
        stderr: String::from("first line\r\nsecond line"),
    };
    assert_eq!(e.message(), "ffmpeg error (code: Some(1)): first line");
    let e = ConversionError::ProcessError {
        tool: String::from("ffmpeg"),
        exit_code: None,
        stderr: String::new(),
    };
    assert_eq!(e.message(), "ffmpeg error (code: None): Unknown error");
}

#[test]
fn thumbnail_names_are_prefixed_and_suffixed() {
    assert_eq!(thumbs::thumbnail_file_name("job7"), "aether_thumb_job7.jpg");
    assert_eq!(thumbs::get_thumbnail_path("/tmp", "job7"), "/tmp/aether_thumb_job7.jpg");
    assert!(thumbs::is_thumbnail_file_name("aether_thumb_job7.jpg"));
    assert!(!thumbs::is_thumbnail_file_name("other_thumb_job7.jpg"));
    assert!(!thumbs::is_thumbnail_file_name("aether_thumb_job7.png"));
}

#[test]
fn thumbnail_invocations_write_the_returned_path() {
    let (args, path) = thumbs::get_video_thumbnail_args("/in/v.mp4", "id1", "/tmp");
    assert_eq!(path, "/tmp/aether_thumb_id1.jpg");
    assert_eq!(args.first().unwrap(), "-ss");
    assert_eq!(args.last().unwrap(), &path);
    let (args, path) = thumbs::get_image_thumbnail_args("/in/p.png", "id2", "/tmp");
    assert_eq!(path, "/tmp/aether_thumb_id2.jpg");
    assert_eq!(args.first().unwrap(), "-i");
    assert_eq!(args.last().unwrap(), &path);
}

#[test]
fn probe_json_extraction() {
    let json = "{\"streams\": [{\"codec_type\": \"video\", \"bit_rate\": \"800000\"},{\"codec_type\": \"audio\", \"bit_rate\": \"128000\"}],\"format\": {\"duration\": \"12.500000\", \"bit_rate\": \"1000000\"}}";
    let r = probe::parse_probe_json(json).unwrap();
    assert_eq!(r.video_bitrate, Some(800000));
    assert_eq!(r.audio_bitrate, Some(128000));
    assert_eq!(r.duration_us, Some(12_500_000));
}

#[test]
fn probe_format_bitrate_is_video_fallback() {
    let json = "{\"format\": {\"duration\": \"2.0\", \"bit_rate\": \"5000\"}}";
    let r = probe::parse_probe_json(json).unwrap();
    assert_eq!(r.video_bitrate, Some(5000));
    assert_eq!(r.audio_bitrate, None);
    assert_eq!(r.duration_us, Some(2_000_000));
}

#[test]
fn probe_handles_missing_sections() {
    let r = probe::parse_probe_json("{}").unwrap();
    assert_eq!(r.video_bitrate, None);
    assert_eq!(r.audio_bitrate, None);
    assert_eq!(r.duration_us, None);
}

#[test]
fn probe_value_extraction_details() {
    assert_eq!(
        probe::extract_json_string_value("{\"k\": \"v\"}", "k"),
        Some(String::from("v"))
    );
    assert_eq!(
        probe::extract_json_string_value("{\"k\": 42,}", "k"),
        Some(String::from("42"))
    );
    assert_eq!(probe::extract_json_string_value("{\"k\": null}", "k"), None);
    assert_eq!(probe::extract_json_string_value("{}", "k"), None);
}

#[test]
fn probe_streams_array_and_objects() {
    let json = "{\"streams\": [{\"a\": 1}, {\"b\": [2, 3]}]}";
    let content = probe::extract_streams_array(json).unwrap();
    assert_eq!(content, "{\"a\": 1}, {\"b\": [2, 3]}");
    let objs = probe::split_json_objects(&content);
    assert_eq!(objs, vec!["{\"a\": 1}", "{\"b\": [2, 3]}"]);
}
