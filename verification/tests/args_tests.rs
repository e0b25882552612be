use aether_convert::ffmpeg;
use aether_convert::types::{
    AudioFormat, BackgroundColor, ConversionConfig, ImageFormat, OutputFormat, ResizeConfig,
    ResizeMode, VideoFormat,
};

fn base_config(format: OutputFormat) -> ConversionConfig {
    ConversionConfig {
        input_path: String::from("/in/clip.avi"),
        output_path: String::from("/out/clip.new"),
        output_format: format,
        quality_percent: 50,
        resize_config: None,
        is_muted: false,
        strip_metadata: false,
        conflict_mode: String::from("overwrite"),
        max_bitrate: None,
    }
}

#[test]
fn mp4_video_args_exact() {
    let config = base_config(OutputFormat::Video(VideoFormat::Mp4));
    let args = ffmpeg::build_video_args(&config);
    let expected = vec![
        "-i", "/in/clip.avi", "-progress", "pipe:2", "-y", "-ignore_unknown", "-map", "0:v:0",
        "-map", "0:a:0?", "-c:v", "libx264", "-c:a", "aac", "-b:a", "192k", "-crf", "37",
        "-preset", "medium", "-movflags", "+faststart", "-pix_fmt", "yuv420p", "/out/clip.new",
    ];
    assert_eq!(args, expected);
}

#[test]
fn mkv_omits_faststart() {
    let config = base_config(OutputFormat::Video(VideoFormat::Mkv));
    let args = ffmpeg::build_video_args(&config);
    assert!(!args.iter().any(|a| a == "-movflags"));
    assert!(args.iter().any(|a| a == "libx264"));
}

#[test]
fn muted_video_drops_audio_stream() {
    let mut config = base_config(OutputFormat::Video(VideoFormat::Mp4));
    config.is_muted = true;
    let args = ffmpeg::build_video_args(&config);
    assert!(args.iter().any(|a| a == "-an"));
    assert!(!args.iter().any(|a| a == "0:a:0?"));
    assert!(!args.iter().any(|a| a == "aac"));
}

#[test]
fn strip_metadata_adds_chapter_strip() {
    let mut config = base_config(OutputFormat::Video(VideoFormat::Mp4));
    config.strip_metadata = true;
    let args = ffmpeg::build_video_args(&config);
    assert!(args.iter().any(|a| a == "-map_metadata"));
    assert!(args.iter().any(|a| a == "-map_chapters"));
}

#[test]
fn webm_without_ceiling_uses_unconstrained_bitrate() {
    let config = base_config(OutputFormat::Video(VideoFormat::Webm));
    let args = ffmpeg::build_video_args(&config);
    let i = args.iter().position(|a| a == "-b:v").unwrap();
    assert_eq!(args[i + 1], "0");
    assert!(args.iter().any(|a| a == "libvpx-vp9"));
    assert!(args.iter().any(|a| a == "libopus"));
    assert!(args.iter().any(|a| a == "-deadline"));
    assert!(args.iter().any(|a| a == "-row-mt"));
}

#[test]
fn webm_ceiling_switches_to_bitrate_mode() {
    let mut config = base_config(OutputFormat::Video(VideoFormat::Webm));
    config.max_bitrate = Some(1000);
    let args = ffmpeg::build_video_args(&config);
    let i = args.iter().position(|a| a == "-b:v").unwrap();
    assert_eq!(args[i + 1], "1000k");
    let m = args.iter().position(|a| a == "-maxrate").unwrap();
    assert_eq!(args[m + 1], "1000k");
    let b = args.iter().position(|a| a == "-bufsize").unwrap();
    assert_eq!(args[b + 1], "5000k");
}

#[test]
fn h264_ceiling_adds_maxrate_on_top_of_crf() {
    let mut config = base_config(OutputFormat::Video(VideoFormat::Mp4));
    config.max_bitrate = Some(800);
    let args = ffmpeg::build_video_args(&config);
    assert!(args.iter().any(|a| a == "-crf"));
    let m = args.iter().position(|a| a == "-maxrate").unwrap();
    assert_eq!(args[m + 1], "800k");
    let b = args.iter().position(|a| a == "-bufsize").unwrap();
    assert_eq!(args[b + 1], "4000k");
}

#[test]
fn non_overwrite_conflict_uses_no_clobber_flag() {
    let mut config = base_config(OutputFormat::Video(VideoFormat::Mp4));
    config.conflict_mode = String::from("keep_both");
    let args = ffmpeg::build_video_args(&config);
    assert!(args.iter().any(|a| a == "-n"));
    assert!(!args.iter().any(|a| a == "-y"));
}

#[test]
fn mp3_extraction_args_exact() {
    let mut config = base_config(OutputFormat::Audio(AudioFormat::Mp3));
    config.strip_metadata = true;
    let args = ffmpeg::build_audio_extract_args(&config);
    let expected = vec![
        "-i", "/in/clip.avi", "-progress", "pipe:2", "-y", "-map_metadata", "-1", "-vn", "-c:a",
        "libmp3lame", "-q:a", "5", "/out/clip.new",
    ];
    assert_eq!(args, expected);
}

#[test]
fn aac_extraction_uses_bitrate() {
    let config = base_config(OutputFormat::Audio(AudioFormat::Aac));
    let args = ffmpeg::build_audio_extract_args(&config);
    let i = args.iter().position(|a| a == "-b:a").unwrap();
    assert_eq!(args[i + 1], "192k");
    assert!(args.iter().any(|a| a == "aac"));
}

#[test]
fn ogg_extraction_uses_vorbis_scale() {
    let config = base_config(OutputFormat::Audio(AudioFormat::Ogg));
    let args = ffmpeg::build_audio_extract_args(&config);
    assert!(args.iter().any(|a| a == "libvorbis"));
    let i = args.iter().rposition(|a| a == "-q:a").unwrap();
    assert_eq!(args[i + 1], "4");
}

#[test]
fn wav_extraction_has_no_codec_args() {
    let config = base_config(OutputFormat::Audio(AudioFormat::Wav));
    let args = ffmpeg::build_audio_extract_args(&config);
    let expected = vec!["-i", "/in/clip.avi", "-progress", "pipe:2", "-y", "-vn", "/out/clip.new"];
    assert_eq!(args, expected);
}

#[test]
fn jpeg_image_args_exact() {
    let config = base_config(OutputFormat::Image(ImageFormat::Jpg));
    let args = ffmpeg::build_image_args(&config);
    let expected = vec!["-i", "/in/clip.avi", "-y", "-q:v", "17", "/out/clip.new"];
    assert_eq!(args, expected);
}

#[test]
fn webp_image_args_have_photo_preset() {
    let config = base_config(OutputFormat::Image(ImageFormat::Webp));
    let args = ffmpeg::build_image_args(&config);
    let expected = vec![
        "-i", "/in/clip.avi", "-y", "-quality", "56", "-preset", "photo", "-compression_level",
        "6", "/out/clip.new",
    ];
    assert_eq!(args, expected);
}

#[test]
fn png_image_args_use_max_compression() {
    let config = base_config(OutputFormat::Image(ImageFormat::Png));
    let args = ffmpeg::build_image_args(&config);
    let expected = vec!["-i", "/in/clip.avi", "-y", "-compression_level", "9", "/out/clip.new"];
    assert_eq!(args, expected);
}

#[test]
fn resize_fill_rounds_to_even() {
    let resize = ResizeConfig {
        width: 123,
        height: 457,
        mode: ResizeMode::Fill,
        background_color: BackgroundColor::Black,
    };
    let f = ffmpeg::build_resize_filter(&resize, &OutputFormat::Video(VideoFormat::Mp4), true);
    assert_eq!(f, "scale=122:456");
}

#[test]
fn resize_cover_crops_to_box() {
    let resize = ResizeConfig {
        width: 200,
        height: 100,
        mode: ResizeMode::Cover,
        background_color: BackgroundColor::Black,
    };
    let f = ffmpeg::build_resize_filter(&resize, &OutputFormat::Video(VideoFormat::Mp4), true);
    assert_eq!(f, "scale=200:100:force_original_aspect_ratio=increase,crop=200:100");
}

#[test]
fn resize_contain_transparent_on_alpha_video() {
    let resize = ResizeConfig {
        width: 200,
        height: 100,
        mode: ResizeMode::Contain,
        background_color: BackgroundColor::Transparent,
    };
    let f = ffmpeg::build_resize_filter(&resize, &OutputFormat::Video(VideoFormat::Webm), true);
    assert_eq!(
        f,
        "format=yuva420p,scale=200:100:force_original_aspect_ratio=decrease,pad=200:100:(ow-iw)/2:(oh-ih)/2:color=0x00000000"
    );
}

#[test]
fn resize_contain_transparent_on_alpha_image() {
    let resize = ResizeConfig {
        width: 64,
        height: 64,
        mode: ResizeMode::Contain,
        background_color: BackgroundColor::Transparent,
    };
    let f = ffmpeg::build_resize_filter(&resize, &OutputFormat::Image(ImageFormat::Png), false);
    assert!(f.starts_with("format=rgba,"));
}

#[test]
fn resize_contain_transparent_degrades_to_black() {
    let resize = ResizeConfig {
        width: 200,
        height: 100,
        mode: ResizeMode::Contain,
        background_color: BackgroundColor::Transparent,
    };
    let f = ffmpeg::build_resize_filter(&resize, &OutputFormat::Video(VideoFormat::Mp4), true);
    assert_eq!(
        f,
        "scale=200:100:force_original_aspect_ratio=decrease,pad=200:100:(ow-iw)/2:(oh-ih)/2:color=black"
    );
}

#[test]
fn resize_contain_white_background() {
    let resize = ResizeConfig {
        width: 10,
        height: 10,
        mode: ResizeMode::Contain,
        background_color: BackgroundColor::White,
    };
    let f = ffmpeg::build_resize_filter(&resize, &OutputFormat::Image(ImageFormat::Jpg), false);
    assert!(f.ends_with("color=white"));
}

#[test]
fn resize_always_even_for_all_positive_inputs() {
    for w in 1..=64u32 {
        let resize = ResizeConfig {
            width: w,
            height: w + 1,
            mode: ResizeMode::Fill,
            background_color: BackgroundColor::Black,
        };
        let f = ffmpeg::build_resize_filter(&resize, &OutputFormat::Video(VideoFormat::Mp4), true);
        let dims: Vec<u32> = f
            .trim_start_matches("scale=")
            .split(':')
            .map(|d| d.parse().unwrap())
            .collect();
        assert_eq!(dims[0] % 2, 0);
        assert_eq!(dims[1] % 2, 0);
    }
}

#[test]
fn thumbnail_args_seek_one_second() {
    let args = ffmpeg::build_thumbnail_args("/in/v.mp4", "/tmp/t.jpg");
    let expected = vec![
        "-ss", "00:00:01", "-i", "/in/v.mp4", "-vframes", "1", "-vf", "scale=120:-1", "-y",
        "/tmp/t.jpg",
    ];
    assert_eq!(args, expected);
}

#[test]
fn image_thumbnail_args_have_no_seek() {
    let args = ffmpeg::build_image_thumbnail_args("/in/p.png", "/tmp/t.jpg");
    let expected =
        vec!["-i", "/in/p.png", "-vframes", "1", "-vf", "scale=120:-1", "-y", "/tmp/t.jpg"];
    assert_eq!(args, expected);
}
