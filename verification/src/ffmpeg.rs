//! Argument synthesis for the external transcoder, the resize-filter
//! compiler, and the diagnostic-stream parsers for duration and progress.

use vstd::prelude::*;
use vstd::string::*;
use crate::quality;
use crate::strutil;
use crate::types::AudioFormat;
use crate::types::BackgroundColor;
use crate::types::ConversionConfig;
use crate::types::ConversionConfigView;
use crate::types::ImageFormat;
use crate::types::OutputFormat;
use crate::types::ResizeConfig;
use crate::types::ResizeMode;
use crate::types::VideoFormat;

verus! {

// ---------------------------------------------------------------------------
// Ordered argument accumulator
// ---------------------------------------------------------------------------

struct ArgBuilder {
    args: Vec<String>,
}

impl View for ArgBuilder {
    type V = Seq<Seq<char>>;

    closed spec fn view(&self) -> Seq<Seq<char>> {
        self.args@.map_values(|s: String| s@)
    }
}

impl ArgBuilder {
    fn new() -> (r: Self)
        ensures
            r@ == Seq::<Seq<char>>::empty(),
    {
        let r = ArgBuilder { args: Vec::new() };
        proof {
            assert(r@ =~= Seq::<Seq<char>>::empty());
        }
        r
    }

    fn push1(&mut self, a: &str)
        ensures
            final(self)@ == old(self)@.push(a@),
    {
        self.args.push(a.to_owned());
        proof {
            assert(self@ =~= old(self)@.push(a@));
        }
    }

    fn push1_string(&mut self, a: String)
        ensures
            final(self)@ == old(self)@.push(a@),
    {
        let ghost v = a@;
        self.args.push(a);
        proof {
            assert(self@ =~= old(self)@.push(v));
        }
    }

    fn push2(&mut self, k: &str, v: &str)
        ensures
            final(self)@ == old(self)@ + seq![k@, v@],
    {
        self.push1(k);
        self.push1(v);
        proof {
            assert(self@ =~= old(self)@ + seq![k@, v@]);
        }
    }

    fn push2_string(&mut self, k: &str, v: String)
        ensures
            final(self)@ == old(self)@ + seq![k@, v@],
    {
        let ghost vv = v@;
        self.push1(k);
        self.push1_string(v);
        proof {
            assert(self@ =~= old(self)@ + seq![k@, vv]);
        }
    }

    fn into_args(self) -> (r: Vec<String>)
        ensures
            r@.map_values(|s: String| s@) == self@,
    {
        self.args
    }
}

// ---------------------------------------------------------------------------
// Small rendering helpers
// ---------------------------------------------------------------------------

/// Decimal rendering of `n` followed by `k` (a kbps argument value).
pub open spec fn kbps_spec(n: int) -> Seq<char> {
    strutil::dec_spec(n as nat) + "k"@
}

fn kbps_string(n: u64) -> (r: String)
    ensures
        r@ == kbps_spec(n as int),
{
    let d = strutil::u64_to_dec(n);
    d.concat("k")
}

fn dec_string(n: u64) -> (r: String)
    ensures
        r@ == strutil::dec_spec(n as nat),
{
    strutil::u64_to_dec(n)
}

// ---------------------------------------------------------------------------
// Resize filter compiler
// ---------------------------------------------------------------------------

/// Width rounded down to the nearest even integer, as required by
/// chroma-subsampled pixel formats.
pub open spec fn even_dim_spec(w: int) -> int {
    (w / 2) * 2
}

/// Every compiled dimension is even.
pub proof fn lemma_even_dim(w: int)
    ensures
        even_dim_spec(w) % 2 == 0,
    decreases 0int,
{
    assert((w / 2) * 2 % 2 == 0) by (nonlinear_arith);
}

/// The background color name used when padding without alpha; a transparent
/// request degrades to black when the format cannot carry alpha.
pub open spec fn pad_color_spec(bg: BackgroundColor) -> Seq<char> {
    match bg {
        BackgroundColor::Black => "black"@,
        BackgroundColor::White => "white"@,
        BackgroundColor::Transparent => "black"@,
    }
}

/// The compiled filter-graph expression for a resize specification.
pub open spec fn resize_filter_spec(r: ResizeConfig, f: OutputFormat, is_video: bool) -> Seq<
    char,
> {
    let w = strutil::dec_spec(even_dim_spec(r.width as int) as nat);
    let h = strutil::dec_spec(even_dim_spec(r.height as int) as nat);
    match r.mode {
        ResizeMode::Fill => "scale="@ + w + ":"@ + h,
        ResizeMode::Cover => "scale="@ + w + ":"@ + h + ":force_original_aspect_ratio=increase,crop="@
            + w + ":"@ + h,
        ResizeMode::Contain => {
            if f.supports_transparency_spec() && r.background_color
                == BackgroundColor::Transparent {
                "format="@ + (if is_video {
                    "yuva420p"@
                } else {
                    "rgba"@
                }) + ",scale="@ + w + ":"@ + h + ":force_original_aspect_ratio=decrease,pad="@ + w
                    + ":"@ + h + ":(ow-iw)/2:(oh-ih)/2:color=0x00000000"@
            } else {
                "scale="@ + w + ":"@ + h + ":force_original_aspect_ratio=decrease,pad="@ + w + ":"@
                    + h + ":(ow-iw)/2:(oh-ih)/2:color="@ + pad_color_spec(r.background_color)
            }
        },
    }
}

/// Compiles a resize specification to a filter-graph expression.
pub fn build_resize_filter(resize: &ResizeConfig, output_format: &OutputFormat, is_video: bool) -> (
    r: String)
    ensures
        r@ == resize_filter_spec(*resize, *output_format, is_video),
{
    let w = dec_string(((resize.width / 2) * 2) as u64);
    let h = dec_string(((resize.height / 2) * 2) as u64);
    match resize.mode {
        ResizeMode::Fill => {
            let mut s = String::from_str("scale=");
            s.append(w.as_str());
            s.append(":");
            s.append(h.as_str());
            s
        },
        ResizeMode::Cover => {
            let mut s = String::from_str("scale=");
            s.append(w.as_str());
            s.append(":");
            s.append(h.as_str());
            s.append(":force_original_aspect_ratio=increase,crop=");
            s.append(w.as_str());
            s.append(":");
            s.append(h.as_str());
            s
        },
        ResizeMode::Contain => {
            let transparent_pad = output_format.supports_transparency() && matches!(
                resize.background_color,
                BackgroundColor::Transparent
            );
            if transparent_pad {
                let mut s = String::from_str("format=");
                s.append(if is_video { "yuva420p" } else { "rgba" });
                s.append(",scale=");
                s.append(w.as_str());
                s.append(":");
                s.append(h.as_str());
                s.append(":force_original_aspect_ratio=decrease,pad=");
                s.append(w.as_str());
                s.append(":");
                s.append(h.as_str());
                s.append(":(ow-iw)/2:(oh-ih)/2:color=0x00000000");
                s
            } else {
                let mut s = String::from_str("scale=");
                s.append(w.as_str());
                s.append(":");
                s.append(h.as_str());
                s.append(":force_original_aspect_ratio=decrease,pad=");
                s.append(w.as_str());
                s.append(":");
                s.append(h.as_str());
                s.append(":(ow-iw)/2:(oh-ih)/2:color=");
                s.append(match resize.background_color {
                    BackgroundColor::Black => "black",
                    BackgroundColor::White => "white",
                    BackgroundColor::Transparent => "black",
                });
                s
            }
        },
    }
}

// ---------------------------------------------------------------------------
// Argument synthesis
// ---------------------------------------------------------------------------

/// Overwrite (`-y`) or refuse-to-overwrite (`-n`), depending on whether the
/// conflict policy was already resolved to `overwrite`.
pub open spec fn overwrite_flag_spec(conflict_mode: Seq<char>) -> Seq<char> {
    if conflict_mode == "overwrite"@ {
        "-y"@
    } else {
        "-n"@
    }
}

/// The shared head of a video invocation: input, progress channel,
/// overwrite flag, metadata/chapter stripping, muting, stream mapping and
/// the optional resize filter.
pub open spec fn video_head_spec(c: ConversionConfigView) -> Seq<Seq<char>> {
    seq!["-i"@, c.input_path, "-progress"@, "pipe:2"@, overwrite_flag_spec(c.conflict_mode)]
        + (if c.strip_metadata {
        seq!["-map_metadata"@, "-1"@, "-map_chapters"@, "-1"@]
    } else {
        Seq::empty()
    }) + (if c.is_muted {
        seq!["-an"@]
    } else {
        Seq::empty()
    }) + seq!["-ignore_unknown"@, "-map"@, "0:v:0"@] + (if !c.is_muted {
        seq!["-map"@, "0:a:0?"@]
    } else {
        Seq::empty()
    }) + (match c.resize_config {
        Some(r) => seq!["-vf"@, resize_filter_spec(r, c.output_format, true)],
        None => Seq::empty(),
    })
}

/// Audio codec selection and bitrate for a video target (absent when muted).
pub open spec fn video_audio_spec(c: ConversionConfigView, codec: Seq<char>) -> Seq<Seq<char>> {
    if !c.is_muted {
        seq!["-c:a"@, codec, "-b:a"@, kbps_spec(quality::audio_bitrate_spec(c.quality_percent as int))]
    } else {
        Seq::empty()
    }
}

/// The decimal rendering of the configuration's constant-quality value.
pub open spec fn crf_str_spec(c: ConversionConfigView) -> Seq<char> {
    strutil::dec_spec(crate::types::calculate_crf_spec(c.output_format, c.quality_percent as int) as nat)
}

/// VP9/Opus arguments for the WebM target.
pub open spec fn webm_codec_spec(c: ConversionConfigView) -> Seq<Seq<char>> {
    seq!["-c:v"@, "libvpx-vp9"@] + video_audio_spec(c, "libopus"@) + seq!["-crf"@, crf_str_spec(c)]
        + (match c.max_bitrate {
        Some(m) => seq![
            "-b:v"@,
            kbps_spec(m as int),
            "-maxrate"@,
            kbps_spec(m as int),
            "-bufsize"@,
            kbps_spec(5 * m as int),
        ],
        None => seq!["-b:v"@, "0"@],
    }) + seq!["-deadline"@, "good"@, "-cpu-used"@, "2"@, "-row-mt"@, "1"@, "-pix_fmt"@, "yuv420p"@]
}

/// H.264/AAC arguments for the MP4, MKV and MOV targets.
pub open spec fn h264_codec_spec(c: ConversionConfigView, faststart: bool) -> Seq<Seq<char>> {
    seq!["-c:v"@, "libx264"@] + video_audio_spec(c, "aac"@) + seq![
        "-crf"@,
        crf_str_spec(c),
        "-preset"@,
        quality::x264_preset_spec(c.quality_percent as int),
    ] + (if faststart {
        seq!["-movflags"@, "+faststart"@]
    } else {
        Seq::empty()
    }) + seq!["-pix_fmt"@, "yuv420p"@]
}

/// The per-format codec section of a video invocation.
pub open spec fn video_codec_spec(c: ConversionConfigView) -> Seq<Seq<char>> {
    match c.output_format {
        OutputFormat::Video(VideoFormat::Webm) => webm_codec_spec(c),
        OutputFormat::Video(VideoFormat::Mp4) => h264_codec_spec(c, true),
        OutputFormat::Video(VideoFormat::Mkv) => h264_codec_spec(c, false),
        OutputFormat::Video(VideoFormat::Mov) => h264_codec_spec(c, true),
        _ => Seq::empty(),
    }
}

/// The bitrate ceiling applied on top of constant-quality mode for the
/// H.264 targets.
pub open spec fn video_maxrate_spec(c: ConversionConfigView) -> Seq<Seq<char>> {
    match c.max_bitrate {
        Some(m) => {
            if c.output_format == OutputFormat::Video(VideoFormat::Mp4) || c.output_format
                == OutputFormat::Video(VideoFormat::Mkv) || c.output_format == OutputFormat::Video(
                VideoFormat::Mov,
            ) {
                seq!["-maxrate"@, kbps_spec(m as int), "-bufsize"@, kbps_spec(5 * m as int)]
            } else {
                Seq::empty()
            }
        },
        None => Seq::empty(),
    }
}

/// The full ordered argument vector for a video conversion.
pub open spec fn video_args_spec(c: ConversionConfigView) -> Seq<Seq<char>> {
    video_head_spec(c) + video_codec_spec(c) + video_maxrate_spec(c) + seq![c.output_path]
}

/// Appends the per-format codec section of a video invocation.
#[verifier::rlimit(50)]
#[verifier::spinoff_prover]
fn push_video_codec(b: &mut ArgBuilder, config: &ConversionConfig)
    requires
        config.wf(),
    ensures
        final(b)@ == old(b)@ + video_codec_spec(config@),
{
    let ghost head = b@;
    match config.output_format {
        OutputFormat::Video(VideoFormat::Webm) => {
            b.push2("-c:v", "libvpx-vp9");
            if !config.is_muted {
                b.push2("-c:a", "libopus");
                b.push2_string("-b:a", kbps_string(quality::audio_bitrate_kbps(
                    config.quality_percent,
                ) as u64));
            }
            b.push2_string("-crf", dec_string(config.calculate_crf() as u64));
            match config.max_bitrate {
                Some(m) => {
                    b.push2_string("-b:v", kbps_string(m as u64));
                    b.push2_string("-maxrate", kbps_string(m as u64));
                    b.push2_string("-bufsize", kbps_string(5 * (m as u64)));
                },
                None => {
                    b.push2("-b:v", "0");
                },
            }
            b.push2("-deadline", "good");
            b.push2("-cpu-used", "2");
            b.push2("-row-mt", "1");
            b.push2("-pix_fmt", "yuv420p");
            proof {
                assert(b@ =~= head + webm_codec_spec(config@));
            }
        },
        OutputFormat::Video(VideoFormat::Mp4) | OutputFormat::Video(VideoFormat::Mkv)
            | OutputFormat::Video(VideoFormat::Mov) => {
            let faststart = !matches!(config.output_format, OutputFormat::Video(VideoFormat::Mkv));
            b.push2("-c:v", "libx264");
            if !config.is_muted {
                b.push2("-c:a", "aac");
                b.push2_string("-b:a", kbps_string(quality::audio_bitrate_kbps(
                    config.quality_percent,
                ) as u64));
            }
            b.push2_string("-crf", dec_string(config.calculate_crf() as u64));
            b.push2("-preset", quality::x264_preset(config.quality_percent));
            if faststart {
                b.push2("-movflags", "+faststart");
            }
            b.push2("-pix_fmt", "yuv420p");
            proof {
                assert(b@ =~= head + h264_codec_spec(config@, faststart));
            }
        },
        _ => {
            proof {
                assert(b@ =~= head + video_codec_spec(config@));
            }
        },
    }
}

/// Synthesizes the transcoder arguments for a video conversion.
#[verifier::rlimit(50)]
#[verifier::spinoff_prover]
pub fn build_video_args(config: &ConversionConfig) -> (r: Vec<String>)
    requires
        config.wf(),
    ensures
        r@.map_values(|s: String| s@) == video_args_spec(config@),
{
    let mut b = ArgBuilder::new();
    b.push2("-i", config.input_path.as_str());
    b.push2("-progress", "pipe:2");
    if strutil::str_eq(config.conflict_mode.as_str(), "overwrite") {
        b.push1("-y");
    } else {
        b.push1("-n");
    }
    if config.strip_metadata {
        b.push2("-map_metadata", "-1");
        b.push2("-map_chapters", "-1");
    }
    if config.is_muted {
        b.push1("-an");
    }
    b.push1("-ignore_unknown");
    b.push2("-map", "0:v:0");
    if !config.is_muted {
        b.push2("-map", "0:a:0?");
    }
    match &config.resize_config {
        Some(resize) => {
            let filter = build_resize_filter(resize, &config.output_format, true);
            b.push2_string("-vf", filter);
        },
        None => {},
    }
    proof {
        assert(b@ =~= video_head_spec(config@));
    }
    push_video_codec(&mut b, config);
    let ghost with_codec = b@;

    match config.max_bitrate {
        Some(m) => {
            let is_crf_codec = matches!(
                config.output_format,
                OutputFormat::Video(VideoFormat::Mp4) | OutputFormat::Video(VideoFormat::Mkv)
                    | OutputFormat::Video(VideoFormat::Mov)
            );
            if is_crf_codec {
                b.push2_string("-maxrate", kbps_string(m as u64));
                b.push2_string("-bufsize", kbps_string(5 * (m as u64)));
            }
        },
        None => {},
    }
    proof {
        assert(b@ =~= with_codec + video_maxrate_spec(config@));
    }
    b.push1(config.output_path.as_str());
    proof {
        assert(b@ =~= video_args_spec(config@));
    }
    b.into_args()
}

/// The full ordered argument vector for an audio extraction.
pub open spec fn audio_args_spec(c: ConversionConfigView) -> Seq<Seq<char>> {
    seq!["-i"@, c.input_path, "-progress"@, "pipe:2"@, overwrite_flag_spec(c.conflict_mode)] + (
    if c.strip_metadata {
        seq!["-map_metadata"@, "-1"@]
    } else {
        Seq::empty()
    }) + seq!["-vn"@] + (match c.output_format {
        OutputFormat::Audio(AudioFormat::Mp3) => seq![
            "-c:a"@,
            "libmp3lame"@,
            "-q:a"@,
            strutil::dec_spec(quality::mp3_quality_spec(c.quality_percent as int) as nat),
        ],
        OutputFormat::Audio(AudioFormat::Aac) | OutputFormat::Audio(AudioFormat::M4a) => seq![
            "-c:a"@,
            "aac"@,
            "-b:a"@,
            kbps_spec(quality::audio_bitrate_spec(c.quality_percent as int)),
        ],
        OutputFormat::Audio(AudioFormat::Ogg) => seq![
            "-c:a"@,
            "libvorbis"@,
            "-q:a"@,
            strutil::dec_spec(quality::ogg_quality_spec(c.quality_percent as int) as nat),
        ],
        _ => Seq::empty(),
    }) + seq![c.output_path]
}

/// Synthesizes the transcoder arguments for an audio extraction.
pub fn build_audio_extract_args(config: &ConversionConfig) -> (r: Vec<String>)
    requires
        config.wf(),
    ensures
        r@.map_values(|s: String| s@) == audio_args_spec(config@),
{
    let mut b = ArgBuilder::new();
    b.push2("-i", config.input_path.as_str());
    b.push2("-progress", "pipe:2");
    if strutil::str_eq(config.conflict_mode.as_str(), "overwrite") {
        b.push1("-y");
    } else {
        b.push1("-n");
    }
    if config.strip_metadata {
        b.push2("-map_metadata", "-1");
    }
    b.push1("-vn");
    match config.output_format {
        OutputFormat::Audio(AudioFormat::Mp3) => {
            b.push2("-c:a", "libmp3lame");
            b.push2_string("-q:a", dec_string(quality::mp3_quality(config.quality_percent) as u64));
        },
        OutputFormat::Audio(AudioFormat::Aac) | OutputFormat::Audio(AudioFormat::M4a) => {
            b.push2("-c:a", "aac");
            b.push2_string("-b:a", kbps_string(quality::audio_bitrate_kbps(
                config.quality_percent,
            ) as u64));
        },
        OutputFormat::Audio(AudioFormat::Ogg) => {
            b.push2("-c:a", "libvorbis");
            b.push2_string("-q:a", dec_string(quality::ogg_quality(config.quality_percent) as u64));
        },
        _ => {},
    }
    b.push1(config.output_path.as_str());
    proof {
        assert(b@ =~= audio_args_spec(config@));
    }
    b.into_args()
}

/// The full ordered argument vector for an image conversion.
pub open spec fn image_args_spec(c: ConversionConfigView) -> Seq<Seq<char>> {
    seq!["-i"@, c.input_path, overwrite_flag_spec(c.conflict_mode)] + (match c.resize_config {
        Some(r) => seq!["-vf"@, resize_filter_spec(r, c.output_format, false)],
        None => Seq::empty(),
    }) + (match c.output_format {
        OutputFormat::Image(ImageFormat::Jpg) => seq![
            "-q:v"@,
            strutil::dec_spec(quality::jpeg_qscale_spec(c.quality_percent as int) as nat),
        ],
        OutputFormat::Image(ImageFormat::Webp) => seq![
            "-quality"@,
            strutil::dec_spec(quality::webp_quality_spec(c.quality_percent as int) as nat),
            "-preset"@,
            "photo"@,
            "-compression_level"@,
            "6"@,
        ],
        OutputFormat::Image(ImageFormat::Png) => seq!["-compression_level"@, "9"@],
        _ => Seq::empty(),
    }) + seq![c.output_path]
}

/// Synthesizes the transcoder arguments for an image conversion.
pub fn build_image_args(config: &ConversionConfig) -> (r: Vec<String>)
    requires
        config.wf(),
    ensures
        r@.map_values(|s: String| s@) == image_args_spec(config@),
{
    let mut b = ArgBuilder::new();
    b.push2("-i", config.input_path.as_str());
    if strutil::str_eq(config.conflict_mode.as_str(), "overwrite") {
        b.push1("-y");
    } else {
        b.push1("-n");
    }
    match &config.resize_config {
        Some(resize) => {
            let filter = build_resize_filter(resize, &config.output_format, false);
            b.push2_string("-vf", filter);
        },
        None => {},
    }
    match config.output_format {
        OutputFormat::Image(ImageFormat::Jpg) => {
            b.push2_string("-q:v", dec_string(quality::jpeg_qscale(config.quality_percent) as u64));
        },
        OutputFormat::Image(ImageFormat::Webp) => {
            b.push2_string("-quality", dec_string(quality::webp_quality(
                config.quality_percent,
            ) as u64));
            b.push2("-preset", "photo");
            b.push2("-compression_level", "6");
        },
        OutputFormat::Image(ImageFormat::Png) => {
            b.push2("-compression_level", "9");
        },
        _ => {},
    }
    b.push1(config.output_path.as_str());
    proof {
        assert(b@ =~= image_args_spec(config@));
    }
    b.into_args()
}

/// The argument vector that grabs one video frame one second in, scaled to
/// a 120-pixel-wide thumbnail.
pub open spec fn thumbnail_args_spec(input: Seq<char>, output: Seq<char>) -> Seq<Seq<char>> {
    seq![
        "-ss"@,
        "00:00:01"@,
        "-i"@,
        input,
        "-vframes"@,
        "1"@,
        "-vf"@,
        "scale=120:-1"@,
        "-y"@,
        output,
    ]
}

/// Synthesizes the arguments for a video thumbnail grab.
pub fn build_thumbnail_args(input_path: &str, output_path: &str) -> (r: Vec<String>)
    ensures
        r@.map_values(|s: String| s@) == thumbnail_args_spec(input_path@, output_path@),
{
    let mut b = ArgBuilder::new();
    b.push2("-ss", "00:00:01");
    b.push2("-i", input_path);
    b.push2("-vframes", "1");
    b.push2("-vf", "scale=120:-1");
    b.push1("-y");
    b.push1(output_path);
    proof {
        assert(b@ =~= thumbnail_args_spec(input_path@, output_path@));
    }
    b.into_args()
}

/// The argument vector for a still-image thumbnail (no seek).
pub open spec fn image_thumbnail_args_spec(input: Seq<char>, output: Seq<char>) -> Seq<Seq<char>> {
    seq!["-i"@, input, "-vframes"@, "1"@, "-vf"@, "scale=120:-1"@, "-y"@, output]
}

/// Synthesizes the arguments for a still-image thumbnail.
pub fn build_image_thumbnail_args(input_path: &str, output_path: &str) -> (r: Vec<String>)
    ensures
        r@.map_values(|s: String| s@) == image_thumbnail_args_spec(input_path@, output_path@),
{
    let mut b = ArgBuilder::new();
    b.push2("-i", input_path);
    b.push2("-vframes", "1");
    b.push2("-vf", "scale=120:-1");
    b.push1("-y");
    b.push1(output_path);
    proof {
        assert(b@ =~= image_thumbnail_args_spec(input_path@, output_path@));
    }
    b.into_args()
}

// ---------------------------------------------------------------------------
// Diagnostic-stream parsing
// ---------------------------------------------------------------------------

/// Microseconds represented by the fraction digits after a decimal point
/// (truncated past microsecond precision).
pub open spec fn frac_micros_spec(fr: Seq<char>) -> int {
    if fr.len() >= 6 {
        strutil::digits_value(fr.subrange(0, 6)) as int
    } else {
        (strutil::digits_value(fr) * strutil::pow10_spec((6 - fr.len()) as nat)) as int
    }
}

/// A decimal number with an optional fraction, in microseconds.  `None`
/// when the text is not such a number or the value does not fit.
pub open spec fn num_micros_spec(p: Seq<char>) -> Option<int> {
    match strutil::find_index_spec(p, "."@) {
        None => {
            if p.len() > 0 && strutil::all_digits(p) && strutil::digits_value(p) * 1000000
                <= u64::MAX {
                Some((strutil::digits_value(p) * 1000000) as int)
            } else {
                None
            }
        },
        Some(i) => {
            let ip = p.subrange(0, i);
            let fp = p.subrange(i + 1, p.len() as int);
            if (ip.len() + fp.len() > 0) && strutil::all_digits(ip) && strutil::all_digits(fp)
                && strutil::digits_value(ip) * 1000000 + frac_micros_spec(fp) <= u64::MAX {
                Some(strutil::digits_value(ip) * 1000000 + frac_micros_spec(fp))
            } else {
                None
            }
        },
    }
}

/// An `HH:MM:SS[.frac]` time (exactly three colon-separated number parts),
/// in microseconds.
pub open spec fn time_micros_spec(t: Seq<char>) -> Option<int> {
    match strutil::find_index_spec(t, ":"@) {
        None => None,
        Some(i) => {
            let rest1 = t.subrange(i + 1, t.len() as int);
            match strutil::find_index_spec(rest1, ":"@) {
                None => None,
                Some(j) => {
                    let rest2 = rest1.subrange(j + 1, rest1.len() as int);
                    if strutil::find_index_spec(rest2, ":"@) is None {
                        match (
                            num_micros_spec(t.subrange(0, i)),
                            num_micros_spec(rest1.subrange(0, j)),
                            num_micros_spec(rest2),
                        ) {
                            (Some(hu), Some(mu), Some(su)) => {
                                if hu * 3600 + mu * 60 + su <= u64::MAX {
                                    Some(hu * 3600 + mu * 60 + su)
                                } else {
                                    None
                                }
                            },
                            _ => None,
                        }
                    } else {
                        None
                    }
                },
            }
        },
    }
}

/// Parses the fraction digits of a number into microseconds.
fn frac_micros(fr: &str) -> (r: Option<u64>)
    ensures
        match r {
            Some(v) => strutil::all_digits(fr@) && v as int == frac_micros_spec(fr@),
            None => !strutil::all_digits(fr@),
        },
{
    let n: usize = fr.unicode_len();
    let mut i: usize = 0;
    // check that every character is a digit first
    while i < n
        invariant
            n == fr@.len(),
            i <= n,
            forall|k: int| 0 <= k < i ==> strutil::is_digit_char(#[trigger] fr@[k]),
        decreases n - i,
    {
        let c = fr.get_char(i);
        if !(c >= '0' && c <= '9') {
            return None;
        }
        i = i + 1;
    }
    let take: usize = if n >= 6 {
        6
    } else {
        n
    };
    let mut acc: u64 = 0;
    let mut j: usize = 0;
    while j < take
        invariant
            n == fr@.len(),
            take <= 6,
            take <= n,
            j <= take,
            strutil::all_digits(fr@),
            acc as nat == strutil::digits_value(fr@.subrange(0, j as int)),
            acc < 1000000,
        decreases take - j,
    {
        let c = fr.get_char(j);
        let d: u64 = ((c as u32) as u64) - 48;
        proof {
            let t = fr@.subrange(0, j + 1);
            assert(t.drop_last() =~= fr@.subrange(0, j as int));
            assert(strutil::digits_value(fr@.subrange(0, j as int)) < strutil::pow10_spec(
                j as nat,
            )) by {
                lemma_digits_value_bound(fr@.subrange(0, j as int));
            }
            assert(strutil::pow10_spec(5) == 100000) by {
                reveal_with_fuel(strutil::pow10_spec, 7);
            }
            lemma_pow10_mono(j as nat, 5);
        }
        acc = acc * 10 + d;
        j = j + 1;
    }
    if n >= 6 {
        proof {
            assert(fr@.subrange(0, 6) =~= fr@.subrange(0, take as int));
        }
        Some(acc)
    } else {
        let scale = strutil::pow10_small((6 - n) as u8);
        proof {
            assert(fr@.subrange(0, take as int) =~= fr@);
            assert(acc < 1000000);
            assert(scale <= 1000000) by {
                reveal_with_fuel(strutil::pow10_spec, 8);
                lemma_pow10_mono((6 - n) as nat, 6);
            }
        }
        proof {
            assert((acc as int) * (scale as int) < 1000000000000) by (nonlinear_arith)
                requires
                    acc < 1000000,
                    scale <= 1000000,
            ;
        }
        Some(acc * scale)
    }
}

/// The value of a digit string is below `pow10` of its length.
proof fn lemma_digits_value_bound(s: Seq<char>)
    requires
        strutil::all_digits(s),
    ensures
        strutil::digits_value(s) < strutil::pow10_spec(s.len() as nat),
    decreases s.len(),
{
    if s.len() == 0 {
    } else {
        assert(strutil::all_digits(s.drop_last())) by {
            assert(forall|i: int|
                0 <= i < s.len() - 1 ==> strutil::is_digit_char(#[trigger] s.drop_last()[i]));
        }
        lemma_digits_value_bound(s.drop_last());
        assert(strutil::is_digit_char(s.last()));
        assert(s.last() as nat - 48 < 10);
        assert(strutil::digits_value(s.drop_last()) * 10 + 9 < strutil::pow10_spec(
            s.len() as nat,
        )) by {
            assert(strutil::pow10_spec(s.len() as nat) == 10 * strutil::pow10_spec(
                (s.len() - 1) as nat,
            ));
            assert(strutil::digits_value(s.drop_last()) + 1 <= strutil::pow10_spec(
                (s.len() - 1) as nat,
            ));
            assert((strutil::digits_value(s.drop_last()) + 1) * 10 <= strutil::pow10_spec(
                (s.len() - 1) as nat,
            ) * 10) by (nonlinear_arith)
                requires
                    strutil::digits_value(s.drop_last()) + 1 <= strutil::pow10_spec(
                        (s.len() - 1) as nat,
                    ),
            ;
            assert(strutil::pow10_spec((s.len() - 1) as nat) * 10 == 10 * strutil::pow10_spec(
                (s.len() - 1) as nat,
            )) by (nonlinear_arith);
            assert((strutil::digits_value(s.drop_last()) + 1) * 10 == strutil::digits_value(
                s.drop_last(),
            ) * 10 + 10) by (nonlinear_arith);
        }
    }
}

/// Powers of ten are monotone in the exponent.
proof fn lemma_pow10_mono(a: nat, b: nat)
    requires
        a <= b,
    ensures
        strutil::pow10_spec(a) <= strutil::pow10_spec(b),
    decreases b,
{
    if a < b {
        lemma_pow10_mono(a, (b - 1) as nat);
        assert(strutil::pow10_spec(b) == 10 * strutil::pow10_spec((b - 1) as nat));
        assert(strutil::pow10_spec((b - 1) as nat) <= 10 * strutil::pow10_spec((b - 1) as nat))
            by (nonlinear_arith)
            requires
                strutil::pow10_spec((b - 1) as nat) >= 0,
        ;
    }
}

/// Parses a decimal number with an optional fraction into microseconds.
pub fn num_micros(p: &str) -> (r: Option<u64>)
    ensures
        match r {
            Some(v) => num_micros_spec(p@) == Some(v as int),
            None => num_micros_spec(p@) is None,
        },
{
    let n: usize = p.unicode_len();
    proof {
        reveal_strlit(".");
    }
    match strutil::find_sub(p, ".") {
        None => {
            match strutil::parse_u64_digits(p) {
                Some(v) => {
                    if v <= u64::MAX / 1000000 {
                        proof {
                            assert(v as int * 1000000 <= u64::MAX) by (nonlinear_arith)
                                requires
                                    v <= u64::MAX / 1000000,
                            ;
                        }
                        Some(v * 1000000)
                    } else {
                        proof {
                            assert(v as int * 1000000 > u64::MAX) by (nonlinear_arith)
                                requires
                                    v > u64::MAX / 1000000,
                            ;
                        }
                        None
                    }
                },
                None => None,
            }
        },
        Some(i) => {
            let ip = p.substring_char(0, i);
            let fp = p.substring_char(i + 1, n);
            if ip.unicode_len() == 0 && fp.unicode_len() == 0 {
                return None;
            }
            let ipv: u64 = if ip.unicode_len() == 0 {
                proof {
                    assert(strutil::digits_value(ip@) == 0);
                }
                0
            } else {
                match strutil::parse_u64_digits(ip) {
                    Some(v) => v,
                    None => {
                        proof {
                            if strutil::all_digits(ip@) {
                                assert(strutil::digits_value(ip@) > u64::MAX);
                                assert(frac_micros_spec(fp@) >= 0) by {
                                    lemma_frac_micros_nonneg(fp@);
                                }
                                assert(strutil::digits_value(ip@) * 1000000 >= strutil::digits_value(
                                    ip@,
                                )) by (nonlinear_arith)
                                    requires
                                        strutil::digits_value(ip@) >= 0,
                                ;
                            }
                        }
                        return None;
                    },
                }
            };
            let fpv: u64 = match frac_micros(fp) {
                Some(v) => v,
                None => {
                    return None;
                },
            };
            proof {
                lemma_frac_micros_range(fp@);
            }
            if ipv <= (u64::MAX - fpv) / 1000000 {
                proof {
                    assert(ipv as int * 1000000 <= u64::MAX - fpv) by (nonlinear_arith)
                        requires
                            ipv <= (u64::MAX - fpv) / 1000000,
                            fpv <= u64::MAX,
                    ;
                }
                Some(ipv * 1000000 + fpv)
            } else {
                proof {
                    assert(ipv as int * 1000000 + fpv > u64::MAX) by (nonlinear_arith)
                        requires
                            ipv > (u64::MAX - fpv) / 1000000,
                            fpv <= u64::MAX,
                    ;
                }
                None
            }
        },
    }
}

proof fn lemma_frac_micros_nonneg(fr: Seq<char>)
    ensures
        frac_micros_spec(fr) >= 0,
{
    if fr.len() >= 6 {
    } else {
        assert(strutil::digits_value(fr) * strutil::pow10_spec((6 - fr.len()) as nat) >= 0)
            by (nonlinear_arith)
            requires
                strutil::digits_value(fr) >= 0,
                strutil::pow10_spec((6 - fr.len()) as nat) >= 0,
        ;
    }
}

proof fn lemma_frac_micros_range(fr: Seq<char>)
    requires
        strutil::all_digits(fr),
    ensures
        0 <= frac_micros_spec(fr) < 1000000,
{
    assert(strutil::pow10_spec(6) == 1000000) by {
        reveal_with_fuel(strutil::pow10_spec, 8);
    }
    if fr.len() >= 6 {
        let t = fr.subrange(0, 6);
        assert(strutil::all_digits(t)) by {
            assert(forall|i: int| 0 <= i < 6 ==> strutil::is_digit_char(#[trigger] t[i]));
        }
        lemma_digits_value_bound(t);
    } else {
        lemma_digits_value_bound(fr);
        let k = (6 - fr.len()) as nat;
        assert(strutil::digits_value(fr) + 1 <= strutil::pow10_spec(fr.len() as nat));
        assert(strutil::pow10_spec(fr.len() as nat) * strutil::pow10_spec(k) == 1000000) by {
            lemma_pow10_add(fr.len() as nat, k);
        }
        assert((strutil::digits_value(fr) + 1) * strutil::pow10_spec(k) <= strutil::pow10_spec(
            fr.len() as nat,
        ) * strutil::pow10_spec(k)) by (nonlinear_arith)
            requires
                strutil::digits_value(fr) + 1 <= strutil::pow10_spec(fr.len() as nat),
                strutil::pow10_spec(k) >= 0,
        ;
        assert((strutil::digits_value(fr) + 1) * strutil::pow10_spec(k) == strutil::digits_value(fr)
            * strutil::pow10_spec(k) + strutil::pow10_spec(k)) by (nonlinear_arith);
        assert(strutil::pow10_spec(k) >= 1) by {
            lemma_pow10_mono(0, k);
        }
        assert(strutil::digits_value(fr) * strutil::pow10_spec(k) >= 0) by (nonlinear_arith)
            requires
                strutil::digits_value(fr) >= 0,
                strutil::pow10_spec(k) >= 0,
        ;
    }
}

proof fn lemma_pow10_add(a: nat, b: nat)
    ensures
        strutil::pow10_spec(a) * strutil::pow10_spec(b) == strutil::pow10_spec(a + b),
    decreases a,
{
    if a == 0 {
        assert(strutil::pow10_spec(0) == 1);
    } else {
        lemma_pow10_add((a - 1) as nat, b);
        assert(strutil::pow10_spec(a) == 10 * strutil::pow10_spec((a - 1) as nat));
        assert(strutil::pow10_spec(a + b) == 10 * strutil::pow10_spec((a + b - 1) as nat));
        assert((10 * strutil::pow10_spec((a - 1) as nat)) * strutil::pow10_spec(b) == 10 * (
        strutil::pow10_spec((a - 1) as nat) * strutil::pow10_spec(b))) by (nonlinear_arith);
    }
}

/// Parses an `HH:MM:SS[.frac]` time into microseconds.
pub fn parse_time_to_micros(t: &str) -> (r: Option<u64>)
    ensures
        match r {
            Some(v) => time_micros_spec(t@) == Some(v as int),
            None => time_micros_spec(t@) is None,
        },
{
    let n: usize = t.unicode_len();
    proof {
        reveal_strlit(":");
    }
    let i = match strutil::find_sub(t, ":") {
        Some(i) => i,
        None => {
            return None;
        },
    };
    let hours_part = t.substring_char(0, i);
    let rest1 = t.substring_char(i + 1, n);
    let r1n: usize = rest1.unicode_len();
    let j = match strutil::find_sub(rest1, ":") {
        Some(j) => j,
        None => {
            return None;
        },
    };
    let mins_part = rest1.substring_char(0, j);
    let rest2 = rest1.substring_char(j + 1, r1n);
    match strutil::find_sub(rest2, ":") {
        Some(_) => {
            return None;
        },
        None => {},
    }
    let hu = match num_micros(hours_part) {
        Some(v) => v,
        None => {
            return None;
        },
    };
    let mu = match num_micros(mins_part) {
        Some(v) => v,
        None => {
            return None;
        },
    };
    let su = match num_micros(rest2) {
        Some(v) => v,
        None => {
            return None;
        },
    };
    let total: u128 = (hu as u128) * 3600 + (mu as u128) * 60 + (su as u128);
    if total > 0xFFFF_FFFF_FFFF_FFFFu128 {
        None
    } else {
        Some(total as u64)
    }
}

/// The parsed total duration of a `Duration: HH:MM:SS.cc,` announcement,
/// in microseconds.
pub open spec fn parse_duration_spec(l: Seq<char>) -> Option<int> {
    match strutil::find_index_spec(l, "Duration: "@) {
        None => None,
        Some(d) => {
            let rest = l.subrange(d + 10, l.len() as int);
            match strutil::find_index_spec(rest, ","@) {
                None => None,
                Some(c) => time_micros_spec(rest.subrange(0, c)),
            }
        },
    }
}

/// Extracts the total duration from a duration announcement line.
pub fn parse_duration(line: &str) -> (r: Option<u64>)
    ensures
        match r {
            Some(v) => parse_duration_spec(line@) == Some(v as int),
            None => parse_duration_spec(line@) is None,
        },
{
    let n: usize = line.unicode_len();
    proof {
        reveal_strlit("Duration: ");
        reveal_strlit(",");
    }
    let d = match strutil::find_sub(line, "Duration: ") {
        Some(d) => d,
        None => {
            return None;
        },
    };
    let rest = line.substring_char(d + 10, n);
    let rn: usize = rest.unicode_len();
    let c = match strutil::find_sub(rest, ",") {
        Some(c) => c,
        None => {
            return None;
        },
    };
    parse_time_to_micros(rest.substring_char(0, c))
}

/// `min(100, current*100/total)`: the clamped progress percentage.
pub open spec fn progress_pct_spec(cur: int, total: int) -> int {
    if cur * 100 / total >= 100 {
        100
    } else {
        cur * 100 / total
    }
}

/// Computes the clamped progress percentage.
pub fn progress_pct(cur: u64, total: u64) -> (r: u8)
    requires
        total > 0,
    ensures
        r as int == progress_pct_spec(cur as int, total as int),
        r <= 100,
{
    let p: u128 = (cur as u128) * 100 / (total as u128);
    if p >= 100 {
        100
    } else {
        p as u8
    }
}

/// The machine-readable microsecond progress stage.
pub open spec fn stage_us_spec(l: Seq<char>, total: Option<u64>) -> Option<int> {
    let v = strutil::trim_spec(l.subrange("out_time_us="@.len() as int, l.len() as int));
    if v.len() > 0 && strutil::all_digits(v) && strutil::digits_value(v) <= u64::MAX {
        match total {
            Some(t) => {
                if t > 0 {
                    Some(progress_pct_spec(strutil::digits_value(v) as int, t as int))
                } else {
                    None
                }
            },
            None => None,
        }
    } else {
        None
    }
}

/// The machine-readable formatted-time progress stage.
pub open spec fn stage_time_spec(l: Seq<char>, total: Option<u64>) -> Option<int> {
    match time_micros_spec(l.subrange("out_time="@.len() as int, l.len() as int)) {
        Some(cur) => {
            match total {
                Some(t) => {
                    if t > 0 {
                        Some(progress_pct_spec(cur, t as int))
                    } else {
                        None
                    }
                },
                None => None,
            }
        },
        None => None,
    }
}

/// The human-readable inline `time=` progress stage.
pub open spec fn stage_inline_spec(l: Seq<char>, total: Option<u64>) -> Option<int> {
    match strutil::find_index_spec(l, "time="@) {
        None => None,
        Some(i) => {
            let ts = l.subrange(i + 5, l.len() as int);
            let tv = match strutil::find_index_spec(ts, " "@) {
                Some(e) => ts.subrange(0, e),
                None => ts,
            };
            match time_micros_spec(tv) {
                Some(cur) => {
                    match total {
                        Some(t) => {
                            if t > 0 {
                                Some(progress_pct_spec(cur, t as int))
                            } else {
                                None
                            }
                        },
                        None => None,
                    }
                },
                None => None,
            }
        },
    }
}

/// The progress percentage of a diagnostic line, given the known total
/// duration: the three supported encodings are tried in order.
pub open spec fn parse_progress_spec(l: Seq<char>, total: Option<u64>) -> Option<int> {
    if strutil::has_prefix(l, "out_time_us="@) && stage_us_spec(l, total) is Some {
        stage_us_spec(l, total)
    } else if strutil::has_prefix(l, "out_time="@) && stage_time_spec(l, total) is Some {
        stage_time_spec(l, total)
    } else {
        stage_inline_spec(l, total)
    }
}

/// Extracts the clamped progress percentage from a diagnostic line.
pub fn parse_progress(line: &str, duration_us: Option<u64>) -> (r: Option<u8>)
    ensures
        match r {
            Some(p) => parse_progress_spec(line@, duration_us) == Some(p as int) && p <= 100,
            None => parse_progress_spec(line@, duration_us) is None,
        },
{
    proof {
        reveal_strlit("out_time_us=");
        reveal_strlit("out_time=");
        reveal_strlit("time=");
        reveal_strlit(" ");
    }
    match strutil::strip_prefix_str(line, "out_time_us=") {
        Some(v) => {
            match strutil::parse_u64_digits(strutil::trim_ws(v)) {
                Some(us) => {
                    match duration_us {
                        Some(t) => {
                            if t > 0 {
                                return Some(progress_pct(us, t));
                            }
                        },
                        None => {},
                    }
                },
                None => {},
            }
        },
        None => {},
    }
    match strutil::strip_prefix_str(line, "out_time=") {
        Some(v) => {
            match parse_time_to_micros(v) {
                Some(cur) => {
                    match duration_us {
                        Some(t) => {
                            if t > 0 {
                                return Some(progress_pct(cur, t));
                            }
                        },
                        None => {},
                    }
                },
                None => {},
            }
        },
        None => {},
    }
    let n: usize = line.unicode_len();
    match strutil::find_sub(line, "time=") {
        Some(i) => {
            let ts = line.substring_char(i + 5, n);
            let tsn: usize = ts.unicode_len();
            let tv = match strutil::find_sub(ts, " ") {
                Some(e) => ts.substring_char(0, e),
                None => ts,
            };
            match parse_time_to_micros(tv) {
                Some(cur) => {
                    match duration_us {
                        Some(t) => {
                            if t > 0 {
                                return Some(progress_pct(cur, t));
                            }
                            None
                        },
                        None => None,
                    }
                },
                None => None,
            }
        },
        None => None,
    }
}

} // verus!
