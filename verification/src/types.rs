//! Core data model: target formats, conversion configuration, events and
//! results.

use vstd::prelude::*;
use crate::quality;
use crate::strutil;

verus! {

#[derive(Clone, Copy, Debug, PartialEq, Eq, Structural)]
pub enum VideoFormat {
    Mp4,
    Mkv,
    Mov,
    Webm,
    Avi,
    Wmv,
    M4v,
    Flv,
}

#[derive(Clone, Copy, Debug, PartialEq, Eq, Structural)]
pub enum ImageFormat {
    Jpg,
    Png,
    Webp,
    Bmp,
    Tiff,
}

#[derive(Clone, Copy, Debug, PartialEq, Eq, Structural)]
pub enum AudioFormat {
    Mp3,
    Wav,
    Aac,
    Flac,
    M4a,
    Ogg,
}

#[derive(Clone, Copy, Debug, PartialEq, Eq, Structural)]
pub enum OutputFormat {
    Video(VideoFormat),
    Image(ImageFormat),
    Audio(AudioFormat),
}

#[derive(Clone, Copy, Debug, PartialEq, Eq, Structural)]
pub enum MediaType {
    Video,
    Image,
    Audio,
}

#[derive(Clone, Copy, Debug, PartialEq, Eq, Structural)]
pub enum ResizeMode {
    Fill,
    Cover,
    Contain,
}

#[derive(Clone, Copy, Debug, PartialEq, Eq, Structural)]
pub enum BackgroundColor {
    Transparent,
    Black,
    White,
}

#[derive(Clone, Debug)]
pub enum NamingBlock {
    Original,
    Prefix { value: String },
    Random { length: u8 },
    Date,
}

#[derive(Clone, Copy, Debug, PartialEq, Eq, Structural)]
pub struct ResizeConfig {
    pub width: u32,
    pub height: u32,
    pub mode: ResizeMode,
    pub background_color: BackgroundColor,
}

impl ResizeConfig {
    /// Width and height must be positive.
    pub open spec fn wf(self) -> bool {
        self.width > 0 && self.height > 0
    }
}

#[derive(Clone, Debug)]
pub struct NamingConfig {
    pub blocks: Vec<NamingBlock>,
    pub sanitize_enabled: bool,
}

impl Default for NamingConfig {
    /// The default pipeline keeps the original stem unchanged.
    fn default() -> (r: Self)
        ensures
            r.blocks@.len() == 1,
            r.blocks@[0] is Original,
            !r.sanitize_enabled,
    {
        NamingConfig { blocks: vec![NamingBlock::Original], sanitize_enabled: false }
    }
}

#[derive(Clone, Debug)]
pub struct ConversionRequest {
    pub id: String,
    pub input_path: String,
    pub output_format: String,
    pub quality_percent: u8,
    pub strip_metadata: bool,
    pub is_muted: bool,
    pub resize_config: Option<ResizeConfig>,
    pub naming_config: Option<NamingConfig>,
    pub output_directory: Option<String>,
    pub conflict_mode: String,
    pub processing_enabled: bool,
    pub max_bitrate: Option<u32>,
}

#[derive(Clone, Debug)]
pub struct ConversionConfig {
    pub input_path: String,
    pub output_path: String,
    pub output_format: OutputFormat,
    pub quality_percent: u8,
    pub resize_config: Option<ResizeConfig>,
    pub is_muted: bool,
    pub strip_metadata: bool,
    pub conflict_mode: String,
    pub max_bitrate: Option<u32>,
}

/// The mathematical content of a conversion configuration: every string
/// field as its character sequence.
pub ghost struct ConversionConfigView {
    pub input_path: Seq<char>,
    pub output_path: Seq<char>,
    pub output_format: OutputFormat,
    pub quality_percent: u8,
    pub resize_config: Option<ResizeConfig>,
    pub is_muted: bool,
    pub strip_metadata: bool,
    pub conflict_mode: Seq<char>,
    pub max_bitrate: Option<u32>,
}

impl View for ConversionConfig {
    type V = ConversionConfigView;

    open spec fn view(&self) -> ConversionConfigView {
        ConversionConfigView {
            input_path: self.input_path@,
            output_path: self.output_path@,
            output_format: self.output_format,
            quality_percent: self.quality_percent,
            resize_config: self.resize_config,
            is_muted: self.is_muted,
            strip_metadata: self.strip_metadata,
            conflict_mode: self.conflict_mode@,
            max_bitrate: self.max_bitrate,
        }
    }
}

#[derive(Clone, Copy, Debug, PartialEq, Eq, Structural)]
pub enum ProcessStatus {
    Pending,
    Processing,
    Completed,
    Error,
    Cancelled,
    Conflict,
}

#[derive(Clone, Debug)]
pub struct ProgressEvent {
    pub id: String,
    pub progress: u8,
    pub status: ProcessStatus,
    pub message: Option<String>,
}

#[derive(Clone, Debug)]
pub struct ConversionResult {
    pub id: String,
    pub success: bool,
    pub output_path: Option<String>,
    pub error_message: Option<String>,
}

#[derive(Clone, Debug)]
pub struct ThumbnailRequest {
    pub id: String,
    pub input_path: String,
    pub media_type: MediaType,
}

#[derive(Clone, Debug)]
pub struct ThumbnailResult {
    pub id: String,
    pub thumbnail_path: Option<String>,
    pub success: bool,
    pub error_message: Option<String>,
}

#[derive(Clone, Debug)]
pub struct FileInfo {
    pub path: String,
    pub name: String,
    pub size: u64,
    pub media_type: MediaType,
}

#[derive(Clone, Debug)]
pub struct FileInfoResult {
    pub path: String,
    pub info: Option<FileInfo>,
    pub error: Option<String>,
}

impl OutputFormat {
    /// The canonical file extension of each target format.
    pub open spec fn extension_spec(self) -> Seq<char> {
        match self {
            OutputFormat::Video(VideoFormat::Mp4) => "mp4"@,
            OutputFormat::Video(VideoFormat::Mkv) => "mkv"@,
            OutputFormat::Video(VideoFormat::Mov) => "mov"@,
            OutputFormat::Video(VideoFormat::Webm) => "webm"@,
            OutputFormat::Video(VideoFormat::Avi) => "avi"@,
            OutputFormat::Video(VideoFormat::Wmv) => "wmv"@,
            OutputFormat::Video(VideoFormat::M4v) => "m4v"@,
            OutputFormat::Video(VideoFormat::Flv) => "flv"@,
            OutputFormat::Image(ImageFormat::Jpg) => "jpg"@,
            OutputFormat::Image(ImageFormat::Png) => "png"@,
            OutputFormat::Image(ImageFormat::Webp) => "webp"@,
            OutputFormat::Image(ImageFormat::Bmp) => "bmp"@,
            OutputFormat::Image(ImageFormat::Tiff) => "tiff"@,
            OutputFormat::Audio(AudioFormat::Mp3) => "mp3"@,
            OutputFormat::Audio(AudioFormat::Wav) => "wav"@,
            OutputFormat::Audio(AudioFormat::Aac) => "aac"@,
            OutputFormat::Audio(AudioFormat::Flac) => "flac"@,
            OutputFormat::Audio(AudioFormat::M4a) => "m4a"@,
            OutputFormat::Audio(AudioFormat::Ogg) => "ogg"@,
        }
    }

    /// Returns the canonical file extension.
    pub fn extension(&self) -> (r: &'static str)
        ensures
            r@ == self.extension_spec(),
    {
        match self {
            OutputFormat::Video(VideoFormat::Mp4) => "mp4",
            OutputFormat::Video(VideoFormat::Mkv) => "mkv",
            OutputFormat::Video(VideoFormat::Mov) => "mov",
            OutputFormat::Video(VideoFormat::Webm) => "webm",
            OutputFormat::Video(VideoFormat::Avi) => "avi",
            OutputFormat::Video(VideoFormat::Wmv) => "wmv",
            OutputFormat::Video(VideoFormat::M4v) => "m4v",
            OutputFormat::Video(VideoFormat::Flv) => "flv",
            OutputFormat::Image(ImageFormat::Jpg) => "jpg",
            OutputFormat::Image(ImageFormat::Png) => "png",
            OutputFormat::Image(ImageFormat::Webp) => "webp",
            OutputFormat::Image(ImageFormat::Bmp) => "bmp",
            OutputFormat::Image(ImageFormat::Tiff) => "tiff",
            OutputFormat::Audio(AudioFormat::Mp3) => "mp3",
            OutputFormat::Audio(AudioFormat::Wav) => "wav",
            OutputFormat::Audio(AudioFormat::Aac) => "aac",
            OutputFormat::Audio(AudioFormat::Flac) => "flac",
            OutputFormat::Audio(AudioFormat::M4a) => "m4a",
            OutputFormat::Audio(AudioFormat::Ogg) => "ogg",
        }
    }

    /// Only PNG, WebP and WebM targets can carry an alpha channel.
    pub open spec fn supports_transparency_spec(self) -> bool {
        self == OutputFormat::Image(ImageFormat::Png) || self == OutputFormat::Image(
            ImageFormat::Webp,
        ) || self == OutputFormat::Video(VideoFormat::Webm)
    }

    /// Whether the target format can carry an alpha channel.
    pub fn supports_transparency(&self) -> (r: bool)
        ensures
            r == self.supports_transparency_spec(),
    {
        match self {
            OutputFormat::Image(ImageFormat::Png) => true,
            OutputFormat::Image(ImageFormat::Webp) => true,
            OutputFormat::Video(VideoFormat::Webm) => true,
            _ => false,
        }
    }
}

/// Maps an already-lowercased extension to its media family.
pub open spec fn media_type_from_ext_spec(l: Seq<char>) -> Option<MediaType> {
    if l == "mp4"@ || l == "mkv"@ || l == "mov"@ || l == "webm"@ || l == "avi"@ || l == "wmv"@ || l
        == "m4v"@ || l == "flv"@ {
        Some(MediaType::Video)
    } else if l == "jpg"@ || l == "jpeg"@ || l == "png"@ || l == "webp"@ || l == "bmp"@ || l
        == "tiff"@ {
        Some(MediaType::Image)
    } else if l == "mp3"@ || l == "wav"@ || l == "aac"@ || l == "flac"@ || l == "m4a"@ || l
        == "ogg"@ {
        Some(MediaType::Audio)
    } else {
        None
    }
}

impl MediaType {
    /// Classifies a file extension (case-insensitively) as video, image or
    /// audio.
    pub fn from_extension(extension: &str) -> (r: Option<MediaType>)
        ensures
            r == media_type_from_ext_spec(strutil::lower_seq_spec(extension@)),
    {
        let low = strutil::lower_str(extension);
        let l = low.as_str();
        if strutil::str_eq(l, "mp4") || strutil::str_eq(l, "mkv") || strutil::str_eq(l, "mov")
            || strutil::str_eq(l, "webm") || strutil::str_eq(l, "avi") || strutil::str_eq(l, "wmv")
            || strutil::str_eq(l, "m4v") || strutil::str_eq(l, "flv") {
            Some(MediaType::Video)
        } else if strutil::str_eq(l, "jpg") || strutil::str_eq(l, "jpeg") || strutil::str_eq(
            l,
            "png",
        ) || strutil::str_eq(l, "webp") || strutil::str_eq(l, "bmp") || strutil::str_eq(l, "tiff") {
            Some(MediaType::Image)
        } else if strutil::str_eq(l, "mp3") || strutil::str_eq(l, "wav") || strutil::str_eq(
            l,
            "aac",
        ) || strutil::str_eq(l, "flac") || strutil::str_eq(l, "m4a") || strutil::str_eq(l, "ogg") {
            Some(MediaType::Audio)
        } else {
            None
        }
    }
}

/// Maps an already-lowercased format identifier to a target format.
pub open spec fn output_format_from_ident_spec(l: Seq<char>) -> Option<OutputFormat> {
    if l == "mp4"@ {
        Some(OutputFormat::Video(VideoFormat::Mp4))
    } else if l == "mkv"@ {
        Some(OutputFormat::Video(VideoFormat::Mkv))
    } else if l == "mov"@ {
        Some(OutputFormat::Video(VideoFormat::Mov))
    } else if l == "webm"@ {
        Some(OutputFormat::Video(VideoFormat::Webm))
    } else if l == "avi"@ {
        Some(OutputFormat::Video(VideoFormat::Avi))
    } else if l == "wmv"@ {
        Some(OutputFormat::Video(VideoFormat::Wmv))
    } else if l == "m4v"@ {
        Some(OutputFormat::Video(VideoFormat::M4v))
    } else if l == "flv"@ {
        Some(OutputFormat::Video(VideoFormat::Flv))
    } else if l == "jpg"@ || l == "jpeg"@ {
        Some(OutputFormat::Image(ImageFormat::Jpg))
    } else if l == "png"@ {
        Some(OutputFormat::Image(ImageFormat::Png))
    } else if l == "webp"@ {
        Some(OutputFormat::Image(ImageFormat::Webp))
    } else if l == "bmp"@ {
        Some(OutputFormat::Image(ImageFormat::Bmp))
    } else if l == "tiff"@ {
        Some(OutputFormat::Image(ImageFormat::Tiff))
    } else if l == "mp3"@ {
        Some(OutputFormat::Audio(AudioFormat::Mp3))
    } else if l == "wav"@ {
        Some(OutputFormat::Audio(AudioFormat::Wav))
    } else if l == "aac"@ {
        Some(OutputFormat::Audio(AudioFormat::Aac))
    } else if l == "flac"@ {
        Some(OutputFormat::Audio(AudioFormat::Flac))
    } else if l == "m4a"@ {
        Some(OutputFormat::Audio(AudioFormat::M4a))
    } else if l == "ogg"@ {
        Some(OutputFormat::Audio(AudioFormat::Ogg))
    } else {
        None
    }
}

/// Resolves a requested format identifier (case-insensitively) to a target
/// format.
pub fn parse_output_format(s: &str) -> (r: Option<OutputFormat>)
    ensures
        r == output_format_from_ident_spec(strutil::lower_seq_spec(s@)),
{
    let low = strutil::lower_str(s);
    let l = low.as_str();
    if strutil::str_eq(l, "mp4") {
        Some(OutputFormat::Video(VideoFormat::Mp4))
    } else if strutil::str_eq(l, "mkv") {
        Some(OutputFormat::Video(VideoFormat::Mkv))
    } else if strutil::str_eq(l, "mov") {
        Some(OutputFormat::Video(VideoFormat::Mov))
    } else if strutil::str_eq(l, "webm") {
        Some(OutputFormat::Video(VideoFormat::Webm))
    } else if strutil::str_eq(l, "avi") {
        Some(OutputFormat::Video(VideoFormat::Avi))
    } else if strutil::str_eq(l, "wmv") {
        Some(OutputFormat::Video(VideoFormat::Wmv))
    } else if strutil::str_eq(l, "m4v") {
        Some(OutputFormat::Video(VideoFormat::M4v))
    } else if strutil::str_eq(l, "flv") {
        Some(OutputFormat::Video(VideoFormat::Flv))
    } else if strutil::str_eq(l, "jpg") || strutil::str_eq(l, "jpeg") {
        Some(OutputFormat::Image(ImageFormat::Jpg))
    } else if strutil::str_eq(l, "png") {
        Some(OutputFormat::Image(ImageFormat::Png))
    } else if strutil::str_eq(l, "webp") {
        Some(OutputFormat::Image(ImageFormat::Webp))
    } else if strutil::str_eq(l, "bmp") {
        Some(OutputFormat::Image(ImageFormat::Bmp))
    } else if strutil::str_eq(l, "tiff") {
        Some(OutputFormat::Image(ImageFormat::Tiff))
    } else if strutil::str_eq(l, "mp3") {
        Some(OutputFormat::Audio(AudioFormat::Mp3))
    } else if strutil::str_eq(l, "wav") {
        Some(OutputFormat::Audio(AudioFormat::Wav))
    } else if strutil::str_eq(l, "aac") {
        Some(OutputFormat::Audio(AudioFormat::Aac))
    } else if strutil::str_eq(l, "flac") {
        Some(OutputFormat::Audio(AudioFormat::Flac))
    } else if strutil::str_eq(l, "m4a") {
        Some(OutputFormat::Audio(AudioFormat::M4a))
    } else if strutil::str_eq(l, "ogg") {
        Some(OutputFormat::Audio(AudioFormat::Ogg))
    } else {
        None
    }
}

/// The `(low, high)` constant-quality range of each codec family.
pub open spec fn crf_range_spec(f: OutputFormat) -> (int, int) {
    match f {
        OutputFormat::Video(VideoFormat::Webm) => (31int, 63int),
        OutputFormat::Video(VideoFormat::Avi) => (3int, 31int),
        OutputFormat::Video(VideoFormat::Wmv) => (3int, 31int),
        _ => (23int, 51int),
    }
}

/// The constant-quality value of a configuration.
pub open spec fn calculate_crf_spec(f: OutputFormat, q: int) -> int {
    quality::crf_spec(crf_range_spec(f).0, crf_range_spec(f).1, q)
}

impl ConversionConfig {
    /// Quality is a percentage; a resize specification must have positive
    /// dimensions.
    pub open spec fn wf(self) -> bool {
        &&& self.quality_percent <= 100
        &&& match self.resize_config {
            Some(r) => r.wf(),
            None => true,
        }
    }

    /// Maps the quality percentage to the target codec's constant-quality
    /// value (or qscale value for the codecs that use that scale).
    pub fn calculate_crf(&self) -> (r: u8)
        requires
            self.quality_percent <= 100,
        ensures
            r as int == calculate_crf_spec(self.output_format, self.quality_percent as int),
    {
        match self.output_format {
            OutputFormat::Video(VideoFormat::Webm) => quality::crf_for_quality(
                31,
                63,
                self.quality_percent,
            ),
            OutputFormat::Video(VideoFormat::Avi) => quality::crf_for_quality(
                3,
                31,
                self.quality_percent,
            ),
            OutputFormat::Video(VideoFormat::Wmv) => quality::crf_for_quality(
                3,
                31,
                self.quality_percent,
            ),
            _ => quality::crf_for_quality(23, 51, self.quality_percent),
        }
    }
}

} // verus!
