//! Temporary-thumbnail bookkeeping: the well-known file name keyed by job
//! id, and the argument vectors that produce thumbnails.

use vstd::prelude::*;
use vstd::string::*;
use crate::ffmpeg;
use crate::strutil;

verus! {

/// `aether_thumb_<id>.jpg`: the temporary thumbnail name for a job id.
pub open spec fn thumbnail_name_spec(file_id: Seq<char>) -> Seq<char> {
    "aether_thumb_"@ + file_id + ".jpg"@
}

/// Builds the temporary thumbnail file name for a job id.
pub fn thumbnail_file_name(file_id: &str) -> (r: String)
    ensures
        r@ == thumbnail_name_spec(file_id@),
{
    let mut s = String::from_str("aether_thumb_");
    s.append(file_id);
    s.append(".jpg");
    s
}

/// The full path of a job's temporary thumbnail below the temporary
/// directory.
pub open spec fn thumbnail_path_spec(temp_dir: Seq<char>, file_id: Seq<char>) -> Seq<char> {
    temp_dir + "/"@ + thumbnail_name_spec(file_id)
}

/// Builds the full temporary-thumbnail path for a job id.
pub fn get_thumbnail_path(temp_dir: &str, file_id: &str) -> (r: String)
    ensures
        r@ == thumbnail_path_spec(temp_dir@, file_id@),
{
    let mut s = String::from_str(temp_dir);
    s.append("/");
    let name = thumbnail_file_name(file_id);
    s.append(name.as_str());
    s
}

/// Whether a directory entry is one of this crate's temporary thumbnails,
/// for the bulk cleanup sweep.
pub fn is_thumbnail_file_name(name: &str) -> (r: bool)
    ensures
        r == (strutil::has_prefix(name@, "aether_thumb_"@) && strutil::has_suffix(
            name@,
            ".jpg"@,
        )),
{
    strutil::str_starts_with(name, "aether_thumb_") && strutil::str_ends_with(name, ".jpg")
}

/// Synthesizes the video-thumbnail invocation for a job and returns it
/// with the thumbnail path it writes.
pub fn get_video_thumbnail_args(input_path: &str, file_id: &str, temp_dir: &str) -> (r: (
    Vec<String>,
    String,
))
    ensures
        r.1@ == thumbnail_path_spec(temp_dir@, file_id@),
        r.0@.map_values(|s: String| s@) == ffmpeg::thumbnail_args_spec(input_path@, r.1@),
{
    let output_path = get_thumbnail_path(temp_dir, file_id);
    let args = ffmpeg::build_thumbnail_args(input_path, output_path.as_str());
    (args, output_path)
}

/// Synthesizes the still-image-thumbnail invocation for a job and returns
/// it with the thumbnail path it writes.
pub fn get_image_thumbnail_args(input_path: &str, file_id: &str, temp_dir: &str) -> (r: (
    Vec<String>,
    String,
))
    ensures
        r.1@ == thumbnail_path_spec(temp_dir@, file_id@),
        r.0@.map_values(|s: String| s@) == ffmpeg::image_thumbnail_args_spec(input_path@, r.1@),
{
    let output_path = get_thumbnail_path(temp_dir, file_id);
    let args = ffmpeg::build_image_thumbnail_args(input_path, output_path.as_str());
    (args, output_path)
}

} // verus!
