//! Quality-percent to codec-parameter mappings.
//!
//! Every mapping is a deterministic integer function of the quality
//! percentage (0..=100).  The constant-quality formula shared by the
//! CRF/qscale codecs is `high - (quality/100)*(high-low)` rounded down,
//! clamped to the codec's `[low, high]` range; the per-codec `(low, high)`
//! pairs live with the argument synthesizer.

use vstd::prelude::*;

verus! {

use vstd::arithmetic::div_mod::lemma_div_is_ordered;
use vstd::arithmetic::div_mod::lemma_div_multiples_vanish_fancy;
use vstd::arithmetic::mul::lemma_mul_inequality;

/// `high - (q/100)*(high-low)`, rounded down to the nearest integer.
pub open spec fn crf_spec(low: int, high: int, q: int) -> int {
    high - ((high - low) * q + 99) / 100
}

/// Audio bitrate in kbps for video targets and AAC extraction:
/// `64 + q*256/100`, clamped to `[128, 320]`.
pub open spec fn audio_bitrate_spec(q: int) -> int {
    let raw = 64 + 256 * q / 100;
    if raw < 128 {
        128
    } else if raw > 320 {
        320
    } else {
        raw
    }
}

/// MP3 quality scale (lower is better): `round((100-q)/100*9)`, at most 9.
pub open spec fn mp3_quality_spec(q: int) -> int {
    let raw = ((100 - q) * 9 + 50) / 100;
    if raw > 9 {
        9
    } else {
        raw
    }
}

/// Vorbis quality scale: `round(q/100*8)`, clamped to `[1, 8]`.
pub open spec fn ogg_quality_spec(q: int) -> int {
    let raw = (8 * q + 50) / 100;
    if raw < 1 {
        1
    } else if raw > 8 {
        8
    } else {
        raw
    }
}

/// JPEG qscale (lower is better): `31 - floor(q/100*29)`, at least 2.
pub open spec fn jpeg_qscale_spec(q: int) -> int {
    let raw = 31 - 29 * q / 100;
    if raw < 2 {
        2
    } else {
        raw
    }
}

/// WebP quality: `20 + q*72/100`, capped at 92.
pub open spec fn webp_quality_spec(q: int) -> int {
    let raw = 20 + 72 * q / 100;
    if raw > 92 {
        92
    } else {
        raw
    }
}

/// Shared helper: `(span * q + 99) / 100` is at most `span` for `q <= 100`.
proof fn lemma_scaled_le_span(span: int, q: int)
    requires
        0 <= span,
        0 <= q <= 100,
    ensures
        0 <= (span * q + 99) / 100 <= span,
{
    lemma_mul_inequality(q, 100, span);
    assert(span * q == q * span && span * 100 == 100 * span) by (nonlinear_arith);
    lemma_div_is_ordered(0, span * q + 99, 100);
    lemma_div_is_ordered(span * q + 99, 100 * span + 99, 100);
    lemma_div_multiples_vanish_fancy(span, 99, 100);
}

/// The constant-quality value always lies in the codec's `[low, high]` range.
pub proof fn lemma_crf_in_range(low: int, high: int, q: int)
    requires
        0 <= low <= high,
        0 <= q <= 100,
    ensures
        low <= crf_spec(low, high, q) <= high,
{
    lemma_scaled_le_span(high - low, q);
}

/// The constant-quality value never increases as quality increases
/// (lower CRF means higher fidelity).
pub proof fn lemma_crf_monotonic(low: int, high: int, q1: int, q2: int)
    requires
        0 <= low <= high,
        0 <= q1 <= q2 <= 100,
    ensures
        crf_spec(low, high, q2) <= crf_spec(low, high, q1),
{
    lemma_mul_inequality(q1, q2, high - low);
    assert((high - low) * q1 == q1 * (high - low)) by (nonlinear_arith);
    assert((high - low) * q2 == q2 * (high - low)) by (nonlinear_arith);
    lemma_div_is_ordered((high - low) * q1 + 99, (high - low) * q2 + 99, 100);
}

/// The audio bitrate stays within `[128, 320]` kbps and never decreases
/// as quality increases.
pub proof fn lemma_audio_bitrate_bounds(q1: int, q2: int)
    requires
        0 <= q1 <= q2 <= 100,
    ensures
        128 <= audio_bitrate_spec(q1) <= 320,
        audio_bitrate_spec(q1) <= audio_bitrate_spec(q2),
{
    lemma_div_is_ordered(0, 256 * q1, 100);
    lemma_div_is_ordered(256 * q1, 256 * q2, 100);
    lemma_div_is_ordered(256 * q2, 25600, 100);
    assert(25600int / 100 == 256);
}

/// The MP3 quality value stays within `[0, 9]` and never increases as
/// quality increases (lower is better on this codec's scale).
pub proof fn lemma_mp3_quality_bounds(q1: int, q2: int)
    requires
        0 <= q1 <= q2 <= 100,
    ensures
        0 <= mp3_quality_spec(q1) <= 9,
        mp3_quality_spec(q2) <= mp3_quality_spec(q1),
{
    lemma_mul_inequality(100 - q2, 100 - q1, 9);
    assert((100 - q1) * 9 == 9 * (100 - q1)) by (nonlinear_arith);
    assert((100 - q2) * 9 == 9 * (100 - q2)) by (nonlinear_arith);
    lemma_div_is_ordered(0, (100 - q2) * 9 + 50, 100);
    lemma_div_is_ordered((100 - q2) * 9 + 50, (100 - q1) * 9 + 50, 100);
    lemma_div_is_ordered((100 - q1) * 9 + 50, 950, 100);
    assert(950int / 100 == 9);
}

/// The Vorbis quality value stays within `[1, 8]` and never decreases as
/// quality increases.
pub proof fn lemma_ogg_quality_bounds(q1: int, q2: int)
    requires
        0 <= q1 <= q2 <= 100,
    ensures
        1 <= ogg_quality_spec(q1) <= 8,
        ogg_quality_spec(q1) <= ogg_quality_spec(q2),
{
    lemma_div_is_ordered(0, 8 * q1 + 50, 100);
    lemma_div_is_ordered(8 * q1 + 50, 8 * q2 + 50, 100);
    lemma_div_is_ordered(8 * q2 + 50, 850, 100);
    assert(850int / 100 == 8);
}

/// The JPEG qscale stays within `[2, 31]` and never increases as quality
/// increases (lower is better on this codec's scale).
pub proof fn lemma_jpeg_qscale_bounds(q1: int, q2: int)
    requires
        0 <= q1 <= q2 <= 100,
    ensures
        2 <= jpeg_qscale_spec(q1) <= 31,
        jpeg_qscale_spec(q2) <= jpeg_qscale_spec(q1),
{
    lemma_div_is_ordered(0, 29 * q1, 100);
    lemma_div_is_ordered(29 * q1, 29 * q2, 100);
    lemma_div_is_ordered(29 * q2, 2900, 100);
    assert(2900int / 100 == 29);
}

/// The WebP quality stays within `[20, 92]` and never decreases as
/// quality increases.
pub proof fn lemma_webp_quality_bounds(q1: int, q2: int)
    requires
        0 <= q1 <= q2 <= 100,
    ensures
        20 <= webp_quality_spec(q1) <= 92,
        webp_quality_spec(q1) <= webp_quality_spec(q2),
{
    lemma_div_is_ordered(0, 72 * q1, 100);
    lemma_div_is_ordered(72 * q1, 72 * q2, 100);
    lemma_div_is_ordered(72 * q2, 7200, 100);
    assert(7200int / 100 == 72);
}

/// Computes `crf_spec(low, high, q)` for a codec's `[low, high]` range.
pub fn crf_for_quality(low: u8, high: u8, q: u8) -> (r: u8)
    requires
        low <= high,
        high <= 64,
        q <= 100,
    ensures
        r as int == crf_spec(low as int, high as int, q as int),
        low <= r <= high,
{
    let span: u32 = (high - low) as u32;
    proof {
        assert((span as int) * (q as int) <= 6400) by (nonlinear_arith)
            requires
                span <= 64,
                q <= 100,
        ;
        lemma_scaled_le_span(span as int, q as int);
    }
    let scaled: u32 = (span * (q as u32) + 99) / 100;
    high - (scaled as u8)
}

/// Computes `audio_bitrate_spec(q)`.
pub fn audio_bitrate_kbps(q: u8) -> (r: u32)
    requires
        q <= 100,
    ensures
        r as int == audio_bitrate_spec(q as int),
        128 <= r <= 320,
{
    proof {
        lemma_audio_bitrate_bounds(q as int, q as int);
    }
    let raw: u32 = 64 + (256 * (q as u32)) / 100;
    if raw < 128 {
        128
    } else if raw > 320 {
        320
    } else {
        raw
    }
}

/// Computes `mp3_quality_spec(q)`.
pub fn mp3_quality(q: u8) -> (r: u8)
    requires
        q <= 100,
    ensures
        r as int == mp3_quality_spec(q as int),
        r <= 9,
{
    proof {
        lemma_mp3_quality_bounds(q as int, q as int);
    }
    let raw: u32 = (((100 - q) as u32) * 9 + 50) / 100;
    if raw > 9 {
        9
    } else {
        raw as u8
    }
}

/// Computes `ogg_quality_spec(q)`.
pub fn ogg_quality(q: u8) -> (r: u8)
    requires
        q <= 100,
    ensures
        r as int == ogg_quality_spec(q as int),
        1 <= r <= 8,
{
    proof {
        lemma_ogg_quality_bounds(q as int, q as int);
    }
    let raw: u32 = (8 * (q as u32) + 50) / 100;
    if raw < 1 {
        1
    } else if raw > 8 {
        8
    } else {
        raw as u8
    }
}

/// Computes `jpeg_qscale_spec(q)`.
pub fn jpeg_qscale(q: u8) -> (r: u8)
    requires
        q <= 100,
    ensures
        r as int == jpeg_qscale_spec(q as int),
        2 <= r <= 31,
{
    proof {
        lemma_jpeg_qscale_bounds(q as int, q as int);
    }
    let scaled: u32 = (29 * (q as u32)) / 100;
    let raw: u32 = 31 - if scaled > 31 { 31 } else { scaled };
    if raw < 2 {
        2
    } else {
        raw as u8
    }
}

/// Computes `webp_quality_spec(q)`.
pub fn webp_quality(q: u8) -> (r: u32)
    requires
        q <= 100,
    ensures
        r as int == webp_quality_spec(q as int),
        20 <= r <= 92,
{
    proof {
        lemma_webp_quality_bounds(q as int, q as int);
    }
    let raw: u32 = 20 + (72 * (q as u32)) / 100;
    if raw > 92 {
        92
    } else {
        raw
    }
}

/// Speed preset for the H.264 encoder, chosen from the quality tier.
pub open spec fn x264_preset_spec(q: int) -> Seq<char> {
    if q >= 80 {
        "slow"@
    } else if q >= 50 {
        "medium"@
    } else {
        "fast"@
    }
}

/// Returns the H.264 speed preset for a quality tier.
pub fn x264_preset(q: u8) -> (r: &'static str)
    ensures
        r@ == x264_preset_spec(q as int),
{
    if q >= 80 {
        "slow"
    } else if q >= 50 {
        "medium"
    } else {
        "fast"
    }
}

} // verus!
