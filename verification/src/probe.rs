//! Scraping of the media prober's JSON output: bitrate and duration
//! metadata.  A dormant collaborator of the orchestration core: nothing
//! in the conversion path calls it, but its parsing is exact.

use vstd::prelude::*;
use vstd::string::*;
use crate::ffmpeg;
use crate::strutil;

verus! {

/// Bitrate and duration metadata extracted from prober output.
#[derive(Clone, Debug)]
pub struct ProbeResult {
    pub video_bitrate: Option<u64>,
    pub audio_bitrate: Option<u64>,
    pub duration_us: Option<u64>,
}

// ---------------------------------------------------------------------------
// Leading-whitespace trimming
// ---------------------------------------------------------------------------

/// `s` without leading ASCII whitespace.
pub open spec fn trim_front_spec(s: Seq<char>) -> Seq<char>
    decreases s.len(),
{
    if s.len() > 0 && strutil::is_ws_char(s[0]) {
        trim_front_spec(s.drop_first())
    } else {
        s
    }
}

proof fn lemma_trim_front_bounds(s: Seq<char>, lo: int)
    requires
        0 <= lo <= s.len(),
        forall|k: int| 0 <= k < lo ==> strutil::is_ws_char(s[k]),
        lo == s.len() || !strutil::is_ws_char(s[lo]),
    ensures
        trim_front_spec(s) == s.subrange(lo, s.len() as int),
    decreases s.len(),
{
    if s.len() > 0 && strutil::is_ws_char(s[0]) {
        let t = s.drop_first();
        assert(lo > 0);
        assert(forall|k: int| 0 <= k < lo - 1 ==> strutil::is_ws_char(#[trigger] t[k]));
        lemma_trim_front_bounds(t, lo - 1);
        assert(s.subrange(lo, s.len() as int) =~= t.subrange(lo - 1, t.len() as int));
    } else {
        assert(lo == 0);
        assert(s.subrange(0, s.len() as int) =~= s);
    }
}

/// Removes leading ASCII whitespace.
fn trim_start_ws<'a>(s: &'a str) -> (r: &'a str)
    ensures
        r@ == trim_front_spec(s@),
{
    let n: usize = s.unicode_len();
    let mut lo: usize = 0;
    loop
        invariant
            n == s@.len(),
            lo <= n,
            forall|k: int| 0 <= k < lo ==> strutil::is_ws_char(s@[k]),
        ensures
            lo <= n,
            forall|k: int| 0 <= k < lo ==> strutil::is_ws_char(s@[k]),
            lo == n || !strutil::is_ws_char(s@[lo as int]),
        decreases n - lo,
    {
        if lo >= n {
            break ;
        }
        let c = s.get_char(lo);
        if !(c == ' ' || c == '\t' || c == '\r' || c == '\n') {
            break ;
        }
        lo = lo + 1;
    }
    proof {
        lemma_trim_front_bounds(s@, lo as int);
    }
    s.substring_char(lo, n)
}

// ---------------------------------------------------------------------------
// Scalar-value extraction
// ---------------------------------------------------------------------------

/// A JSON value delimiter in unquoted position.
pub open spec fn is_value_delim(c: char) -> bool {
    c == ',' || c == '}' || c == '\n' || c == '\r'
}

/// `i` is the first delimiter position in `s`.
pub open spec fn first_delim_at(s: Seq<char>, i: int) -> bool {
    0 <= i < s.len() && is_value_delim(s[i]) && forall|k: int| 0 <= k < i ==> !is_value_delim(s[k])
}

/// The raw text of the value following `"key"` and its colon: quoted text
/// up to the closing quote, or unquoted text up to the first delimiter,
/// trimmed.
pub open spec fn extract_value_spec(json: Seq<char>, key: Seq<char>) -> Option<Seq<char>> {
    let sk = seq!['"'] + key + seq!['"'];
    match strutil::find_index_spec(json, sk) {
        None => None,
        Some(kp) => {
            let after_key = json.subrange(kp + sk.len(), json.len() as int);
            match strutil::find_index_spec(after_key, ":"@) {
                None => None,
                Some(ci) => {
                    let trimmed = trim_front_spec(
                        after_key.subrange(ci + 1, after_key.len() as int),
                    );
                    if trimmed.len() > 0 && trimmed[0] == '"' {
                        let rest = trimmed.subrange(1, trimmed.len() as int);
                        match strutil::find_index_spec(rest, "\""@) {
                            None => None,
                            Some(ve) => Some(rest.subrange(0, ve)),
                        }
                    } else {
                        if exists|i: int| first_delim_at(trimmed, i) {
                            let e = choose|i: int| first_delim_at(trimmed, i);
                            let value = strutil::trim_spec(trimmed.subrange(0, e));
                            if value == "null"@ {
                                None
                            } else {
                                Some(value)
                            }
                        } else {
                            None
                        }
                    }
                },
            }
        },
    }
}

/// Extracts the raw text of the value stored under `key`, scanning for
/// `"key"`, the colon after it, and then either a quoted string or an
/// unquoted scalar ending at a delimiter (`null` counts as absent).
pub fn extract_json_string_value(json: &str, key: &str) -> (r: Option<String>)
    ensures
        match r {
            Some(v) => extract_value_spec(json@, key@) == Some(v@),
            None => extract_value_spec(json@, key@) is None,
        },
{
    let mut sk = String::from_str("\"");
    sk.append(key);
    sk.append("\"");
    proof {
        reveal_strlit("\"");
        assert(sk@ =~= seq!['"'] + key@ + seq!['"']);
        reveal_strlit(":");
    }
    let n: usize = json.unicode_len();
    let kp = match strutil::find_sub(json, sk.as_str()) {
        Some(kp) => kp,
        None => {
            return None;
        },
    };
    let skl: usize = sk.as_str().unicode_len();
    let after_key = json.substring_char(kp + skl, n);
    let akn: usize = after_key.unicode_len();
    let ci = match strutil::find_sub(after_key, ":") {
        Some(ci) => ci,
        None => {
            return None;
        },
    };
    let trimmed = trim_start_ws(after_key.substring_char(ci + 1, akn));
    let tn: usize = trimmed.unicode_len();
    if tn > 0 && trimmed.get_char(0) == '"' {
        let rest = trimmed.substring_char(1, tn);
        let rn: usize = rest.unicode_len();
        proof {
            reveal_strlit("\"");
        }
        match strutil::find_sub(rest, "\"") {
            Some(ve) => Some(String::from_str(rest.substring_char(0, ve))),
            None => None,
        }
    } else {
        let mut e: usize = 0;
        loop
            invariant
                tn == trimmed@.len(),
                e <= tn,
                forall|k: int| 0 <= k < e ==> !is_value_delim(trimmed@[k]),
            ensures
                e <= tn,
                forall|k: int| 0 <= k < e ==> !is_value_delim(trimmed@[k]),
                e < tn ==> is_value_delim(trimmed@[e as int]),
                e == tn ==> !exists|i: int| first_delim_at(trimmed@, i),
            decreases tn - e,
        {
            if e >= tn {
                proof {
                    assert forall|i: int| !first_delim_at(trimmed@, i) by {
                        if 0 <= i < trimmed@.len() {
                            assert(!is_value_delim(trimmed@[i]));
                        }
                    }
                }
                break ;
            }
            let c = trimmed.get_char(e);
            if c == ',' || c == '}' || c == '\n' || c == '\r' {
                break ;
            }
            e = e + 1;
        }
        if e == tn {
            return None;
        }
        proof {
            assert(first_delim_at(trimmed@, e as int));
            let j = choose|i: int| first_delim_at(trimmed@, i);
            if j < e {
                assert(!is_value_delim(trimmed@[j]));
            }
            if j > e {
                assert(!is_value_delim(trimmed@[e as int]));
            }
            assert(j == e);
        }
        let value = strutil::trim_ws(trimmed.substring_char(0, e));
        if strutil::str_eq(value, "null") {
            None
        } else {
            Some(String::from_str(value))
        }
    }
}

// ---------------------------------------------------------------------------
// The streams array
// ---------------------------------------------------------------------------

/// Net bracket depth of the first `upto` characters.
pub open spec fn bracket_depth(s: Seq<char>, upto: int) -> int
    decreases upto,
{
    if upto <= 0 {
        0
    } else {
        bracket_depth(s, upto - 1) + (if s[upto - 1] == '[' {
            1int
        } else if s[upto - 1] == ']' {
            -1int
        } else {
            0int
        })
    }
}

/// `j` closes the bracket run starting at the front of `s`.
pub open spec fn close_bracket_at(s: Seq<char>, j: int) -> bool {
    0 <= j < s.len() && s[j] == ']' && bracket_depth(s, j + 1) == 0 && forall|k: int|
        0 <= k < j ==> !(s[k] == ']' && bracket_depth(s, k + 1) == 0)
}

/// The text between the brackets of the `streams` array.
pub open spec fn streams_array_spec(json: Seq<char>) -> Option<Seq<char>> {
    match strutil::find_index_spec(json, "\"streams\""@) {
        None => None,
        Some(st) => {
            let after = json.subrange(st, json.len() as int);
            match strutil::find_index_spec(after, "["@) {
                None => None,
                Some(bs) => {
                    let content = after.subrange(bs, after.len() as int);
                    if exists|j: int| close_bracket_at(content, j) {
                        Some(content.subrange(1, choose|j: int| close_bracket_at(content, j)))
                    } else {
                        None
                    }
                },
            }
        },
    }
}

/// Extracts the text between the brackets of the `streams` array, by
/// depth-counted bracket matching.
pub fn extract_streams_array(json: &str) -> (r: Option<String>)
    ensures
        match r {
            Some(v) => streams_array_spec(json@) == Some(v@),
            None => streams_array_spec(json@) is None,
        },
{
    proof {
        reveal_strlit("[");
    }
    let n: usize = json.unicode_len();
    let st = match strutil::find_sub(json, "\"streams\"") {
        Some(st) => st,
        None => {
            return None;
        },
    };
    let after = json.substring_char(st, n);
    let an: usize = after.unicode_len();
    let bs = match strutil::find_sub(after, "[") {
        Some(bs) => bs,
        None => {
            return None;
        },
    };
    let content = after.substring_char(bs, an);
    let cn: usize = content.unicode_len();
    let mut depth: i128 = 0;
    let mut j: usize = 0;
    loop
        invariant_except_break
            depth == bracket_depth(content@, j as int),
            -(j as int) <= depth <= j as int,
        invariant
            cn == content@.len(),
            j <= cn,
            forall|k: int|
                0 <= k < j ==> !(content@[k] == ']' && bracket_depth(content@, k + 1) == 0),
        ensures
            j <= cn,
            forall|k: int|
                0 <= k < j ==> !(content@[k] == ']' && bracket_depth(content@, k + 1) == 0),
            j < cn ==> close_bracket_at(content@, j as int),
            j == cn ==> !exists|k: int| close_bracket_at(content@, k),
        decreases cn - j,
    {
        if j >= cn {
            proof {
                assert forall|k: int| !close_bracket_at(content@, k) by {
                    if 0 <= k < content@.len() {
                        assert(!(content@[k] == ']' && bracket_depth(content@, k + 1) == 0));
                    }
                }
            }
            break ;
        }
        let c = content.get_char(j);
        if c == '[' {
            depth = depth + 1;
        } else if c == ']' {
            depth = depth - 1;
            if depth == 0 {
                proof {
                    assert(bracket_depth(content@, j + 1) == bracket_depth(content@, j as int)
                        - 1);
                    assert(close_bracket_at(content@, j as int));
                }
                break ;
            }
        }
        proof {
            assert(bracket_depth(content@, j + 1) == bracket_depth(content@, j as int) + (
            if content@[j as int] == '[' {
                1int
            } else if content@[j as int] == ']' {
                -1int
            } else {
                0int
            }));
        }
        j = j + 1;
    }
    if j == cn {
        return None;
    }
    proof {
        assert(close_bracket_at(content@, j as int));
        let k = choose|k: int| close_bracket_at(content@, k);
        if k < j {
            assert(!(content@[k] == ']' && bracket_depth(content@, k + 1) == 0));
        }
        if k > j {
            assert(!(content@[j as int] == ']' && bracket_depth(content@, j as int + 1) == 0));
        }
        assert(k == j);
    }
    Some(String::from_str(content.substring_char(1, j)))
}

// ---------------------------------------------------------------------------
// Splitting top-level objects
// ---------------------------------------------------------------------------

/// The scan state after the first `upto` characters: current brace depth,
/// the start of the open top-level object if any, and the objects
/// collected so far.
pub open spec fn split_state(s: Seq<char>, upto: int) -> (int, Option<int>, Seq<Seq<char>>)
    decreases upto,
{
    if upto <= 0 {
        (0int, None, Seq::empty())
    } else {
        let prev = split_state(s, upto - 1);
        let c = s[upto - 1];
        if c == '{' {
            if prev.0 == 0 {
                (prev.0 + 1, Some(upto - 1), prev.2)
            } else {
                (prev.0 + 1, prev.1, prev.2)
            }
        } else if c == '}' {
            if prev.0 - 1 == 0 {
                match prev.1 {
                    Some(b) => (0int, None, prev.2.push(s.subrange(b, upto))),
                    None => (0int, None, prev.2),
                }
            } else {
                (prev.0 - 1, prev.1, prev.2)
            }
        } else {
            prev
        }
    }
}

/// Splits the content of the streams array into its top-level
/// brace-delimited objects.
pub fn split_json_objects(content: &str) -> (r: Vec<String>)
    ensures
        r@.map_values(|s: String| s@) == split_state(content@, content@.len() as int).2,
{
    let n: usize = content.unicode_len();
    let mut depth: i128 = 0;
    let mut start: Option<usize> = None;
    let mut objects: Vec<String> = Vec::new();
    let mut i: usize = 0;
    while i < n
        invariant
            n == content@.len(),
            i <= n,
            depth == split_state(content@, i as int).0,
            -(i as int) <= depth <= i as int,
            (match start {
                Some(b) => split_state(content@, i as int).1 == Some(b as int) && b < i,
                None => split_state(content@, i as int).1 is None,
            }),
            objects@.map_values(|s: String| s@) == split_state(content@, i as int).2,
        decreases n - i,
    {
        let ghost pre = objects@.map_values(|s: String| s@);
        let c = content.get_char(i);
        if c == '{' {
            if depth == 0 {
                start = Some(i);
            }
            depth = depth + 1;
        } else if c == '}' {
            depth = depth - 1;
            if depth == 0 {
                match start {
                    Some(b) => {
                        let piece = String::from_str(content.substring_char(b, i + 1));
                        let ghost piecev = piece@;
                        objects.push(piece);
                        proof {
                            assert(objects@.map_values(|s: String| s@) =~= pre.push(piecev));
                        }
                        start = None;
                    },
                    None => {},
                }
            }
        }
        i = i + 1;
    }
    proof {
        assert(objects@.map_values(|s: String| s@) == split_state(content@, n as int).2);
    }
    objects
}

// ---------------------------------------------------------------------------
// The prober's full output
// ---------------------------------------------------------------------------

/// The numeric value of an extracted field, when it parses as an
/// unsigned decimal.
pub open spec fn opt_u64_spec(v: Option<Seq<char>>) -> Option<u64> {
    match v {
        Some(s) => {
            if s.len() > 0 && strutil::all_digits(s) && strutil::digits_value(s) <= u64::MAX {
                Some(strutil::digits_value(s) as u64)
            } else {
                None
            }
        },
        None => None,
    }
}

/// The duration of an extracted field in microseconds, when it parses as
/// a decimal number of seconds.
pub open spec fn opt_duration_spec(v: Option<Seq<char>>) -> Option<u64> {
    match v {
        Some(s) => {
            match ffmpeg::num_micros_spec(s) {
                Some(us) => Some(us as u64),
                None => None,
            }
        },
        None => None,
    }
}

/// One stream object folded into the bitrate accumulators: a parseable
/// `bit_rate` on a `video` or `audio` stream overrides the accumulator.
pub open spec fn scan_streams_spec(
    objs: Seq<Seq<char>>,
    vb: Option<u64>,
    ab: Option<u64>,
) -> (Option<u64>, Option<u64>)
    decreases objs.len(),
{
    if objs.len() == 0 {
        (vb, ab)
    } else {
        let o = objs[0];
        let ct = extract_value_spec(o, "codec_type"@);
        let br = opt_u64_spec(extract_value_spec(o, "bit_rate"@));
        let vb2 = if ct == Some("video"@) && br is Some {
            br
        } else {
            vb
        };
        let ab2 = if ct == Some("audio"@) && br is Some {
            br
        } else {
            ab
        };
        scan_streams_spec(objs.drop_first(), vb2, ab2)
    }
}

/// The metadata scraped from the prober's JSON: the duration and format
/// bitrate from the `format` section, overridden per stream kind by the
/// `streams` array.
pub open spec fn probe_spec(json: Seq<char>) -> (Option<u64>, Option<u64>, Option<u64>) {
    let fmt = match strutil::find_index_spec(json, "\"format\""@) {
        None => (None, None),
        Some(fs) => {
            let sec = json.subrange(fs, json.len() as int);
            (
                opt_duration_spec(extract_value_spec(sec, "duration"@)),
                opt_u64_spec(extract_value_spec(sec, "bit_rate"@)),
            )
        },
    };
    let objs = match streams_array_spec(json) {
        Some(content) => split_state(content, content.len() as int).2,
        None => Seq::empty(),
    };
    let scanned = scan_streams_spec(objs, fmt.1, None);
    (scanned.0, scanned.1, fmt.0)
}

fn parse_u64_field(v: &Option<String>) -> (r: Option<u64>)
    ensures
        r == opt_u64_spec(
            match v {
                Some(s) => Some(s@),
                None => None,
            },
        ),
{
    match v {
        Some(s) => strutil::parse_u64_digits(s.as_str()),
        None => None,
    }
}

/// Parses the prober's JSON output into bitrate and duration metadata.
pub fn parse_probe_json(json: &str) -> (r: Option<ProbeResult>)
    ensures
        r matches Some(pr) && pr.video_bitrate == probe_spec(json@).0 && pr.audio_bitrate
            == probe_spec(json@).1 && pr.duration_us == probe_spec(json@).2,
{
    let n: usize = json.unicode_len();
    let mut duration_us: Option<u64> = None;
    let mut video_bitrate: Option<u64> = None;
    match strutil::find_sub(json, "\"format\"") {
        Some(fs) => {
            let section = json.substring_char(fs, n);
            let dur_text = extract_json_string_value(section, "duration");
            duration_us = match &dur_text {
                Some(s) => ffmpeg::num_micros(s.as_str()),
                None => None,
            };
            let br_text = extract_json_string_value(section, "bit_rate");
            video_bitrate = parse_u64_field(&br_text);
        },
        None => {},
    }
    let ghost vb0 = video_bitrate;
    let mut audio_bitrate: Option<u64> = None;
    let objects: Vec<String> = match extract_streams_array(json) {
        Some(content) => split_json_objects(content.as_str()),
        None => Vec::new(),
    };
    let ghost objs_full = objects@.map_values(|s: String| s@);
    proof {
        assert(objs_full == (match streams_array_spec(json@) {
            Some(content) => split_state(content, content.len() as int).2,
            None => Seq::<Seq<char>>::empty(),
        })) by {
            if streams_array_spec(json@) is None {
                assert(objs_full =~= Seq::<Seq<char>>::empty());
            }
        }
        assert(objs_full.skip(0) =~= objs_full);
    }
    let mut i: usize = 0;
    while i < objects.len()
        invariant
            objs_full == objects@.map_values(|s: String| s@),
            i <= objects@.len(),
            scan_streams_spec(objs_full, vb0, None) == scan_streams_spec(
                objs_full.skip(i as int),
                video_bitrate,
                audio_bitrate,
            ),
        decreases objects@.len() - i,
    {
        let obj = &objects[i];
        let ct = extract_json_string_value(obj.as_str(), "codec_type");
        let br_text = extract_json_string_value(obj.as_str(), "bit_rate");
        let br = parse_u64_field(&br_text);
        proof {
            assert(objs_full.skip(i as int)[0] == objs_full[i as int]);
            assert(objs_full.skip(i as int).drop_first() =~= objs_full.skip(i + 1));
        }
        let is_video = match &ct {
            Some(s) => strutil::str_eq(s.as_str(), "video"),
            None => false,
        };
        let is_audio = match &ct {
            Some(s) => strutil::str_eq(s.as_str(), "audio"),
            None => false,
        };
        if is_video && br.is_some() {
            video_bitrate = br;
        }
        if is_audio && br.is_some() {
            audio_bitrate = br;
        }
        i = i + 1;
    }
    proof {
        assert(objs_full.skip(objs_full.len() as int) =~= Seq::<Seq<char>>::empty());
    }
    Some(ProbeResult { video_bitrate, audio_bitrate, duration_us })
}

} // verus!
