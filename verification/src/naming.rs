//! The naming pipeline: ordered naming blocks, sanitization, random
//! tokens and collision-resistant timestamps.

use vstd::prelude::*;
use vstd::string::*;
use crate::strutil;
use crate::types::NamingBlock;
use crate::types::NamingConfig;

verus! {

// ---------------------------------------------------------------------------
// Sanitization
// ---------------------------------------------------------------------------

/// The characters a sanitized stem may contain.
pub open spec fn allowed_char(c: char) -> bool {
    ('a' <= c && c <= 'z') || ('A' <= c && c <= 'Z') || ('0' <= c && c <= '9') || c == '_' || c
        == '-'
}

/// The characters a sanitized stem really consists of (sanitization
/// lowercases first, so no uppercase letter survives).
pub open spec fn allowed_lower_char(c: char) -> bool {
    ('a' <= c && c <= 'z') || ('0' <= c && c <= '9') || c == '_' || c == '-'
}

/// Lowercasing with spaces mapped to underscores.
pub open spec fn lower_us_char(c: char) -> char {
    if strutil::lower_char_spec(c) == ' ' {
        '_'
    } else {
        strutil::lower_char_spec(c)
    }
}

pub open spec fn map_lower_us(s: Seq<char>) -> Seq<char> {
    s.map_values(|c: char| lower_us_char(c))
}

/// Keeps only the allowed characters.
pub open spec fn filter_allowed(s: Seq<char>) -> Seq<char>
    decreases s.len(),
{
    if s.len() == 0 {
        s
    } else if allowed_char(s.last()) {
        filter_allowed(s.drop_last()).push(s.last())
    } else {
        filter_allowed(s.drop_last())
    }
}

/// Collapses each run of underscores to a single underscore.
pub open spec fn collapse_us(s: Seq<char>) -> Seq<char>
    decreases s.len(),
{
    if s.len() <= 1 {
        s
    } else if s.last() == '_' && s[s.len() - 2] == '_' {
        collapse_us(s.drop_last())
    } else {
        collapse_us(s.drop_last()).push(s.last())
    }
}

/// Removes leading and trailing underscores.
pub open spec fn trim_us(s: Seq<char>) -> Seq<char>
    decreases s.len(),
{
    if s.len() > 0 && s[0] == '_' {
        trim_us(s.drop_first())
    } else if s.len() > 0 && s.last() == '_' {
        trim_us(s.drop_last())
    } else {
        s
    }
}

/// The full sanitization of a stem: lowercase, spaces to underscores,
/// strip disallowed characters, collapse underscore runs, trim
/// underscores; an empty result becomes `file`.
pub open spec fn sanitize_spec(s: Seq<char>) -> Seq<char> {
    let t = trim_us(collapse_us(filter_allowed(map_lower_us(s))));
    if t.len() == 0 {
        "file"@
    } else {
        t
    }
}

proof fn lemma_filter_allowed_chars(s: Seq<char>)
    requires
        forall|i: int| 0 <= i < s.len() ==> !('A' <= #[trigger] s[i] && s[i] <= 'Z'),
    ensures
        forall|i: int|
            0 <= i < filter_allowed(s).len() ==> allowed_lower_char(
                #[trigger] filter_allowed(s)[i],
            ),
    decreases s.len(),
{
    if s.len() == 0 {
    } else {
        assert(forall|i: int|
            0 <= i < s.drop_last().len() ==> !('A' <= #[trigger] s.drop_last()[i]
                && s.drop_last()[i] <= 'Z'));
        lemma_filter_allowed_chars(s.drop_last());
        let f = filter_allowed(s);
        let fd = filter_allowed(s.drop_last());
        if allowed_char(s.last()) {
            assert(s.last() == s[s.len() - 1]);
            assert(allowed_lower_char(s.last()));
            assert forall|i: int| 0 <= i < f.len() implies allowed_lower_char(#[trigger] f[i]) by {
                if i < f.len() - 1 {
                    assert(f[i] == fd[i]);
                } else {
                    assert(f[i] == s.last());
                }
            }
        }
    }
}

proof fn lemma_collapse_chars(s: Seq<char>)
    requires
        forall|i: int| 0 <= i < s.len() ==> allowed_lower_char(#[trigger] s[i]),
    ensures
        forall|i: int|
            0 <= i < collapse_us(s).len() ==> allowed_lower_char(#[trigger] collapse_us(s)[i]),
        forall|i: int|
            0 <= i < collapse_us(s).len() - 1 ==> !(#[trigger] collapse_us(s)[i] == '_'
                && collapse_us(s)[i + 1] == '_'),
        collapse_us(s).len() > 0 ==> s.len() > 0 && collapse_us(s).last() == s.last(),
        s.len() > 0 ==> collapse_us(s).len() > 0,
    decreases s.len(),
{
    if s.len() <= 1 {
        assert forall|i: int| 0 <= i < collapse_us(s).len() implies allowed_lower_char(
            #[trigger] collapse_us(s)[i],
        ) by {
            assert(collapse_us(s)[i] == s[i]);
        }
    } else {
        assert(forall|i: int|
            0 <= i < s.drop_last().len() ==> allowed_lower_char(#[trigger] s.drop_last()[i]));
        lemma_collapse_chars(s.drop_last());
        let c = collapse_us(s);
        let cd = collapse_us(s.drop_last());
        if s.last() == '_' && s[s.len() - 2] == '_' {
            assert(c == cd);
            assert(s.drop_last().last() == s[s.len() - 2]);
        } else {
            assert(c == cd.push(s.last()));
            assert(s.last() == s[s.len() - 1]);
            assert forall|i: int| 0 <= i < c.len() implies allowed_lower_char(#[trigger] c[i]) by {
                if i < c.len() - 1 {
                    assert(c[i] == cd[i]);
                } else {
                    assert(c[i] == s.last());
                }
            }
            assert forall|i: int| 0 <= i < c.len() - 1 implies !(#[trigger] c[i] == '_' && c[i + 1]
                == '_') by {
                if i < c.len() - 2 {
                    assert(c[i] == cd[i] && c[i + 1] == cd[i + 1]);
                } else {
                    // the last two characters of the collapsed output
                    if c[i] == '_' && c[i + 1] == '_' {
                        assert(c[i + 1] == s.last());
                        assert(cd.len() > 0 ==> cd.last() == s.drop_last().last());
                        assert(c[i] == cd.last());
                        assert(s[s.len() - 2] == '_');
                        assert(false);
                    }
                }
            }
        }
    }
}

proof fn lemma_trim_us_shape(s: Seq<char>)
    requires
        forall|i: int| 0 <= i < s.len() ==> allowed_lower_char(#[trigger] s[i]),
    ensures
        forall|i: int|
            0 <= i < trim_us(s).len() ==> allowed_lower_char(#[trigger] trim_us(s)[i]),
        trim_us(s).len() > 0 ==> trim_us(s)[0] != '_' && trim_us(s).last() != '_',
    decreases s.len(),
{
    if s.len() > 0 && s[0] == '_' {
        let t = s.drop_first();
        assert(forall|i: int| 0 <= i < t.len() ==> allowed_lower_char(#[trigger] t[i]));
        lemma_trim_us_shape(t);
    } else if s.len() > 0 && s.last() == '_' {
        let t = s.drop_last();
        assert(forall|i: int| 0 <= i < t.len() ==> allowed_lower_char(#[trigger] t[i]));
        lemma_trim_us_shape(t);
    } else {
        assert forall|i: int| 0 <= i < trim_us(s).len() implies allowed_lower_char(
            #[trigger] trim_us(s)[i],
        ) by {
            assert(trim_us(s)[i] == s[i]);
        }
    }
}

proof fn lemma_trim_us_no_adjacent(s: Seq<char>)
    requires
        forall|k: int| 0 <= k < s.len() - 1 ==> !(#[trigger] s[k] == '_' && s[k + 1] == '_'),
    ensures
        forall|i: int|
            0 <= i < trim_us(s).len() - 1 ==> !(#[trigger] trim_us(s)[i] == '_' && trim_us(s)[i
                + 1] == '_'),
    decreases s.len(),
{
    if s.len() > 0 && s[0] == '_' {
        let t = s.drop_first();
        assert forall|k: int| 0 <= k < t.len() - 1 implies !(#[trigger] t[k] == '_' && t[k + 1]
            == '_') by {
            assert(t[k] == s[k + 1] && t[k + 1] == s[k + 2]);
        }
        lemma_trim_us_no_adjacent(t);
        assert(trim_us(s) == trim_us(t));
        assert forall|i: int| 0 <= i < trim_us(s).len() - 1 implies !(#[trigger] trim_us(s)[i]
            == '_' && trim_us(s)[i + 1] == '_') by {
            assert(trim_us(s)[i] == trim_us(t)[i] && trim_us(s)[i + 1] == trim_us(t)[i + 1]);
        }
    } else if s.len() > 0 && s.last() == '_' {
        let t = s.drop_last();
        assert forall|k: int| 0 <= k < t.len() - 1 implies !(#[trigger] t[k] == '_' && t[k + 1]
            == '_') by {
            assert(t[k] == s[k] && t[k + 1] == s[k + 1]);
        }
        lemma_trim_us_no_adjacent(t);
        assert(trim_us(s) == trim_us(t));
        assert forall|i: int| 0 <= i < trim_us(s).len() - 1 implies !(#[trigger] trim_us(s)[i]
            == '_' && trim_us(s)[i + 1] == '_') by {
            assert(trim_us(s)[i] == trim_us(t)[i] && trim_us(s)[i + 1] == trim_us(t)[i + 1]);
        }
    } else {
        assert forall|i: int| 0 <= i < trim_us(s).len() - 1 implies !(#[trigger] trim_us(s)[i]
            == '_' && trim_us(s)[i + 1] == '_') by {
            assert(trim_us(s)[i] == s[i] && trim_us(s)[i + 1] == s[i + 1]);
        }
    }
}

/// Shape of a sanitized stem: nonempty, only lowercase letters, digits,
/// underscores and hyphens, no leading or trailing underscore, and no two
/// adjacent underscores.
pub open spec fn sanitized_shape(r: Seq<char>) -> bool {
    &&& r.len() > 0
    &&& forall|i: int| 0 <= i < r.len() ==> allowed_lower_char(#[trigger] r[i])
    &&& r[0] != '_'
    &&& r.last() != '_'
    &&& forall|i: int| 0 <= i < r.len() - 1 ==> !(#[trigger] r[i] == '_' && r[i + 1] == '_')
}

/// Sanitization always yields a well-shaped stem.
pub proof fn lemma_sanitize_shape(s: Seq<char>)
    ensures
        sanitized_shape(sanitize_spec(s)),
{
    let m = map_lower_us(s);
    let f = filter_allowed(m);
    let c = collapse_us(f);
    let t = trim_us(c);
    assert forall|i: int| 0 <= i < m.len() implies !('A' <= #[trigger] m[i] && m[i] <= 'Z') by {
        assert(m[i] == lower_us_char(s[i]));
    }
    lemma_filter_allowed_chars(m);
    lemma_collapse_chars(f);
    lemma_trim_us_shape(c);
    lemma_trim_us_no_adjacent(c);
    if t.len() == 0 {
        proof_file_shape();
    }
}

proof fn proof_file_shape()
    ensures
        sanitized_shape("file"@),
{
    reveal_strlit("file");
    assert("file"@.len() == 4);
    assert("file"@[0] == 'f');
    assert("file"@[1] == 'i');
    assert("file"@[2] == 'l');
    assert("file"@[3] == 'e');
    assert forall|i: int| 0 <= i < "file"@.len() implies allowed_lower_char(
        #[trigger] "file"@[i],
    ) by {
        if i == 0 {
        } else if i == 1 {
        } else if i == 2 {
        } else {
            assert(i == 3);
        }
    }
}

/// Sanitizes a stem: lowercase, spaces to underscores, strip characters
/// outside the allowed set, collapse underscore runs, trim underscores,
/// with `file` as the fallback for an empty result.
pub fn sanitize_filename(name: &str) -> (r: String)
    ensures
        r@ == sanitize_spec(name@),
        sanitized_shape(r@),
{
    proof {
        lemma_sanitize_shape(name@);
    }
    let n: usize = name.unicode_len();
    // lowercase, with spaces mapped to underscores
    let mut mapped = String::new();
    let mut i: usize = 0;
    while i < n
        invariant
            n == name@.len(),
            i <= n,
            mapped@ == map_lower_us(name@.subrange(0, i as int)),
        decreases n - i,
    {
        let c = strutil::lower_char(name.get_char(i));
        let c2 = if c == ' ' {
            '_'
        } else {
            c
        };
        strutil::push_char(&mut mapped, c2);
        proof {
            assert(name@.subrange(0, i + 1).drop_last() =~= name@.subrange(0, i as int));
            assert(map_lower_us(name@.subrange(0, i + 1)) =~= map_lower_us(
                name@.subrange(0, i as int),
            ).push(lower_us_char(name@[i as int])));
        }
        i = i + 1;
    }
    proof {
        assert(name@.subrange(0, n as int) =~= name@);
    }
    // strip characters outside the allowed set
    let mn: usize = mapped.as_str().unicode_len();
    let mut filtered = String::new();
    let mut j: usize = 0;
    while j < mn
        invariant
            mn == mapped@.len(),
            j <= mn,
            filtered@ == filter_allowed(mapped@.subrange(0, j as int)),
        decreases mn - j,
    {
        let c = mapped.as_str().get_char(j);
        proof {
            assert(mapped@.subrange(0, j + 1).drop_last() =~= mapped@.subrange(0, j as int));
            assert(mapped@.subrange(0, j + 1).last() == mapped@[j as int]);
        }
        if (c >= 'a' && c <= 'z') || (c >= 'A' && c <= 'Z') || (c >= '0' && c <= '9') || c == '_'
            || c == '-' {
            strutil::push_char(&mut filtered, c);
        }
        j = j + 1;
    }
    proof {
        assert(mapped@.subrange(0, mn as int) =~= mapped@);
    }
    // collapse runs of underscores
    let fnn: usize = filtered.as_str().unicode_len();
    let mut collapsed = String::new();
    let mut k: usize = 0;
    while k < fnn
        invariant
            fnn == filtered@.len(),
            k <= fnn,
            collapsed@ == collapse_us(filtered@.subrange(0, k as int)),
        decreases fnn - k,
    {
        let c = filtered.as_str().get_char(k);
        proof {
            assert(filtered@.subrange(0, k + 1).drop_last() =~= filtered@.subrange(0, k as int));
            assert(filtered@.subrange(0, k + 1).last() == filtered@[k as int]);
            if k > 0 {
                assert(filtered@.subrange(0, k + 1)[k - 1] == filtered@[k - 1]);
            }
        }
        if k > 0 && c == '_' && filtered.as_str().get_char(k - 1) == '_' {
        } else {
            strutil::push_char(&mut collapsed, c);
        }
        k = k + 1;
    }
    proof {
        assert(filtered@.subrange(0, fnn as int) =~= filtered@);
    }
    // trim leading and trailing underscores
    let cn: usize = collapsed.as_str().unicode_len();
    let mut lo: usize = 0;
    loop
        invariant
            cn == collapsed@.len(),
            lo <= cn,
            forall|k2: int| 0 <= k2 < lo ==> collapsed@[k2] == '_',
        ensures
            lo <= cn,
            forall|k2: int| 0 <= k2 < lo ==> collapsed@[k2] == '_',
            lo == cn || collapsed@[lo as int] != '_',
        decreases cn - lo,
    {
        if lo >= cn {
            break ;
        }
        if collapsed.as_str().get_char(lo) != '_' {
            break ;
        }
        lo = lo + 1;
    }
    let mut hi: usize = cn;
    loop
        invariant
            cn == collapsed@.len(),
            lo <= hi <= cn,
            forall|k2: int| 0 <= k2 < lo ==> collapsed@[k2] == '_',
            forall|k2: int| hi <= k2 < cn ==> collapsed@[k2] == '_',
            lo == cn || collapsed@[lo as int] != '_',
        ensures
            lo <= hi <= cn,
            forall|k2: int| hi <= k2 < cn ==> collapsed@[k2] == '_',
            hi == lo || collapsed@[hi - 1] != '_',
        decreases hi,
    {
        if hi <= lo {
            break ;
        }
        if collapsed.as_str().get_char(hi - 1) != '_' {
            break ;
        }
        hi = hi - 1;
    }
    proof {
        lemma_trim_us_bounds(collapsed@, lo as int, hi as int);
    }
    let trimmed = collapsed.as_str().substring_char(lo, hi);
    if trimmed.unicode_len() == 0 {
        String::from_str("file")
    } else {
        String::from_str(trimmed)
    }
}

// ---------------------------------------------------------------------------
// Random tokens
// ---------------------------------------------------------------------------

/// Relies on `rand::random_range`: a uniform index below the bound.  The
/// underlying `Rng::random_range` panics on an empty range, so the bound
/// must be positive.
#[verifier::external_body]
fn random_index(bound: usize) -> (r: usize)
    requires
        bound > 0,
    ensures
        r < bound,
{
    rand::random_range(0..bound)
}

pub open spec fn is_lower_alnum(c: char) -> bool {
    ('a' <= c && c <= 'z') || ('0' <= c && c <= '9')
}

/// The requested random-token length, clamped to `[4, 32]`.
pub open spec fn clamped_len_spec(length: u8) -> int {
    if length < 4 {
        4
    } else if length > 32 {
        32
    } else {
        length as int
    }
}

/// Generates a random token over `[a-z0-9]` of the clamped length.
pub fn generate_random_string(length: u8) -> (r: String)
    ensures
        r@.len() == clamped_len_spec(length),
        forall|i: int| 0 <= i < r@.len() ==> is_lower_alnum(#[trigger] r@[i]),
{
    let charset = "abcdefghijklmnopqrstuvwxyz0123456789";
    proof {
        reveal_strlit("abcdefghijklmnopqrstuvwxyz0123456789");
        assert(charset@.len() == 36);
        assert(forall|j: int| 0 <= j < 36 ==> is_lower_alnum(#[trigger] charset@[j]));
    }
    let len: usize = if length < 4 {
        4
    } else if length > 32 {
        32
    } else {
        length as usize
    };
    let mut r = String::new();
    let mut i: usize = 0;
    while i < len
        invariant
            charset@.len() == 36,
            forall|j: int| 0 <= j < 36 ==> is_lower_alnum(#[trigger] charset@[j]),
            i <= len,
            r@.len() == i,
            forall|j: int| 0 <= j < r@.len() ==> is_lower_alnum(#[trigger] r@[j]),
        decreases len - i,
    {
        let idx = random_index(36);
        let c = charset.get_char(idx);
        strutil::push_char(&mut r, c);
        i = i + 1;
    }
    r
}

// ---------------------------------------------------------------------------
// Collision-resistant timestamps
// ---------------------------------------------------------------------------

/// Relies on `chrono::Local::now` and its formatter: the current local
/// time rendered with an all-numeric format, so the result never contains
/// an underscore (the disambiguation suffix below stays distinguishable).
#[verifier::external_body]
fn now_stamp() -> (r: String)
    ensures
        forall|i: int| 0 <= i < r@.len() ==> r@[i] != '_',
{
    chrono::Local::now().format("%Y%m%d%H%M%S%3f").to_string()
}

pub open spec fn no_underscore(s: Seq<char>) -> bool {
    forall|i: int| 0 <= i < s.len() ==> s[i] != '_'
}

/// The counter after one timestamp request: it restarts at 1 on a fresh
/// timestamp string and counts up on a repeated one.
pub open spec fn bumped(c: u64) -> u64 {
    if c == u64::MAX {
        c
    } else {
        (c + 1) as u64
    }
}

/// What a timestamp request returns: the raw timestamp, or, when the
/// process already produced that very timestamp string, the timestamp
/// with the disambiguating counter appended.
pub open spec fn stamp_result_spec(last: Seq<char>, count: u64, ts: Seq<char>) -> Seq<char> {
    if ts == last {
        ts + "_"@ + strutil::dec_spec(bumped(count) as nat)
    } else {
        ts
    }
}

/// Timestamp-deduplication state: the last raw timestamp handed out and
/// how many times it has been seen.
pub struct NamingEngine {
    last_stamp: String,
    counter: u64,
}

impl NamingEngine {
    pub closed spec fn last_spec(&self) -> Seq<char> {
        self.last_stamp@
    }

    pub closed spec fn counter_spec(&self) -> u64 {
        self.counter
    }

    /// Creates fresh deduplication state.
    pub fn new() -> (r: Self)
        ensures
            r.last_spec() == Seq::<char>::empty(),
            r.counter_spec() == 0,
    {
        let r = NamingEngine { last_stamp: String::new(), counter: 0 };
        r
    }

    /// Disambiguates a raw timestamp against the last one handed out.
    pub fn disambiguate(&mut self, ts: String) -> (r: String)
        ensures
            r@ == stamp_result_spec(old(self).last_spec(), old(self).counter_spec(), ts@),
            ts@ == old(self).last_spec() ==> final(self).last_spec() == old(self).last_spec()
                && final(self).counter_spec() == bumped(old(self).counter_spec()),
            ts@ != old(self).last_spec() ==> final(self).last_spec() == ts@
                && final(self).counter_spec() == 1,
    {
        if strutil::str_eq(ts.as_str(), self.last_stamp.as_str()) {
            if self.counter < u64::MAX {
                self.counter = self.counter + 1;
            }
            let mut r = ts;
            r.append("_");
            let digits = strutil::u64_to_dec(self.counter);
            r.append(digits.as_str());
            r
        } else {
            self.last_stamp = ts.clone();
            self.counter = 1;
            ts
        }
    }

    /// Produces a collision-resistant timestamp string: the current local
    /// time, disambiguated against the previous call.
    pub fn next_stamp(&mut self) -> (r: String)
        ensures
            exists|ts: Seq<char>|
                #![auto]
                no_underscore(ts) && r@ == stamp_result_spec(
                    old(self).last_spec(),
                    old(self).counter_spec(),
                    ts,
                ) && final(self).last_spec() == (if ts == old(self).last_spec() {
                    old(self).last_spec()
                } else {
                    ts
                }) && final(self).counter_spec() == (if ts == old(self).last_spec() {
                    bumped(old(self).counter_spec())
                } else {
                    1u64
                }),
    {
        let ts = now_stamp();
        let ghost tsv = ts@;
        let r = self.disambiguate(ts);
        proof {
            assert(no_underscore(tsv) && r@ == stamp_result_spec(
                old(self).last_spec(),
                old(self).counter_spec(),
                tsv,
            ) && final(self).last_spec() == (if tsv == old(self).last_spec() {
                old(self).last_spec()
            } else {
                tsv
            }) && final(self).counter_spec() == (if tsv == old(self).last_spec() {
                bumped(old(self).counter_spec())
            } else {
                1u64
            }));
        }
        r
    }
}

/// Two timestamp requests in immediate succession never produce the same
/// string, even within the same instant: a repeated raw timestamp gets a
/// fresh counter suffix, and the counter suffixes themselves differ from
/// call to call.  (Only a counter saturated at the very top of its range
/// could repeat, which two successive bumps cannot reach from any count
/// below `u64::MAX - 1`.)
pub proof fn lemma_successive_stamps_distinct(
    last: Seq<char>,
    count: u64,
    ts1: Seq<char>,
    ts2: Seq<char>,
)
    requires
        no_underscore(ts1),
        no_underscore(ts2),
        count < u64::MAX - 1,
    ensures
        ({
            let r1 = stamp_result_spec(last, count, ts1);
            let last2 = if ts1 == last {
                last
            } else {
                ts1
            };
            let count2 = if ts1 == last {
                bumped(count)
            } else {
                1u64
            };
            let r2 = stamp_result_spec(last2, count2, ts2);
            r1 != r2
        }),
{
    reveal_strlit("_");
    assert("_"@.len() == 1);
    let r1 = stamp_result_spec(last, count, ts1);
    let last2 = if ts1 == last {
        last
    } else {
        ts1
    };
    let count2 = if ts1 == last {
        bumped(count)
    } else {
        1u64
    };
    let r2 = stamp_result_spec(last2, count2, ts2);
    if ts1 == last {
        let c1 = bumped(count);
        let c2 = bumped(c1);
        assert(r1 == ts1 + "_"@ + strutil::dec_spec(c1 as nat));
        if ts2 == last2 {
            // both carry suffixes with different counters
            assert(r2 == ts2 + "_"@ + strutil::dec_spec(c2 as nat));
            if r1 == r2 {
                assert(ts1 == last && ts2 == last2 && last2 == last);
                assert(ts1 == ts2);
                let d1 = strutil::dec_spec(c1 as nat);
                let d2 = strutil::dec_spec(c2 as nat);
                assert(r1.len() == ts1.len() + 1 + d1.len());
                assert(r2.len() == ts2.len() + 1 + d2.len());
                assert(d1.len() == d2.len());
                assert forall|i: int| 0 <= i < d1.len() implies d1[i] == d2[i] by {
                    assert(r1[ts1.len() + 1 + i] == d1[i]);
                    assert(r2[ts2.len() + 1 + i] == d2[i]);
                }
                assert(d1 =~= d2);
                strutil::lemma_dec_injective(c1 as nat, c2 as nat);
                assert(c1 != c2);
                assert(false);
            }
        } else {
            // the second result is a raw timestamp with no underscore
            if r1 == r2 {
                assert(r2[ts1.len() as int] == '_') by {
                    assert(r1[ts1.len() as int] == ("_"@)[0]) by {
                        assert(r1 =~= ts1 + "_"@ + strutil::dec_spec(c1 as nat));
                    }
                    reveal_strlit("_");
                }
                assert(no_underscore(ts2));
                assert(ts2[ts1.len() as int] != '_');
                assert(false);
            }
        }
    } else {
        assert(r1 == ts1);
        if ts2 == last2 {
            // the second result carries a suffix while the first is raw
            assert(ts2 == ts1);
            assert(r2 == ts2 + "_"@ + strutil::dec_spec(bumped(1) as nat));
            if r1 == r2 {
                assert(r2[ts2.len() as int] == '_') by {
                    assert(r2 =~= ts2 + "_"@ + strutil::dec_spec(bumped(1) as nat));
                    reveal_strlit("_");
                }
                assert(r1[ts2.len() as int] != '_');
                assert(false);
            }
        } else {
            // two different raw timestamps
            assert(ts2 != ts1);
            assert(r2 == ts2);
        }
    }
}

// ---------------------------------------------------------------------------
// The pipeline
// ---------------------------------------------------------------------------

/// Relates a block list to the component list it produced: the original
/// stem for `Original`, the literal text for a nonempty `Prefix` (an empty
/// one is skipped), a token over `[a-z0-9]` of the clamped length for
/// `Random`, and some timestamp string for `Date`.
pub open spec fn parts_ok(blocks: Seq<NamingBlock>, stem: Seq<char>, parts: Seq<Seq<char>>) -> bool
    decreases blocks.len(),
{
    if blocks.len() == 0 {
        parts.len() == 0
    } else {
        match blocks.last() {
            NamingBlock::Original => parts.len() > 0 && parts.last() == stem && parts_ok(
                blocks.drop_last(),
                stem,
                parts.drop_last(),
            ),
            NamingBlock::Prefix { value } => {
                if value@.len() == 0 {
                    parts_ok(blocks.drop_last(), stem, parts)
                } else {
                    parts.len() > 0 && parts.last() == value@ && parts_ok(
                        blocks.drop_last(),
                        stem,
                        parts.drop_last(),
                    )
                }
            },
            NamingBlock::Random { length } => parts.len() > 0 && parts.last().len()
                == clamped_len_spec(length) && (forall|i: int|
                0 <= i < parts.last().len() ==> is_lower_alnum(#[trigger] parts.last()[i]))
                && parts_ok(blocks.drop_last(), stem, parts.drop_last()),
            NamingBlock::Date => parts.len() > 0 && parts_ok(
                blocks.drop_last(),
                stem,
                parts.drop_last(),
            ),
        }
    }
}

/// The final stem from the joined components: sanitized when requested,
/// with `unnamed` as the fallback for an empty pipeline result.
pub open spec fn pipeline_finish_spec(joined: Seq<char>, sanitize: bool) -> Seq<char> {
    let result = if sanitize {
        sanitize_spec(joined)
    } else {
        joined
    };
    if result.len() == 0 {
        "unnamed"@
    } else {
        result
    }
}

/// Applies the naming pipeline: each block contributes a component, the
/// components are joined with `_`, and the result is sanitized when the
/// configuration asks for it.  With sanitization on, the result always has
/// the sanitized shape: nonempty, only `[a-z0-9_-]`, no leading, trailing
/// or doubled underscore.
pub fn apply_naming_pipeline(original_stem: &str, config: &NamingConfig, engine: &mut NamingEngine)
    -> (r: String)
    ensures
        exists|parts: Seq<Seq<char>>|
            #![auto]
            parts_ok(config.blocks@, original_stem@, parts) && r@ == pipeline_finish_spec(
                strutil::join_spec(parts, "_"@),
                config.sanitize_enabled,
            ),
        config.sanitize_enabled ==> sanitized_shape(r@),
{
    let ghost blocksv = config.blocks@;
    let ghost stemv = original_stem@;
    let mut parts: Vec<String> = Vec::new();
    let mut i: usize = 0;
    while i < config.blocks.len()
        invariant
            blocksv == config.blocks@,
            stemv == original_stem@,
            i <= blocksv.len(),
            parts_ok(
                blocksv.subrange(0, i as int),
                stemv,
                parts@.map_values(|p: String| p@),
            ),
        decreases blocksv.len() - i,
    {
        let ghost before = parts@.map_values(|p: String| p@);
        proof {
            assert(blocksv.subrange(0, i + 1).drop_last() =~= blocksv.subrange(0, i as int));
            assert(blocksv.subrange(0, i + 1).last() == blocksv[i as int]);
        }
        match &config.blocks[i] {
            NamingBlock::Original => {
                parts.push(String::from_str(original_stem));
                proof {
                    assert(parts@.map_values(|p: String| p@) =~= before.push(stemv));
                    assert(parts@.map_values(|p: String| p@).drop_last() =~= before);
                }
            },
            NamingBlock::Prefix { value } => {
                if value.as_str().unicode_len() > 0 {
                    parts.push(value.clone());
                    proof {
                        assert(parts@.map_values(|p: String| p@) =~= before.push(value@));
                        assert(parts@.map_values(|p: String| p@).drop_last() =~= before);
                    }
                }
            },
            NamingBlock::Random { length } => {
                let token = generate_random_string(*length);
                let ghost tokenv = token@;
                parts.push(token);
                proof {
                    assert(parts@.map_values(|p: String| p@) =~= before.push(tokenv));
                    assert(parts@.map_values(|p: String| p@).drop_last() =~= before);
                }
            },
            NamingBlock::Date => {
                let stamp = engine.next_stamp();
                let ghost stampv = stamp@;
                parts.push(stamp);
                proof {
                    assert(parts@.map_values(|p: String| p@) =~= before.push(stampv));
                    assert(parts@.map_values(|p: String| p@).drop_last() =~= before);
                }
            },
        }
        i = i + 1;
    }
    proof {
        assert(blocksv.subrange(0, blocksv.len() as int) =~= blocksv);
    }
    let ghost partsv = parts@.map_values(|p: String| p@);
    let joined = strutil::join_strings(&parts, "_");
    let ghost joinedv = joined@;
    if config.sanitize_enabled {
        let r = sanitize_filename(joined.as_str());
        proof {
            assert(r@.len() > 0);
            assert(r@ == pipeline_finish_spec(joinedv, true));
            assert(parts_ok(blocksv, stemv, partsv) && r@ == pipeline_finish_spec(
                strutil::join_spec(partsv, "_"@),
                config.sanitize_enabled,
            ));
        }
        r
    } else {
        if joined.as_str().unicode_len() == 0 {
            let r = String::from_str("unnamed");
            proof {
                assert(parts_ok(blocksv, stemv, partsv) && r@ == pipeline_finish_spec(
                    strutil::join_spec(partsv, "_"@),
                    config.sanitize_enabled,
                ));
            }
            r
        } else {
            proof {
                assert(parts_ok(blocksv, stemv, partsv) && joinedv == pipeline_finish_spec(
                    strutil::join_spec(partsv, "_"@),
                    config.sanitize_enabled,
                ));
            }
            joined
        }
    }
}

proof fn lemma_trim_us_bounds(s: Seq<char>, lo: int, hi: int)
    requires
        0 <= lo <= hi <= s.len(),
        forall|k: int| 0 <= k < lo ==> s[k] == '_',
        forall|k: int| hi <= k < s.len() ==> s[k] == '_',
        lo < hi ==> s[lo] != '_' && s[hi - 1] != '_',
    ensures
        trim_us(s) == s.subrange(lo, hi),
    decreases s.len(),
{
    if s.len() > 0 && s[0] == '_' {
        let t = s.drop_first();
        assert(lo > 0 || lo == hi || s[lo] != '_');
        if lo == 0 {
            // the whole string must be underscores up to hi == 0
            assert(hi == 0);
            assert(forall|k: int| 0 <= k < t.len() ==> t[k] == s[k + 1]);
            lemma_trim_us_bounds(t, 0, 0);
            assert(s.subrange(0, 0) =~= t.subrange(0, 0));
        } else {
            assert(forall|k: int| 0 <= k < lo - 1 ==> t[k] == s[k + 1]);
            assert(forall|k: int| hi - 1 <= k < t.len() ==> t[k] == s[k + 1]);
            lemma_trim_us_bounds(t, lo - 1, hi - 1);
            assert(s.subrange(lo, hi) =~= t.subrange(lo - 1, hi - 1));
        }
    } else if s.len() > 0 && s.last() == '_' {
        let t = s.drop_last();
        assert(hi < s.len() || lo == hi || s[hi - 1] != '_');
        if hi == s.len() {
            assert(lo == hi);
            assert(lo == s.len());
            assert(s[0] == '_');
            assert(false);
        } else {
            lemma_trim_us_bounds(t, lo, hi);
            assert(s.subrange(lo, hi) =~= t.subrange(lo, hi));
        }
    } else {
        if lo > 0 {
            assert(s[0] == '_');
            assert(false);
        }
        if hi < s.len() {
            assert(s.last() == '_');
            assert(s.len() > 0);
            assert(false);
        }
        assert(s.subrange(lo, hi) =~= s);
    }
}

} // verus!
