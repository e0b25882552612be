//! Verified string helpers shared across the crate: comparison, substring
//! search, ASCII lowercasing, decimal formatting and parsing, joining.

use vstd::prelude::*;
use vstd::string::*;

verus! {

// ---------------------------------------------------------------------------
// Character classes
// ---------------------------------------------------------------------------

pub open spec fn is_digit_char(c: char) -> bool {
    '0' <= c && c <= '9'
}

pub open spec fn lower_char_spec(c: char) -> char {
    if 'A' <= c && c <= 'Z' {
        ((c as u8) + 32) as char
    } else {
        c
    }
}

pub open spec fn lower_seq_spec(s: Seq<char>) -> Seq<char> {
    s.map_values(|c: char| lower_char_spec(c))
}

/// ASCII-lowercases one character; other characters are unchanged.
pub fn lower_char(c: char) -> (r: char)
    ensures
        r == lower_char_spec(c),
{
    if c >= 'A' && c <= 'Z' {
        (((c as u32) as u8) + 32) as char
    } else {
        c
    }
}

/// ASCII-lowercases a string character by character.
pub fn lower_str(s: &str) -> (r: String)
    ensures
        r@ == lower_seq_spec(s@),
{
    let n: usize = s.unicode_len();
    let mut r = String::new();
    let mut i: usize = 0;
    while i < n
        invariant
            n == s@.len(),
            i <= n,
            r@ == lower_seq_spec(s@.subrange(0, i as int)),
        decreases n - i,
    {
        let c = s.get_char(i);
        push_char(&mut r, lower_char(c));
        proof {
            assert(s@.subrange(0, i + 1).drop_last() =~= s@.subrange(0, i as int));
            assert(lower_seq_spec(s@.subrange(0, i + 1)) =~= lower_seq_spec(
                s@.subrange(0, i as int),
            ).push(lower_char_spec(s@[i as int])));
        }
        i = i + 1;
    }
    proof {
        assert(s@.subrange(0, n as int) =~= s@);
    }
    r
}

// ---------------------------------------------------------------------------
// Comparison and substring search
// ---------------------------------------------------------------------------

/// Compares two string slices character by character.
pub fn str_eq(a: &str, b: &str) -> (r: bool)
    ensures
        r == (a@ == b@),
{
    let an: usize = a.unicode_len();
    let bn: usize = b.unicode_len();
    if an != bn {
        proof {
            assert(a@ != b@);
        }
        return false;
    }
    let mut i: usize = 0;
    while i < an
        invariant
            an == a@.len(),
            an == b@.len(),
            i <= an,
            forall|k: int| 0 <= k < i ==> a@[k] == b@[k],
        decreases an - i,
    {
        if a.get_char(i) != b.get_char(i) {
            return false;
        }
        i = i + 1;
    }
    proof {
        assert(a@ =~= b@);
    }
    true
}

/// True when `n` occurs in `h` starting at index `i`.
pub open spec fn matches_at(h: Seq<char>, n: Seq<char>, i: int) -> bool {
    0 <= i && i + n.len() <= h.len() && h.subrange(i, i + n.len() as int) == n
}

/// Checks whether `needle` occurs in `hay` at character index `at`.
pub fn check_match(hay: &str, needle: &str, at: usize) -> (r: bool)
    requires
        at + needle@.len() <= hay@.len(),
    ensures
        r == matches_at(hay@, needle@, at as int),
{
    let hn: usize = hay.unicode_len();
    let n: usize = needle.unicode_len();
    let mut j: usize = 0;
    while j < n
        invariant
            hn == hay@.len(),
            n == needle@.len(),
            at + n <= hn,
            j <= n,
            forall|k: int| 0 <= k < j ==> hay@[at + k] == needle@[k],
        decreases n - j,
    {
        if hay.get_char(at + j) != needle.get_char(j) {
            proof {
                assert(hay@.subrange(at as int, at + n) != needle@) by {
                    assert(hay@.subrange(at as int, at + n)[j as int] != needle@[j as int]);
                }
            }
            return false;
        }
        j = j + 1;
    }
    proof {
        assert(hay@.subrange(at as int, at + n) =~= needle@);
    }
    true
}

/// True when `i` is the first index at which `n` occurs in `h`.
pub open spec fn first_match_at(h: Seq<char>, n: Seq<char>, i: int) -> bool {
    matches_at(h, n, i) && forall|j: int| 0 <= j < i ==> !matches_at(h, n, j)
}

/// The first index at which `n` occurs in `h`, if any.
pub open spec fn find_index_spec(h: Seq<char>, n: Seq<char>) -> Option<int> {
    if exists|i: int| first_match_at(h, n, i) {
        Some(choose|i: int| first_match_at(h, n, i))
    } else {
        None
    }
}

/// Two first matches are the same index.
pub proof fn lemma_first_match_unique(h: Seq<char>, n: Seq<char>, i: int, j: int)
    requires
        first_match_at(h, n, i),
        first_match_at(h, n, j),
    ensures
        i == j,
{
    if i < j {
        assert(!matches_at(h, n, i));
    }
    if j < i {
        assert(!matches_at(h, n, j));
    }
}

/// Finds the first character index where `needle` occurs in `hay`.
pub fn find_sub(hay: &str, needle: &str) -> (r: Option<usize>)
    ensures
        match r {
            Some(i) => first_match_at(hay@, needle@, i as int) && find_index_spec(hay@, needle@)
                == Some(i as int),
            None => find_index_spec(hay@, needle@) is None && forall|j: int|
                !matches_at(hay@, needle@, j),
        },
{
    let r = find_sub_inner(hay, needle);
    proof {
        match r {
            Some(i) => {
                assert(first_match_at(hay@, needle@, i as int));
                let j = choose|j: int| first_match_at(hay@, needle@, j);
                lemma_first_match_unique(hay@, needle@, i as int, j);
            },
            None => {
                if exists|i: int| first_match_at(hay@, needle@, i) {
                    let i = choose|i: int| first_match_at(hay@, needle@, i);
                    assert(!matches_at(hay@, needle@, i));
                }
            },
        }
    }
    r
}

fn find_sub_inner(hay: &str, needle: &str) -> (r: Option<usize>)
    ensures
        match r {
            Some(i) => matches_at(hay@, needle@, i as int) && forall|j: int|
                0 <= j < i ==> !matches_at(hay@, needle@, j),
            None => forall|j: int| !matches_at(hay@, needle@, j),
        },
{
    let hn: usize = hay.unicode_len();
    let nn: usize = needle.unicode_len();
    if nn > hn {
        return None;
    }
    let last: usize = hn - nn;
    let mut i: usize = 0;
    loop
        invariant
            hn == hay@.len(),
            nn == needle@.len(),
            nn <= hn,
            last == hn - nn,
            i <= last,
            forall|j: int| 0 <= j < i ==> !matches_at(hay@, needle@, j),
        decreases last - i,
    {
        if check_match(hay, needle, i) {
            return Some(i);
        }
        if i == last {
            return None;
        }
        i = i + 1;
    }
}

/// True when `needle` occurs somewhere in `hay`.
pub fn contains_sub(hay: &str, needle: &str) -> (r: bool)
    ensures
        r == exists|i: int| matches_at(hay@, needle@, i),
{
    match find_sub(hay, needle) {
        Some(i) => {
            proof {
                assert(matches_at(hay@, needle@, i as int));
            }
            true
        },
        None => false,
    }
}

/// True when `p` is a prefix of `s`.
pub open spec fn has_prefix(s: Seq<char>, p: Seq<char>) -> bool {
    p.len() <= s.len() && s.subrange(0, p.len() as int) == p
}

/// True when `p` is a suffix of `s`.
pub open spec fn has_suffix(s: Seq<char>, p: Seq<char>) -> bool {
    p.len() <= s.len() && s.subrange(s.len() - p.len(), s.len() as int) == p
}

/// Strips `p` off the front of `s` when it is a prefix.
pub fn strip_prefix_str<'a>(s: &'a str, p: &str) -> (r: Option<&'a str>)
    ensures
        match r {
            Some(t) => has_prefix(s@, p@) && t@ == s@.subrange(p@.len() as int, s@.len() as int),
            None => !has_prefix(s@, p@),
        },
{
    if str_starts_with(s, p) {
        Some(s.substring_char(p.unicode_len(), s.unicode_len()))
    } else {
        None
    }
}

/// Checks whether `prefix` starts `s`.
pub fn str_starts_with(s: &str, prefix: &str) -> (r: bool)
    ensures
        r == has_prefix(s@, prefix@),
{
    let sn: usize = s.unicode_len();
    let pn: usize = prefix.unicode_len();
    if pn > sn {
        return false;
    }
    check_match(s, prefix, 0)
}

/// Checks whether `suffix` ends `s`.
pub fn str_ends_with(s: &str, suffix: &str) -> (r: bool)
    ensures
        r == has_suffix(s@, suffix@),
{
    let sn: usize = s.unicode_len();
    let pn: usize = suffix.unicode_len();
    if pn > sn {
        return false;
    }
    check_match(s, suffix, sn - pn)
}

// ---------------------------------------------------------------------------
// Decimal formatting and parsing
// ---------------------------------------------------------------------------

pub open spec fn digit_char_spec(d: int) -> char {
    ((48 + d) as u8) as char
}

/// The usual decimal rendering of a natural number, most significant
/// digit first, with no leading zeros.
pub open spec fn dec_spec(n: nat) -> Seq<char>
    decreases n,
{
    if n < 10 {
        seq![digit_char_spec(n as int)]
    } else {
        dec_spec(n / 10).push(digit_char_spec((n % 10) as int))
    }
}

/// Decimal rendering of a signed number: a minus sign before the digits.
pub open spec fn dec_i64_spec(n: int) -> Seq<char> {
    if n < 0 {
        seq!['-'] + dec_spec((-n) as nat)
    } else {
        dec_spec(n as nat)
    }
}

/// Every character of a decimal rendering is a digit.
pub proof fn lemma_dec_digits(n: nat)
    ensures
        dec_spec(n).len() >= 1,
        forall|i: int| 0 <= i < dec_spec(n).len() ==> is_digit_char(#[trigger] dec_spec(n)[i]),
    decreases n,
{
    if n < 10 {
        assert(is_digit_char(digit_char_spec(n as int)));
    } else {
        lemma_dec_digits(n / 10);
        assert(is_digit_char(digit_char_spec((n % 10) as int)));
    }
}

/// Distinct numbers have distinct decimal renderings.
pub proof fn lemma_dec_injective(a: nat, b: nat)
    requires
        dec_spec(a) == dec_spec(b),
    ensures
        a == b,
    decreases a,
{
    lemma_dec_digits(a);
    lemma_dec_digits(b);
    if a < 10 && b < 10 {
        assert(dec_spec(a) == seq![digit_char_spec(a as int)]);
        assert(dec_spec(b) == seq![digit_char_spec(b as int)]);
        assert(digit_char_spec(a as int) == dec_spec(a)[0]);
        assert(digit_char_spec(a as int) as u32 == 48 + a);
        assert(digit_char_spec(b as int) as u32 == 48 + b);
    } else if a < 10 {
        assert(dec_spec(b).len() >= 2) by {
            lemma_dec_digits(b / 10);
        }
    } else if b < 10 {
        assert(dec_spec(a).len() >= 2) by {
            lemma_dec_digits(a / 10);
        }
    } else {
        let pa = dec_spec(a / 10);
        let pb = dec_spec(b / 10);
        let ca = digit_char_spec((a % 10) as int);
        let cb = digit_char_spec((b % 10) as int);
        assert(dec_spec(a) == pa.push(ca));
        assert(dec_spec(b) == pb.push(cb));
        assert(ca == pa.push(ca).last());
        assert(cb == pb.push(cb).last());
        assert(ca as u32 == 48 + a % 10);
        assert(cb as u32 == 48 + b % 10);
        assert(a % 10 == b % 10);
        assert(pa == pb) by {
            assert(pa.push(ca).drop_last() =~= pa);
            assert(pb.push(cb).drop_last() =~= pb);
        }
        lemma_dec_injective(a / 10, b / 10);
    }
}

/// Renders a number in decimal.
pub fn u64_to_dec(n: u64) -> (r: String)
    ensures
        r@ == dec_spec(n as nat),
    decreases n,
{
    if n < 10 {
        let mut r = String::new();
        push_char(&mut r, (48 + (n as u8)) as char);
        proof {
            assert(r@ =~= dec_spec(n as nat));
        }
        r
    } else {
        let mut r = u64_to_dec(n / 10);
        push_char(&mut r, (48 + ((n % 10) as u8)) as char);
        r
    }
}

/// Renders a signed number in decimal, with a leading minus sign when
/// negative.
pub fn i64_to_dec(n: i64) -> (r: String)
    ensures
        r@ == dec_i64_spec(n as int),
{
    if n < 0 {
        let mut r = String::new();
        push_char(&mut r, '-');
        let mag: u64 = if n == i64::MIN {
            9223372036854775808u64
        } else {
            (-n) as u64
        };
        let digits = u64_to_dec(mag);
        let out = r.concat(digits.as_str());
        proof {
            assert(out@ =~= dec_i64_spec(n as int));
        }
        out
    } else {
        u64_to_dec(n as u64)
    }
}

/// The canonical shape of a decimal rendering: nonempty digits with no
/// leading zero (except the single digit `0`).
pub open spec fn canonical_digits(m: Seq<char>) -> bool {
    all_digits(m) && m.len() > 0 && (m.len() == 1 || m[0] != '0')
}

/// Reading back a decimal rendering gives the number.
pub proof fn lemma_dec_value_roundtrip(n: nat)
    ensures
        digits_value(dec_spec(n)) == n,
    decreases n,
{
    if n < 10 {
        let c = digit_char_spec(n as int);
        assert(dec_spec(n) == seq![c]);
        assert(dec_spec(n).last() == c);
        assert(dec_spec(n).drop_last() =~= Seq::<char>::empty());
        assert(digits_value(Seq::<char>::empty()) == 0);
        assert(c as u32 == 48 + n);
        assert(c as nat == 48 + n);
        assert(digits_value(dec_spec(n)) == 0 * 10 + (c as nat - 48) as nat);
    } else {
        lemma_dec_value_roundtrip(n / 10);
        let d = digit_char_spec((n % 10) as int);
        assert(dec_spec(n) == dec_spec(n / 10).push(d));
        assert(dec_spec(n).last() == d);
        assert(dec_spec(n).drop_last() =~= dec_spec(n / 10));
        assert(d as u32 == 48 + n % 10);
        assert(d as nat == 48 + n % 10);
        assert(digits_value(dec_spec(n)) == (n / 10) * 10 + (d as nat - 48) as nat);
        assert((n / 10) * 10 + n % 10 == n) by {
            vstd::arithmetic::div_mod::lemma_fundamental_div_mod(n as int, 10);
        }
    }
}

/// Decimal renderings are canonical.
pub proof fn lemma_dec_canonical(n: nat)
    ensures
        canonical_digits(dec_spec(n)),
        n < 10 ==> dec_spec(n).len() == 1,
        n >= 10 ==> dec_spec(n).len() >= 2 && dec_spec(n)[0] != '0',
    decreases n,
{
    lemma_dec_digits(n);
    if n < 10 {
        assert(dec_spec(n) == seq![digit_char_spec(n as int)]);
    } else {
        lemma_dec_canonical(n / 10);
        assert(dec_spec(n) == dec_spec(n / 10).push(digit_char_spec((n % 10) as int)));
        assert(dec_spec(n)[0] == dec_spec(n / 10)[0]);
        if n / 10 < 10 {
            assert(dec_spec(n / 10) == seq![digit_char_spec((n / 10) as int)]);
            assert(digit_char_spec((n / 10) as int) as u32 == 48 + n / 10);
            assert('0' as u32 == 48);
            assert(n / 10 >= 1);
        }
    }
}

/// The rendering of a number below `pow10(k)` has at most `k` digits.
pub proof fn lemma_dec_len_le(n: nat, k: nat)
    requires
        k >= 1,
        n < pow10_spec(k),
    ensures
        dec_spec(n).len() <= k,
    decreases n,
{
    if n < 10 {
    } else {
        assert(k >= 2) by {
            if k == 1 {
                assert(pow10_spec(1) == 10) by {
                    reveal_with_fuel(pow10_spec, 2);
                }
            }
        }
        assert(pow10_spec(k) == 10 * pow10_spec((k - 1) as nat));
        assert(n / 10 < pow10_spec((k - 1) as nat)) by {
            if n / 10 >= pow10_spec((k - 1) as nat) {
                assert(n >= (n / 10) * 10) by (nonlinear_arith)
                    requires
                        n >= 0,
                ;
                assert((n / 10) * 10 >= pow10_spec((k - 1) as nat) * 10) by (nonlinear_arith)
                    requires
                        n / 10 >= pow10_spec((k - 1) as nat),
                ;
            }
        }
        lemma_dec_len_le(n / 10, (k - 1) as nat);
    }
}

/// A nonempty digit string with a nonzero leading digit has value at
/// least 1 (and at least 10 when it has two or more digits).
proof fn lemma_canonical_value_lower(m: Seq<char>)
    requires
        all_digits(m),
        m.len() >= 1,
        m[0] != '0',
    ensures
        digits_value(m) >= 1,
        m.len() >= 2 ==> digits_value(m) >= 10,
    decreases m.len(),
{
    if m.len() == 1 {
        assert(is_digit_char(m[0]));
        assert(m.last() == m[0]);
        assert(m.drop_last() =~= Seq::<char>::empty());
        assert(m[0] as u32 != 48) by {
            assert('0' as u32 == 48);
        }
    } else {
        let dl = m.drop_last();
        assert(forall|i: int| 0 <= i < dl.len() ==> is_digit_char(#[trigger] dl[i]));
        assert(dl[0] == m[0]);
        lemma_canonical_value_lower(dl);
        assert(digits_value(m) == digits_value(dl) * 10 + (m.last() as nat - 48));
        assert(digits_value(dl) * 10 >= 10) by (nonlinear_arith)
            requires
                digits_value(dl) >= 1,
        ;
    }
}

/// A canonical digit string is the decimal rendering of its value.
pub proof fn lemma_canonical_unique(m: Seq<char>)
    requires
        canonical_digits(m),
    ensures
        m == dec_spec(digits_value(m)),
    decreases m.len(),
{
    let n = digits_value(m);
    if m.len() == 1 {
        assert(is_digit_char(m[0]));
        assert(m.last() == m[0]);
        assert(m.drop_last() =~= Seq::<char>::empty());
        assert(digits_value(m.drop_last()) == 0);
        assert(n == digits_value(m.drop_last()) * 10 + (m.last() as nat - 48) as nat);
        assert(n == m[0] as nat - 48);
        assert(n < 10);
        assert(digit_char_spec(n as int) as u32 == 48 + n);
        assert(m[0] as u32 == 48 + n);
        assert(m =~= dec_spec(n));
    } else {
        let dl = m.drop_last();
        assert(forall|i: int| 0 <= i < dl.len() ==> is_digit_char(#[trigger] dl[i]));
        assert(dl[0] == m[0]);
        assert(canonical_digits(dl));
        lemma_canonical_value_lower(m);
        assert(n >= 10);
        let d = m.last() as nat - 48;
        assert(n == digits_value(dl) * 10 + d);
        assert(d < 10) by {
            assert(is_digit_char(m.last()));
        }
        assert(n / 10 == digits_value(dl) && n % 10 == d) by (nonlinear_arith)
            requires
                n == digits_value(dl) * 10 + d,
                0 <= d < 10,
                digits_value(dl) >= 0,
        ;
        lemma_canonical_unique(dl);
        assert(dec_spec(n) == dec_spec(n / 10).push(digit_char_spec((n % 10) as int)));
        assert(digit_char_spec(d as int) as u32 == 48 + d);
        assert(m.last() as u32 == 48 + d);
        assert(m =~= dec_spec(n));
    }
}

/// The numeric value of a digit string (most significant digit first).
pub open spec fn digits_value(s: Seq<char>) -> nat
    decreases s.len(),
{
    if s.len() == 0 {
        0
    } else {
        digits_value(s.drop_last()) * 10 + (s.last() as nat - 48) as nat
    }
}

pub open spec fn all_digits(s: Seq<char>) -> bool {
    forall|i: int| 0 <= i < s.len() ==> is_digit_char(#[trigger] s[i])
}

pub open spec fn pow10_spec(k: nat) -> nat
    decreases k,
{
    if k == 0 {
        1
    } else {
        10 * pow10_spec((k - 1) as nat)
    }
}

/// Computes a small power of ten.
pub fn pow10_small(k: u8) -> (r: u64)
    requires
        k <= 6,
    ensures
        r as nat == pow10_spec(k as nat),
{
    proof {
        reveal_with_fuel(pow10_spec, 8);
    }
    match k {
        0 => 1,
        1 => 10,
        2 => 100,
        3 => 1000,
        4 => 10000,
        5 => 100000,
        _ => 1000000,
    }
}

/// The value of a digit string never decreases as digits are appended.
proof fn lemma_digits_value_prefix_le(s: Seq<char>, i: int)
    requires
        0 <= i <= s.len(),
    ensures
        digits_value(s.subrange(0, i)) <= digits_value(s),
    decreases s.len() - i,
{
    if i < s.len() {
        let t = s.subrange(0, i + 1);
        assert(t.drop_last() =~= s.subrange(0, i));
        assert(digits_value(s.subrange(0, i)) * 10 <= digits_value(t) * 10 + (t.last() as nat
            - 48) as nat);
        assert(digits_value(s.subrange(0, i)) <= digits_value(s.subrange(0, i)) * 10);
        lemma_digits_value_prefix_le(s, i + 1);
    } else {
        assert(s.subrange(0, i) =~= s);
    }
}

/// Parses an unsigned decimal integer.  Succeeds exactly on nonempty
/// all-digit strings whose value fits in a `u64`.
pub fn parse_u64_digits(s: &str) -> (r: Option<u64>)
    ensures
        match r {
            Some(v) => s@.len() > 0 && all_digits(s@) && v as nat == digits_value(s@),
            None => s@.len() == 0 || !all_digits(s@) || digits_value(s@) > u64::MAX,
        },
{
    let n: usize = s.unicode_len();
    if n == 0 {
        return None;
    }
    let mut acc: u64 = 0;
    let mut i: usize = 0;
    while i < n
        invariant
            n == s@.len(),
            i <= n,
            all_digits(s@.subrange(0, i as int)),
            acc as nat == digits_value(s@.subrange(0, i as int)),
        decreases n - i,
    {
        let c = s.get_char(i);
        if !(c >= '0' && c <= '9') {
            proof {
                assert(!is_digit_char(s@[i as int]));
            }
            return None;
        }
        let d: u64 = ((c as u32) as u64) - 48;
        if acc > (u64::MAX - d) / 10 {
            proof {
                let t = s@.subrange(0, i + 1);
                assert(t.drop_last() =~= s@.subrange(0, i as int));
                assert(digits_value(t) == acc as nat * 10 + d);
                assert(acc as nat * 10 + d > u64::MAX) by {
                    assert(acc as nat >= (u64::MAX - d) / 10 + 1);
                    assert(((u64::MAX - d) / 10 + 1) * 10 >= u64::MAX - d + 1) by (nonlinear_arith);
                    assert(acc as nat * 10 >= ((u64::MAX - d) / 10 + 1) * 10) by (nonlinear_arith)
                        requires
                            acc as nat >= (u64::MAX - d) / 10 + 1,
                    ;
                }
                lemma_digits_value_prefix_le(s@, i + 1);
            }
            return None;
        }
        proof {
            let t = s@.subrange(0, i + 1);
            assert(t.drop_last() =~= s@.subrange(0, i as int));
        }
        acc = acc * 10 + d;
        i = i + 1;
    }
    proof {
        assert(s@.subrange(0, n as int) =~= s@);
    }
    Some(acc)
}

// ---------------------------------------------------------------------------
// Joining
// ---------------------------------------------------------------------------

/// The concatenation of `parts` with `sep` between consecutive elements.
pub open spec fn join_spec(parts: Seq<Seq<char>>, sep: Seq<char>) -> Seq<char>
    decreases parts.len(),
{
    if parts.len() == 0 {
        Seq::empty()
    } else if parts.len() == 1 {
        parts[0]
    } else {
        join_spec(parts.drop_last(), sep) + sep + parts.last()
    }
}

/// Joins strings with a separator.
pub fn join_strings(parts: &Vec<String>, sep: &str) -> (r: String)
    ensures
        r@ == join_spec(parts@.map_values(|p: String| p@), sep@),
{
    let ghost views = parts@.map_values(|p: String| p@);
    let mut r = String::new();
    let mut i: usize = 0;
    while i < parts.len()
        invariant
            views == parts@.map_values(|p: String| p@),
            i <= parts@.len(),
            r@ == join_spec(views.subrange(0, i as int), sep@),
        decreases parts@.len() - i,
    {
        if i > 0 {
            r.append(sep);
        }
        r.append(parts[i].as_str());
        proof {
            let t = views.subrange(0, i + 1);
            assert(t.drop_last() =~= views.subrange(0, i as int));
            assert(t.last() == views[i as int]);
            if i == 0 {
                assert(r@ =~= join_spec(t, sep@));
            }
        }
        i = i + 1;
    }
    proof {
        assert(views.subrange(0, parts@.len() as int) =~= views);
    }
    r
}

// ---------------------------------------------------------------------------
// Trimming
// ---------------------------------------------------------------------------

pub open spec fn is_ws_char(c: char) -> bool {
    c == ' ' || c == '\t' || c == '\r' || c == '\n'
}

/// `s` without leading and trailing ASCII whitespace.
pub open spec fn trim_spec(s: Seq<char>) -> Seq<char>
    decreases s.len(),
{
    if s.len() > 0 && is_ws_char(s[0]) {
        trim_spec(s.drop_first())
    } else if s.len() > 0 && is_ws_char(s.last()) {
        trim_spec(s.drop_last())
    } else {
        s
    }
}

proof fn lemma_trim_bounds(s: Seq<char>, lo: int, hi: int)
    requires
        0 <= lo <= hi <= s.len(),
        forall|k: int| 0 <= k < lo ==> is_ws_char(s[k]),
        forall|k: int| hi <= k < s.len() ==> is_ws_char(s[k]),
        lo < hi ==> !is_ws_char(s[lo]) && !is_ws_char(s[hi - 1]),
    ensures
        trim_spec(s) == s.subrange(lo, hi),
    decreases s.len(),
{
    if lo == hi {
        if s.len() > 0 {
            if is_ws_char(s[0]) {
                let t = s.drop_first();
                assert(forall|k: int| 0 <= k < lo - 1 ==> is_ws_char(#[trigger] t[k]));
                assert(forall|k: int|
                    0 <= k && hi - 1 <= k < t.len() ==> is_ws_char(#[trigger] t[k]));
                lemma_trim_bounds(t, if lo >= 1 { lo - 1 } else { 0 }, if hi >= 1 {
                    hi - 1
                } else {
                    0
                });
                assert(s.subrange(lo, hi) =~= t.subrange(
                    if lo >= 1 { lo - 1 } else { 0 },
                    if hi >= 1 { hi - 1 } else { 0 },
                ));
            } else {
                assert(is_ws_char(s.last()));
                let t = s.drop_last();
                lemma_trim_bounds(t, if lo <= t.len() { lo } else { t.len() as int }, if hi
                    <= t.len() {
                    hi
                } else {
                    t.len() as int
                });
                assert(s.subrange(lo, hi) =~= t.subrange(
                    if lo <= t.len() { lo } else { t.len() as int },
                    if hi <= t.len() { hi } else { t.len() as int },
                ));
            }
        } else {
            assert(s.subrange(lo, hi) =~= s);
        }
    } else {
        if lo > 0 {
            assert(is_ws_char(s[0]));
            let t = s.drop_first();
            assert(forall|k: int| 0 <= k < lo - 1 ==> is_ws_char(#[trigger] t[k]));
            assert(forall|k: int| hi - 1 <= k < t.len() ==> is_ws_char(#[trigger] t[k]));
            lemma_trim_bounds(t, lo - 1, hi - 1);
            assert(s.subrange(lo, hi) =~= t.subrange(lo - 1, hi - 1));
        } else if hi < s.len() {
            assert(is_ws_char(s.last()));
            let t = s.drop_last();
            lemma_trim_bounds(t, lo, hi);
            assert(s.subrange(lo, hi) =~= t.subrange(lo, hi));
        } else {
            assert(s.subrange(lo, hi) =~= s);
        }
    }
}

/// Removes leading and trailing ASCII whitespace.
pub fn trim_ws<'a>(s: &'a str) -> (r: &'a str)
    ensures
        r@ == trim_spec(s@),
{
    let n: usize = s.unicode_len();
    let mut lo: usize = 0;
    loop
        invariant
            n == s@.len(),
            lo <= n,
            forall|k: int| 0 <= k < lo ==> is_ws_char(s@[k]),
        ensures
            lo <= n,
            forall|k: int| 0 <= k < lo ==> is_ws_char(s@[k]),
            lo == n || !is_ws_char(s@[lo as int]),
        decreases n - lo,
    {
        if lo >= n {
            break ;
        }
        let c = s.get_char(lo);
        if !(c == ' ' || c == '\t' || c == '\r' || c == '\n') {
            break ;
        }
        lo = lo + 1;
    }
    let mut hi: usize = n;
    loop
        invariant
            n == s@.len(),
            lo <= hi <= n,
            forall|k: int| 0 <= k < lo ==> is_ws_char(s@[k]),
            forall|k: int| hi <= k < n ==> is_ws_char(s@[k]),
            lo == n || !is_ws_char(s@[lo as int]),
        ensures
            lo <= hi <= n,
            forall|k: int| hi <= k < n ==> is_ws_char(s@[k]),
            hi == lo || !is_ws_char(s@[hi - 1]),
        decreases hi,
    {
        if hi <= lo {
            break ;
        }
        let c = s.get_char(hi - 1);
        if !(c == ' ' || c == '\t' || c == '\r' || c == '\n') {
            break ;
        }
        hi = hi - 1;
    }
    proof {
        if lo < hi {
            assert(!is_ws_char(s@[lo as int]));
        }
        lemma_trim_bounds(s@, lo as int, hi as int);
    }
    s.substring_char(lo, hi)
}

// ---------------------------------------------------------------------------
// Trusted bridge to `String::push`
// ---------------------------------------------------------------------------

/// Relies on `String::push`: appends exactly one character at the end.
#[verifier::external_body]
pub fn push_char(s: &mut String, c: char)
    ensures
        final(s)@ == old(s)@.push(c),
{
    s.push(c);
}

} // verus!
