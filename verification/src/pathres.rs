//! Output-path resolution: directory and stem selection, the extension
//! rule for direct-copy mode, and conflict resolution against the set of
//! already-existing paths.

use vstd::prelude::*;
use vstd::string::*;
use vstd::pervasive::VecAdditionalExecFns;
use crate::error::ConversionError;
use crate::strutil;

verus! {

/// `dir/stem.ext`.
pub open spec fn joined_path_spec(dir: Seq<char>, stem: Seq<char>, ext: Seq<char>) -> Seq<char> {
    dir + "/"@ + stem + "."@ + ext
}

/// `dir/stem_v.ext`: the auto-rename candidate for version `v`.
pub open spec fn numbered_path_spec(dir: Seq<char>, stem: Seq<char>, ext: Seq<char>, v: int) -> Seq<
    char,
> {
    dir + "/"@ + stem + "_"@ + strutil::dec_spec(v as nat) + "."@ + ext
}

/// Membership of a path in the set of existing paths.
pub open spec fn contains_path(ex: Seq<Seq<char>>, p: Seq<char>) -> bool {
    exists|i: int| 0 <= i < ex.len() && ex[i] == p
}

/// Joins a directory, stem and extension into a path.
pub fn join_output_path(dir: &str, stem: &str, ext: &str) -> (r: String)
    ensures
        r@ == joined_path_spec(dir@, stem@, ext@),
{
    let mut s = String::from_str(dir);
    s.append("/");
    s.append(stem);
    s.append(".");
    s.append(ext);
    s
}

/// Builds the auto-rename candidate `dir/stem_v.ext`.
pub fn numbered_path(dir: &str, stem: &str, ext: &str, v: u64) -> (r: String)
    ensures
        r@ == numbered_path_spec(dir@, stem@, ext@, v as int),
{
    let mut s = String::from_str(dir);
    s.append("/");
    s.append(stem);
    s.append("_");
    let digits = strutil::u64_to_dec(v);
    s.append(digits.as_str());
    s.append(".");
    s.append(ext);
    s
}

/// The extension the output file really gets: in direct-copy mode the
/// input's original extension, otherwise the target format's canonical
/// extension.
pub open spec fn used_extension_spec(
    processing_enabled: bool,
    target_ext: Seq<char>,
    input_ext: Seq<char>,
) -> Seq<char> {
    if processing_enabled {
        target_ext
    } else {
        input_ext
    }
}

/// Chooses the output extension for a job.
pub fn used_extension<'a>(processing_enabled: bool, target_ext: &'a str, input_ext: &'a str) -> (r:
    &'a str)
    ensures
        r@ == used_extension_spec(processing_enabled, target_ext@, input_ext@),
{
    if processing_enabled {
        target_ext
    } else {
        input_ext
    }
}

/// The output directory: the override when given, else the input's parent.
pub open spec fn output_dir_spec(input_parent: Seq<char>, over: Option<Seq<char>>) -> Seq<char> {
    match over {
        Some(d) => d,
        None => input_parent,
    }
}

/// The output stem: the naming-pipeline result when a naming configuration
/// was given, else the input's stem.
pub open spec fn output_stem_spec(input_stem: Seq<char>, named: Option<Seq<char>>) -> Seq<char> {
    match named {
        Some(s) => s,
        None => input_stem,
    }
}

/// Computes the pre-conflict output path from the input's stem and parent
/// directory, the optional output-directory override, the optional
/// naming-pipeline result and the extension to use.
pub fn calculate_output_path(
    input_stem: &str,
    input_parent: &str,
    output_directory: Option<&String>,
    named_stem: Option<&String>,
    extension: &str,
) -> (r: String)
    ensures
        r@ == joined_path_spec(
            output_dir_spec(
                input_parent@,
                match output_directory {
                    Some(d) => Some(d@),
                    None => None,
                },
            ),
            output_stem_spec(
                input_stem@,
                match named_stem {
                    Some(s) => Some(s@),
                    None => None,
                },
            ),
            extension@,
        ),
{
    let dir: &str = match output_directory {
        Some(d) => d.as_str(),
        None => input_parent,
    };
    let stem: &str = match named_stem {
        Some(s) => s.as_str(),
        None => input_stem,
    };
    join_output_path(dir, stem, extension)
}

/// Checks whether `p` is among the existing paths.
fn exists_in(existing: &Vec<String>, p: &str) -> (r: bool)
    ensures
        r == contains_path(existing@.map_values(|e: String| e@), p@),
{
    let ghost ex = existing@.map_values(|e: String| e@);
    let mut i: usize = 0;
    while i < existing.len()
        invariant
            ex == existing@.map_values(|e: String| e@),
            i <= existing@.len(),
            forall|j: int| 0 <= j < i ==> ex[j] != p@,
        decreases existing@.len() - i,
    {
        if strutil::str_eq(existing[i].as_str(), p) {
            proof {
                assert(ex[i as int] == p@);
            }
            return true;
        }
        i = i + 1;
    }
    false
}

/// Parses an existing path as an auto-rename candidate `dir/stem_v.ext`
/// with `2 <= v <= 9999`, returning `v` when it is exactly such a path.
fn parse_numbered(entry: &str, dir: &str, stem: &str, ext: &str) -> (r: Option<u64>)
    ensures
        match r {
            Some(v) => 2 <= v <= 9999 && entry@ == numbered_path_spec(dir@, stem@, ext@, v as int),
            None => forall|v: int|
                2 <= v <= 9999 ==> entry@ != numbered_path_spec(dir@, stem@, ext@, v),
        },
{
    let mut pref = String::from_str(dir);
    pref.append("/");
    pref.append(stem);
    pref.append("_");
    let mut suf = String::from_str(".");
    suf.append(ext);
    let ghost dirv = dir@;
    let ghost stemv = stem@;
    let ghost extv = ext@;
    proof {
        assert(pref@ == dirv + "/"@ + stemv + "_"@);
        assert(suf@ == "."@ + extv);
        assert forall|v: int|
            2 <= v <= 9999 implies numbered_path_spec(dirv, stemv, extv, v) == pref@
            + strutil::dec_spec(v as nat) + suf@ by {
            assert(numbered_path_spec(dirv, stemv, extv, v) =~= pref@ + strutil::dec_spec(v as nat)
                + suf@);
        }
    }
    let n: usize = entry.unicode_len();
    let pl: usize = pref.as_str().unicode_len();
    let sl: usize = suf.as_str().unicode_len();
    if !strutil::str_starts_with(entry, pref.as_str()) {
        proof {
            assert forall|v: int|
                2 <= v <= 9999 implies entry@ != numbered_path_spec(dirv, stemv, extv, v) by {
                let m = strutil::dec_spec(v as nat);
                assert((pref@ + m + suf@).subrange(0, pref@.len() as int) =~= pref@);
            }
        }
        return None;
    }
    if !strutil::str_ends_with(entry, suf.as_str()) {
        proof {
            assert forall|v: int|
                2 <= v <= 9999 implies entry@ != numbered_path_spec(dirv, stemv, extv, v) by {
                let m = strutil::dec_spec(v as nat);
                let w = pref@ + m + suf@;
                assert(w.subrange(w.len() - suf@.len(), w.len() as int) =~= suf@);
            }
        }
        return None;
    }
    if n - pl <= sl {
        proof {
            assert forall|v: int|
                2 <= v <= 9999 implies entry@ != numbered_path_spec(dirv, stemv, extv, v) by {
                let m = strutil::dec_spec(v as nat);
                strutil::lemma_dec_digits(v as nat);
                assert((pref@ + m + suf@).len() == pl + m.len() + sl);
            }
        }
        return None;
    }
    let middle = entry.substring_char(pl, n - sl);
    let ghost mid = middle@;
    proof {
        assert(mid == entry@.subrange(pl as int, n - sl));
        assert(entry@ =~= entry@.subrange(0, pl as int) + mid + entry@.subrange(n - sl, n as int));
        assert(entry@.subrange(0, pl as int) == pref@);
        assert(entry@.subrange(n - sl, n as int) == suf@);
        // if the entry is a numbered candidate, the middle is its rendering
        assert forall|v: int|
            2 <= v <= 9999 && entry@ == numbered_path_spec(dirv, stemv, extv, v) implies mid
            == strutil::dec_spec(v as nat) by {
            let m = strutil::dec_spec(v as nat);
            let w = pref@ + m + suf@;
            assert(w.subrange(pl as int, w.len() - sl) =~= m);
        }
    }
    let ml: usize = middle.unicode_len();
    if ml > 4 {
        proof {
            assert forall|v: int|
                2 <= v <= 9999 implies entry@ != numbered_path_spec(dirv, stemv, extv, v) by {
                if entry@ == numbered_path_spec(dirv, stemv, extv, v) {
                    assert(strutil::pow10_spec(4) == 10000) by {
                        reveal_with_fuel(strutil::pow10_spec, 5);
                    }
                    strutil::lemma_dec_len_le(v as nat, 4);
                }
            }
        }
        return None;
    }
    let c0 = middle.get_char(0);
    if c0 == '0' && ml > 1 {
        proof {
            assert forall|v: int|
                2 <= v <= 9999 implies entry@ != numbered_path_spec(dirv, stemv, extv, v) by {
                if entry@ == numbered_path_spec(dirv, stemv, extv, v) {
                    strutil::lemma_dec_canonical(v as nat);
                }
            }
        }
        return None;
    }
    let v = match strutil::parse_u64_digits(middle) {
        Some(v) => v,
        None => {
            proof {
                assert forall|u: int|
                    2 <= u <= 9999 implies entry@ != numbered_path_spec(dirv, stemv, extv, u) by {
                    if entry@ == numbered_path_spec(dirv, stemv, extv, u) {
                        strutil::lemma_dec_canonical(u as nat);
                        strutil::lemma_dec_value_roundtrip(u as nat);
                    }
                }
            }
            return None;
        },
    };
    if v < 2 || v > 9999 {
        proof {
            assert forall|u: int|
                2 <= u <= 9999 implies entry@ != numbered_path_spec(dirv, stemv, extv, u) by {
                if entry@ == numbered_path_spec(dirv, stemv, extv, u) {
                    strutil::lemma_dec_value_roundtrip(u as nat);
                }
            }
        }
        return None;
    }
    proof {
        assert(strutil::canonical_digits(mid));
        strutil::lemma_canonical_unique(mid);
        assert(mid == strutil::dec_spec(v as nat));
        assert(entry@ =~= numbered_path_spec(dirv, stemv, extv, v as int));
    }
    Some(v)
}

/// Distinct versions give distinct auto-rename candidates.
proof fn lemma_numbered_injective(dir: Seq<char>, stem: Seq<char>, ext: Seq<char>, u: int, v: int)
    requires
        0 <= u,
        0 <= v,
        numbered_path_spec(dir, stem, ext, u) == numbered_path_spec(dir, stem, ext, v),
    ensures
        u == v,
{
    let a = dir + "/"@ + stem + "_"@;
    let m1 = strutil::dec_spec(u as nat);
    let m2 = strutil::dec_spec(v as nat);
    let b = "."@ + ext;
    assert(numbered_path_spec(dir, stem, ext, u) =~= a + m1 + b);
    assert(numbered_path_spec(dir, stem, ext, v) =~= a + m2 + b);
    assert(m1.len() == m2.len());
    assert((a + m1 + b).subrange(a.len() as int, (a.len() + m1.len()) as int) =~= m1);
    assert((a + m2 + b).subrange(a.len() as int, (a.len() + m2.len()) as int) =~= m2);
    assert(m1 == m2);
    strutil::lemma_dec_injective(u as nat, v as nat);
}

/// The conflict policy admits `p` as the resolved output path: the base
/// path itself when it does not exist yet or under `overwrite`, else the
/// first free auto-rename candidate under `keep_both`.
pub open spec fn resolved_ok_spec(
    dir: Seq<char>,
    stem: Seq<char>,
    ext: Seq<char>,
    mode: Seq<char>,
    ex: Seq<Seq<char>>,
    p: Seq<char>,
) -> bool {
    let base = joined_path_spec(dir, stem, ext);
    if !contains_path(ex, base) {
        p == base
    } else if mode == "overwrite"@ {
        p == base
    } else {
        mode == "keep_both"@ && exists|v: int|
            2 <= v <= 9999 && p == numbered_path_spec(dir, stem, ext, v) && !contains_path(
                ex,
                numbered_path_spec(dir, stem, ext, v),
            ) && (forall|u: int| 2 <= u < v ==> contains_path(ex, numbered_path_spec(dir, stem, ext, u)))
    }
}

/// The conflict policy rejects the job with `e`: the base path exists and
/// the policy is neither `overwrite` nor a `keep_both` with a free
/// candidate left.
pub open spec fn resolved_err_spec(
    dir: Seq<char>,
    stem: Seq<char>,
    ext: Seq<char>,
    mode: Seq<char>,
    ex: Seq<Seq<char>>,
    e: ConversionError,
) -> bool {
    let base = joined_path_spec(dir, stem, ext);
    contains_path(ex, base) && mode != "overwrite"@ && (if mode == "keep_both"@ {
        (forall|v: int| 2 <= v <= 9999 ==> contains_path(ex, numbered_path_spec(dir, stem, ext, v)))
            && (e matches ConversionError::Unknown { message } && message@
            == "Too many duplicate files"@)
    } else {
        e matches ConversionError::FileConflict { path } && path@ == base
    })
}

/// Every path the conflict policy admits ends in `.ext`: auto-renaming
/// inserts its counter before the extension, never after it.
pub proof fn lemma_resolved_path_suffix(
    dir: Seq<char>,
    stem: Seq<char>,
    ext: Seq<char>,
    mode: Seq<char>,
    ex: Seq<Seq<char>>,
    p: Seq<char>,
)
    requires
        resolved_ok_spec(dir, stem, ext, mode, ex, p),
    ensures
        strutil::has_suffix(p, "."@ + ext),
{
    let base = joined_path_spec(dir, stem, ext);
    let tail = "."@ + ext;
    if p == base {
        assert(base.subrange(base.len() - tail.len(), base.len() as int) =~= tail);
    } else {
        let v = choose|v: int|
            2 <= v <= 9999 && p == numbered_path_spec(dir, stem, ext, v) && !contains_path(
                ex,
                numbered_path_spec(dir, stem, ext, v),
            ) && (forall|u: int| 2 <= u < v ==> contains_path(ex, numbered_path_spec(dir, stem, ext, u)));
        let np = numbered_path_spec(dir, stem, ext, v);
        assert(np.subrange(np.len() - tail.len(), np.len() as int) =~= tail);
    }
}

/// Resolves a conflict for the path `dir/stem.ext` against the set of
/// existing paths, under the given conflict policy:
/// - the path itself when it does not exist yet, or under `overwrite`;
/// - under `keep_both`, the first free `dir/stem_v.ext` with `v` counted
///   up from 2, failing once every version through 9999 exists;
/// - a `FileConflict` error under any other policy.
#[verifier::loop_isolation(false)]
pub fn resolve_conflict(
    dir: &str,
    stem: &str,
    ext: &str,
    conflict_mode: &str,
    existing: &Vec<String>,
) -> (r: Result<String, ConversionError>)
    ensures
        match r {
            Ok(p) => resolved_ok_spec(
                dir@,
                stem@,
                ext@,
                conflict_mode@,
                existing@.map_values(|e: String| e@),
                p@,
            ),
            Err(e) => resolved_err_spec(
                dir@,
                stem@,
                ext@,
                conflict_mode@,
                existing@.map_values(|e: String| e@),
                e,
            ),
        },
{
    let ghost ex = existing@.map_values(|e: String| e@);
    let base = join_output_path(dir, stem, ext);
    if !exists_in(existing, base.as_str()) {
        return Ok(base);
    }
    if strutil::str_eq(conflict_mode, "overwrite") {
        return Ok(base);
    }
    if !strutil::str_eq(conflict_mode, "keep_both") {
        return Err(ConversionError::FileConflict { path: base });
    }
    // mark which numbered candidates already exist
    let mut present: Vec<bool> = Vec::new();
    while present.len() < 10000
        invariant
            present@.len() <= 10000,
            forall|v: int| 0 <= v < present@.len() ==> !present@[v],
        decreases 10000 - present@.len(),
    {
        present.push(false);
    }
    let mut i: usize = 0;
    while i < existing.len()
        invariant
            ex == existing@.map_values(|e: String| e@),
            i <= existing@.len(),
            present@.len() == 10000,
            forall|v: int|
                2 <= v <= 9999 ==> present@[v] == contains_path(
                    ex.subrange(0, i as int),
                    numbered_path_spec(dir@, stem@, ext@, v),
                ),
        decreases existing@.len() - i,
    {
        let ghost pre = present@;
        let ghost entry = ex[i as int];
        match parse_numbered(existing[i].as_str(), dir, stem, ext) {
            Some(vv) => {
                present.set(vv as usize, true);
                proof {
                    assert(entry == numbered_path_spec(dir@, stem@, ext@, vv as int));
                    assert forall|v: int|
                        2 <= v <= 9999 implies present@[v] == contains_path(
                        ex.subrange(0, i + 1),
                        numbered_path_spec(dir@, stem@, ext@, v),
                    ) by {
                        let npath = numbered_path_spec(dir@, stem@, ext@, v);
                        let sub0 = ex.subrange(0, i as int);
                        let sub1 = ex.subrange(0, i + 1);
                        assert(forall|k: int| 0 <= k < i ==> sub1[k] == sub0[k]);
                        assert(sub1[i as int] == entry);
                        if v == vv as int {
                            assert(present@[v]);
                            assert(sub1[i as int] == npath);
                        } else {
                            assert(present@[v] == pre[v]);
                            if entry == npath {
                                lemma_numbered_injective(dir@, stem@, ext@, vv as int, v);
                                assert(false);
                            }
                            if pre[v] {
                                let k = choose|k: int| 0 <= k < sub0.len() && sub0[k] == npath;
                                assert(sub1[k] == npath);
                            } else {
                                if contains_path(sub1, npath) {
                                    let k = choose|k: int|
                                        0 <= k < sub1.len() && sub1[k] == npath;
                                    if k < i {
                                        assert(sub0[k] == npath);
                                        assert(false);
                                    } else {
                                        assert(entry == npath);
                                        assert(false);
                                    }
                                }
                            }
                        }
                    }
                }
            },
            None => {
                proof {
                    assert forall|v: int|
                        2 <= v <= 9999 implies present@[v] == contains_path(
                        ex.subrange(0, i + 1),
                        numbered_path_spec(dir@, stem@, ext@, v),
                    ) by {
                        let npath = numbered_path_spec(dir@, stem@, ext@, v);
                        let sub0 = ex.subrange(0, i as int);
                        let sub1 = ex.subrange(0, i + 1);
                        assert(forall|k: int| 0 <= k < i ==> sub1[k] == sub0[k]);
                        assert(sub1[i as int] == entry);
                        assert(entry != npath);
                        if pre[v] {
                            let k = choose|k: int| 0 <= k < sub0.len() && sub0[k] == npath;
                            assert(sub1[k] == npath);
                        } else {
                            if contains_path(sub1, npath) {
                                let k = choose|k: int| 0 <= k < sub1.len() && sub1[k] == npath;
                                if k < i {
                                    assert(sub0[k] == npath);
                                    assert(false);
                                } else {
                                    assert(entry == npath);
                                    assert(false);
                                }
                            }
                        }
                    }
                }
            },
        }
        i = i + 1;
    }
    proof {
        assert(ex.subrange(0, ex.len() as int) =~= ex);
    }
    let mut v: u64 = 2;
    while v <= 9999
        invariant
            present@.len() == 10000,
            2 <= v <= 10000,
            forall|w: int|
                2 <= w <= 9999 ==> present@[w] == contains_path(
                    ex,
                    numbered_path_spec(dir@, stem@, ext@, w),
                ),
            forall|u: int|
                2 <= u < v ==> contains_path(ex, numbered_path_spec(dir@, stem@, ext@, u)),
        decreases 10000 - v,
    {
        if !present[v as usize] {
            let p = numbered_path(dir, stem, ext, v);
            proof {
                let w = v as int;
                assert(exists|vv: int|
                    2 <= vv <= 9999 && p@ == numbered_path_spec(dir@, stem@, ext@, vv)
                        && !contains_path(ex, numbered_path_spec(dir@, stem@, ext@, vv)) && (forall|
                        u: int,
                    |
                        2 <= u < vv ==> contains_path(
                            ex,
                            numbered_path_spec(dir@, stem@, ext@, u),
                        ))) by {
                    assert(2 <= w <= 9999 && p@ == numbered_path_spec(dir@, stem@, ext@, w)
                        && !contains_path(ex, numbered_path_spec(dir@, stem@, ext@, w)) && (forall|
                        u: int,
                    |
                        2 <= u < w ==> contains_path(
                            ex,
                            numbered_path_spec(dir@, stem@, ext@, u),
                        )));
                }
            }
            return Ok(p);
        }
        v = v + 1;
    }
    Err(ConversionError::Unknown { message: String::from_str("Too many duplicate files") })
}

} // verus!
