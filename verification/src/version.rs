//! Release version comparison for the self-updater.
//!
//! Versions are dotted 4-part numbers (`0.1.0` or `0.1.0.17`); a missing or
//! malformed part counts as 0, and versions compare part by part.
use vstd::prelude::*;
use crate::text::{
    chars_of, index_of_char_from, index_of_char_exec, is_digit, lemma_index_of_char_from, sub_vec,
    views, lemma_views_push, trim_start_char, ends_with_seq, ends_with_str, string_of,
};

verus! {

/// `str::split(c)`: the pieces of `s` between occurrences of `c` (always at
/// least one piece).
pub open spec fn split_seq(s: Seq<char>, c: char) -> Seq<Seq<char>>
    decreases s.len(),
{
    match index_of_char_from(s, c, 0) {
        Some(i) => if 0 <= i < s.len() {
            seq![s.subrange(0, i)] + split_seq(s.subrange(i + 1, s.len() as int), c)
        } else {
            seq![s]
        },
        None => seq![s],
    }
}

/// The decimal value of a digit string.
pub open spec fn decimal_value(s: Seq<char>) -> int
    decreases s.len(),
{
    if s.len() == 0 {
        0
    } else {
        decimal_value(s.drop_last()) * 10 + (s.last() as int - '0' as int)
    }
}

/// Every character of `d` is an ASCII digit.
pub open spec fn all_digits(d: Seq<char>) -> bool {
    forall|i: int| 0 <= i < d.len() ==> is_digit(#[trigger] d[i])
}

/// `u32::from_str` (decimal): an optional `+`, then one or more ASCII digits
/// whose value fits in a `u32`.
pub open spec fn parse_u32_spec(s: Seq<char>) -> Option<u32> {
    let d = if s.len() > 0 && s[0] == '+' {
        s.drop_first()
    } else {
        s
    };
    if d.len() > 0 && all_digits(d) && decimal_value(d) <= u32::MAX {
        Some(decimal_value(d) as u32)
    } else {
        None
    }
}

pub proof fn lemma_decimal_value_nonneg(s: Seq<char>)
    requires
        forall|i: int| 0 <= i < s.len() ==> is_digit(#[trigger] s[i]),
    ensures
        decimal_value(s) >= 0,
    decreases s.len(),
{
    if s.len() > 0 {
        lemma_decimal_value_nonneg(s.drop_last());
    }
}

/// Parses a decimal `u32` the way `str::parse::<u32>` does.
pub fn parse_u32(s: &Vec<char>) -> (r: Option<u32>)
    ensures
        r == parse_u32_spec(s@),
{
    let start: usize = if s.len() > 0 && s[0] == '+' {
        1
    } else {
        0
    };
    let ghost d = s@.subrange(start as int, s@.len() as int);
    assert(d == (if s@.len() > 0 && s@[0] == '+' {
        s@.drop_first()
    } else {
        s@
    }));
    if start >= s.len() {
        return None;
    }
    let mut v: u64 = 0;
    let mut i = start;
    while i < s.len()
        invariant
            start <= i <= s.len(),
            start < s.len(),
            d == s@.subrange(start as int, s@.len() as int),
            d == (if s@.len() > 0 && s@[0] == '+' {
                s@.drop_first()
            } else {
                s@
            }),
            forall|k: int| start <= k < i ==> is_digit(#[trigger] s@[k]),
            v as int == decimal_value(s@.subrange(start as int, i as int)),
            v <= u32::MAX,
        decreases s.len() - i,
    {
        let c = s[i];
        if !('0' <= c && c <= '9') {
            assert(!is_digit(d[i - start]));
            assert(!(forall|k: int| 0 <= k < d.len() ==> is_digit(#[trigger] d[k])));
            return None;
        }
        let dig: u64 = (c as u32 - '0' as u32) as u64;
        assert(s@.subrange(start as int, i + 1).drop_last() =~= s@.subrange(start as int, i as int));
        let nv = v * 10 + dig;
        if nv > 0xFFFF_FFFF {
            proof {
                lemma_prefix_value_bound(d, (i + 1 - start) as int);
                assert(d.subrange(0, (i + 1 - start) as int) =~= s@.subrange(start as int, i + 1));
                assert(decimal_value(s@.subrange(start as int, i + 1)) == nv);
            }
            return None;
        }
        v = nv;
        i += 1;
    }
    assert(s@.subrange(start as int, s@.len() as int) =~= d);
    Some(v as u32)
}

/// `i64::from_str` (decimal): an optional `+` or `-`, then one or more ASCII
/// digits whose signed value fits in an `i64`.
pub open spec fn parse_i64_spec(s: Seq<char>) -> Option<i64> {
    let neg = s.len() > 0 && s[0] == '-';
    let d = if s.len() > 0 && (s[0] == '+' || s[0] == '-') {
        s.drop_first()
    } else {
        s
    };
    if d.len() > 0 && all_digits(d) && (if neg {
        decimal_value(d) <= 0x8000_0000_0000_0000
    } else {
        decimal_value(d) <= i64::MAX
    }) {
        Some((if neg { -decimal_value(d) } else { decimal_value(d) }) as i64)
    } else {
        None
    }
}

/// Parses a decimal `i64` the way `str::parse::<i64>` does.
pub fn parse_i64(text: &str) -> (r: Option<i64>)
    ensures
        r == parse_i64_spec(text@),
{
    let s = chars_of(text);
    let neg = s.len() > 0 && s[0] == '-';
    let start: usize = if s.len() > 0 && (s[0] == '+' || s[0] == '-') {
        1
    } else {
        0
    };
    let limit: u128 = if neg { 0x8000_0000_0000_0000 } else { 0x7FFF_FFFF_FFFF_FFFF };
    let ghost d = s@.subrange(start as int, s@.len() as int);
    assert(d == (if s@.len() > 0 && (s@[0] == '+' || s@[0] == '-') {
        s@.drop_first()
    } else {
        s@
    }));
    if start >= s.len() {
        return None;
    }
    let mut v: u128 = 0;
    let mut i = start;
    while i < s.len()
        invariant
            start <= i <= s.len(),
            start < s.len(),
            s@ == text@,
            d == s@.subrange(start as int, s@.len() as int),
            forall|k: int| start <= k < i ==> is_digit(#[trigger] s@[k]),
            v as int == decimal_value(s@.subrange(start as int, i as int)),
            v <= limit,
            neg == (s@.len() > 0 && s@[0] == '-'),
            limit == (if neg { 0x8000_0000_0000_0000u128 } else { 0x7FFF_FFFF_FFFF_FFFFu128 }),
            d == (if s@.len() > 0 && (s@[0] == '+' || s@[0] == '-') {
                s@.drop_first()
            } else {
                s@
            }),
        decreases s.len() - i,
    {
        let c = s[i];
        if !('0' <= c && c <= '9') {
            assert(!is_digit(d[i - start]));
            assert(!(forall|k: int| 0 <= k < d.len() ==> is_digit(#[trigger] d[k])));
            return None;
        }
        let dig: u128 = (c as u32 - '0' as u32) as u128;
        assert(s@.subrange(start as int, i + 1).drop_last() =~= s@.subrange(start as int, i as int));
        let nv = v * 10 + dig;
        if nv > limit {
            proof {
                lemma_prefix_value_bound(d, (i + 1 - start) as int);
                assert(d.subrange(0, (i + 1 - start) as int) =~= s@.subrange(start as int, i + 1));
                assert(decimal_value(s@.subrange(start as int, i + 1)) == nv);
            }
            return None;
        }
        v = nv;
        i += 1;
    }
    assert(s@.subrange(start as int, s@.len() as int) =~= d);
    if neg {
        if v == 0x8000_0000_0000_0000 {
            Some(i64::MIN)
        } else {
            Some(-(v as i64))
        }
    } else {
        Some(v as i64)
    }
}

/// The value of a digit string is at least that of any of its prefixes.
pub proof fn lemma_prefix_value_bound(d: Seq<char>, k: int)
    requires
        0 <= k <= d.len(),
    ensures
        (forall|i: int| 0 <= i < d.len() ==> is_digit(#[trigger] d[i])) ==> decimal_value(d)
            >= decimal_value(d.subrange(0, k)),
    decreases d.len() - k,
{
    if forall|i: int| 0 <= i < d.len() ==> is_digit(#[trigger] d[i]) {
        if k < d.len() {
            lemma_prefix_value_bound(d, k + 1);
            let p = d.subrange(0, k + 1);
            assert(p.drop_last() =~= d.subrange(0, k));
            assert(is_digit(p.last()));
            assert forall|i: int| 0 <= i < d.subrange(0, k).len() implies is_digit(
                #[trigger] d.subrange(0, k)[i],
            ) by {
                assert(d.subrange(0, k)[i] == d[i]);
            }
            lemma_decimal_value_nonneg(d.subrange(0, k));
        } else {
            assert(d.subrange(0, k) =~= d);
        }
    }
}

/// Part `k` of a dotted version, 0 when missing or not a `u32`.
pub open spec fn version_part(s: Seq<char>, k: int) -> u32 {
    let p = split_seq(s, '.');
    if k < p.len() {
        match parse_u32_spec(p[k]) {
            Some(v) => v,
            None => 0,
        }
    } else {
        0
    }
}

/// The 4-part version number of a dotted version string.
pub open spec fn version_parts(s: Seq<char>) -> (u32, u32, u32, u32) {
    (version_part(s, 0), version_part(s, 1), version_part(s, 2), version_part(s, 3))
}

/// Lexicographic "greater than" on 4-part versions.
pub open spec fn version_gt(a: (u32, u32, u32, u32), b: (u32, u32, u32, u32)) -> bool {
    a.0 > b.0 || (a.0 == b.0 && (a.1 > b.1 || (a.1 == b.1 && (a.2 > b.2 || (a.2 == b.2 && a.3
        > b.3)))))
}

/// The first four pieces of `s` split at `.` (fewer when `s` has fewer pieces).
fn first_parts(s: &Vec<char>) -> (r: Vec<Vec<char>>)
    ensures
        r@.len() == (if split_seq(s@, '.').len() < 4 {
            split_seq(s@, '.').len()
        } else {
            4
        }),
        forall|k: int| 0 <= k < r@.len() ==> r@[k]@ == split_seq(s@, '.')[k],
{
    let mut r: Vec<Vec<char>> = Vec::new();
    let mut start: usize = 0;
    let mut done = false;
    assert(s@.subrange(0, s@.len() as int) =~= s@);
    assert(views(r@) + split_seq(s@, '.') =~= split_seq(s@, '.'));
    while r.len() < 4 && !done
        invariant
            start <= s.len(),
            r@.len() <= 4,
            !done ==> split_seq(s@, '.') == views(r@) + split_seq(
                s@.subrange(start as int, s@.len() as int),
                '.',
            ),
            done ==> split_seq(s@, '.') == views(r@),
        decreases 4 - r@.len(),
    {
        let ghost rest = s@.subrange(start as int, s@.len() as int);
        let found = index_of_char_exec(s, '.', start);
        proof {
            lemma_index_of_char_from(s@, '.', start as int);
            lemma_index_of_char_from(rest, '.', 0);
        }
        match found {
            Some(j) => {
                proof {
                    let kk = j - start;
                    if let Some(k2) = index_of_char_from(rest, '.', 0) {
                        if k2 < kk {
                            assert(s@[start + k2] == '.');
                        }
                    }
                    assert(rest[kk] == '.');
                    assert(index_of_char_from(rest, '.', 0) == Some(kk));
                    assert(rest.subrange(0, kk) =~= s@.subrange(start as int, j as int));
                    assert(rest.subrange(kk + 1, rest.len() as int) =~= s@.subrange(
                        j + 1,
                        s@.len() as int,
                    ));
                }
                let piece = sub_vec(s, start, j);
                proof {
                    lemma_views_push(r@, piece);
                    assert(views(r@) + split_seq(rest, '.') =~= views(r@).push(piece@) + split_seq(
                        s@.subrange(j + 1, s@.len() as int),
                        '.',
                    ));
                }
                r.push(piece);
                start = j + 1;
            },
            None => {
                proof {
                    if let Some(k2) = index_of_char_from(rest, '.', 0) {
                        assert(s@[start + k2] == '.');
                    }
                    assert(split_seq(rest, '.') == seq![rest]);
                }
                let piece = sub_vec(s, start, s.len());
                proof {
                    lemma_views_push(r@, piece);
                    assert(views(r@) + split_seq(rest, '.') =~= views(r@).push(piece@));
                }
                r.push(piece);
                done = true;
            },
        }
    }
    proof {
        if !done {
            assert(r@.len() == 4);
            assert(split_seq(s@, '.').len() >= 4) by {
                assert(split_seq(s@, '.').len() == views(r@).len() + split_seq(
                    s@.subrange(start as int, s@.len() as int),
                    '.',
                ).len());
            }
        }
        assert forall|k: int| 0 <= k < r@.len() implies r@[k]@ == split_seq(s@, '.')[k] by {
            assert(views(r@)[k] == r@[k]@);
        }
    }
    r
}

/// Part `k` of a dotted version (0 when missing or malformed).
fn part_value(parts: &Vec<Vec<char>>, k: usize) -> (v: u32)
    ensures
        k < parts@.len() ==> v == (match parse_u32_spec(parts@[k as int]@) {
            Some(x) => x,
            None => 0,
        }),
        k >= parts@.len() ==> v == 0,
{
    if k < parts.len() {
        match parse_u32(&parts[k]) {
            Some(x) => x,
            None => 0,
        }
    } else {
        0
    }
}

/// `latest` is a strictly newer version than `current`, comparing the
/// 4-part numbers part by part (missing or malformed parts count as 0).
pub fn is_newer(latest: &str, current: &str) -> (r: bool)
    ensures
        r == version_gt(version_parts(latest@), version_parts(current@)),
{
    let lv = chars_of(latest);
    let cv = chars_of(current);
    let lp = first_parts(&lv);
    let cp = first_parts(&cv);
    let a = (part_value(&lp, 0), part_value(&lp, 1), part_value(&lp, 2), part_value(&lp, 3));
    let b = (part_value(&cp, 0), part_value(&cp, 1), part_value(&cp, 2), part_value(&cp, 3));
    assert(a == version_parts(latest@));
    assert(b == version_parts(current@));
    a.0 > b.0 || (a.0 == b.0 && (a.1 > b.1 || (a.1 == b.1 && (a.2 > b.2 || (a.2 == b.2 && a.3
        > b.3)))))
}

/// "Newer than" is a strict order: never reflexive, and transitive, so an
/// update offer can never cycle between versions.
pub proof fn law_newer_is_strict_order(a: Seq<char>, b: Seq<char>, c: Seq<char>)
    ensures
        !version_gt(version_parts(a), version_parts(a)),
        version_gt(version_parts(a), version_parts(b)) && version_gt(
            version_parts(b),
            version_parts(c),
        ) ==> version_gt(version_parts(a), version_parts(c)),
        version_gt(version_parts(a), version_parts(b)) ==> !version_gt(
            version_parts(b),
            version_parts(a),
        ),
{
}


// ---------------------------------------------------------------------------
// Update checks
// ---------------------------------------------------------------------------

/// A newer release found on GitHub.
#[derive(Debug, Clone)]
pub struct UpdateAvailable {
    pub version: String,
    pub url: String,
}

/// Minimum gap, in seconds, between background re-checks of the releases
/// endpoint (the CI build/publish window).
pub const RECHECK_INTERVAL_SECS: u64 = 300;

/// Whether a background check of the latest release should start now: only
/// when the updater is idle with no check in flight, and then when forced,
/// when no check ran yet, or when the last one is at least
/// [`RECHECK_INTERVAL_SECS`] old (`since_last_secs`: whole seconds since it).
pub fn recheck_due(idle: bool, in_flight: bool, since_last_secs: Option<u64>, force_now: bool) -> (r: bool)
    ensures
        r == (idle && !in_flight && (force_now || match since_last_secs {
            None => true,
            Some(t) => t >= 300,
        })),
{
    if !idle || in_flight {
        return false;
    }
    force_now || match since_last_secs {
        None => true,
        Some(t) => t >= RECHECK_INTERVAL_SECS,
    }
}

/// The installer a release offers: the download URL of its first asset whose
/// name ends in `.msi` (none when there is no such asset or it has no URL).
pub open spec fn msi_url(assets: Seq<(String, Option<String>)>) -> Option<Seq<char>>
    decreases assets.len(),
{
    if assets.len() == 0 {
        None
    } else if ends_with_seq(assets[0].0@, ".msi"@) {
        match assets[0].1 {
            Some(u) => Some(u@),
            None => None,
        }
    } else {
        msi_url(assets.drop_first())
    }
}

/// What the latest release offers, given its tag, the installed version and
/// its assets as (name, download URL): the tag without leading `v`s as the
/// version and the first `.msi` asset's URL, when that version is newer and
/// there is such an asset.
pub open spec fn update_spec(tag: Seq<char>, current: Seq<char>, assets: Seq<(String, Option<String>)>) -> Option<(Seq<char>, Seq<char>)> {
    let v = trim_start_char(tag, 'v');
    if !version_gt(version_parts(v), version_parts(current)) {
        None
    } else {
        match msi_url(assets) {
            Some(u) => Some((v, u)),
            None => None,
        }
    }
}

/// What the latest release offers (see [`update_spec`]).
pub fn release_update(tag: &str, current: &str, assets: &Vec<(String, Option<String>)>) -> (r: Option<UpdateAvailable>)
    ensures
        match r {
            Some(u) => update_spec(tag@, current@, assets@) == Some((u.version@, u.url@)),
            None => update_spec(tag@, current@, assets@) is None,
        },
{
    let tv = chars_of(tag);
    let mut k: usize = 0;
    assert(tv@.skip(0) =~= tv@);
    while k < tv.len() && tv[k] == 'v'
        invariant
            k <= tv@.len(),
            tv@ == tag@,
            trim_start_char(tv@.skip(k as int), 'v') == trim_start_char(tag@, 'v'),
        decreases tv@.len() - k,
    {
        assert(tv@.skip(k as int).drop_first() =~= tv@.skip(k + 1));
        k += 1;
    }
    let vs = sub_vec(&tv, k, tv.len());
    assert(vs@ =~= tv@.skip(k as int));
    assert(trim_start_char(vs@, 'v') == vs@);
    let version = string_of(&vs);
    assert(version@ == trim_start_char(tag@, 'v'));
    if !is_newer(version.as_str(), current) {
        return None;
    }
    let mut i: usize = 0;
    assert(assets@.skip(0) =~= assets@);
    while i < assets.len()
        invariant
            i <= assets@.len(),
            msi_url(assets@.skip(i as int)) == msi_url(assets@),
            version@ == trim_start_char(tag@, 'v'),
            version_gt(version_parts(version@), version_parts(current@)),
        decreases assets@.len() - i,
    {
        let a = &assets[i];
        assert(assets@.skip(i as int)[0] == *a);
        if ends_with_str(&chars_of(a.0.as_str()), ".msi") {
            assert(msi_url(assets@.skip(i as int)) == match a.1 {
                Some(u) => Some(u@),
                None => None::<Seq<char>>,
            });
            match &a.1 {
                Some(u) => {
                    let url = u.clone();
                    return Some(UpdateAvailable { version, url });
                },
                None => {
                    return None;
                },
            }
        }
        assert(assets@.skip(i as int).drop_first() =~= assets@.skip(i + 1));
        i += 1;
    }
    assert(assets@.skip(i as int) =~= Seq::<(String, Option<String>)>::empty());
    None
}

} // verus!
