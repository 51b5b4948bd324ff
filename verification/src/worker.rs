//! The background worker's small rules around generation and storage: file
//! extensions for produced media, the entity a job is filed under, burst
//! seeds, content hashes, and the snapshot the dashboard shows.
use vstd::prelude::*;
use sha2::Digest;
use sha2::Sha256;
use crate::text::{str_eq, string_of, trim_seq, trim_str};
use crate::project::ProjectStats;

verus! {

/// The file extension for a produced image of the given content type.
pub open spec fn image_ext_spec(ct: Seq<char>) -> Seq<char> {
    if ct == "image/jpeg"@ {
        "jpg"@
    } else if ct == "image/webp"@ {
        "webp"@
    } else {
        "png"@
    }
}

/// The file extension for a produced image (PNG unless JPEG or WebP).
pub fn image_ext(content_type: &str) -> (r: &'static str)
    ensures
        r@ == image_ext_spec(content_type@),
{
    if str_eq(content_type, "image/jpeg") {
        "jpg"
    } else if str_eq(content_type, "image/webp") {
        "webp"
    } else {
        "png"
    }
}

/// The file extension for a harvested example image or video.
pub open spec fn ext_for_spec(ct: Seq<char>) -> Seq<char> {
    if ct == "image/png"@ {
        "png"@
    } else if ct == "image/jpeg"@ {
        "jpg"@
    } else if ct == "image/webp"@ {
        "webp"@
    } else if ct == "video/mp4"@ {
        "mp4"@
    } else {
        "bin"@
    }
}

/// The file extension for a harvested example image or video (`bin` for an
/// unknown content type).
pub fn ext_for(ct: &str) -> (r: &'static str)
    ensures
        r@ == ext_for_spec(ct@),
{
    if str_eq(ct, "image/png") {
        "png"
    } else if str_eq(ct, "image/jpeg") {
        "jpg"
    } else if str_eq(ct, "image/webp") {
        "webp"
    } else if str_eq(ct, "video/mp4") {
        "mp4"
    } else {
        "bin"
    }
}

/// The entity a job is filed under: the trimmed input, `untitled` when blank.
pub fn resolve_entity(entity: &str) -> (r: String)
    ensures
        trim_seq(entity@).len() == 0 ==> r@ == "untitled"@,
        trim_seq(entity@).len() > 0 ==> r@ == trim_seq(entity@),
{
    let t = trim_str(entity);
    if t.as_str().is_empty() {
        "untitled".to_owned()
    } else {
        t
    }
}

/// How many images a burst makes: the request clamped to `1..=24`.
pub fn burst_count(count: u32) -> (n: u32)
    ensures
        n == (if count < 1 { 1 } else if count > 24 { 24 } else { count }),
{
    if count < 1 {
        1
    } else if count > 24 {
        24
    } else {
        count
    }
}

/// The seed of image `i` of a burst: the base seed walked forward, or `-1`
/// (a random seed each time) when the base is negative.
pub fn burst_seed(base: i64, i: u32) -> (s: i64)
    requires
        base < 0 || base + i <= i64::MAX,
    ensures
        s == (if base < 0 { -1 } else { base + i }),
{
    if base < 0 {
        -1
    } else {
        base + i as i64
    }
}

/// A seed from a clock reading in nanoseconds: its low 64 bits modulo
/// 2147483647, so always in `0..2147483647`.
pub fn pseudo_seed(nanos: u128) -> (s: i64)
    ensures
        s as int == (nanos as u64) as int % 2147483647,
        0 <= s < 2147483647,
{
    let low = nanos as u64;
    (low % 2147483647) as i64
}

// ---------------------------------------------------------------------------
// Content hashes
// ---------------------------------------------------------------------------

/// The SHA-256 digest (FIPS 180-4) of a byte string.
pub uninterp spec fn sha256_digest(b: Seq<u8>) -> Seq<u8>;

/// `Sha256::digest`: the result is `sha256_digest` of the input, 32 bytes.
#[verifier::external_body]
fn sha256(bytes: &[u8]) -> (r: Vec<u8>)
    ensures
        r@ == sha256_digest(bytes@),
        r@.len() == 32,
{
    Sha256::digest(bytes).to_vec()
}

/// The lowercase hexadecimal digit for `n` (`0..16`).
pub open spec fn hex_digit(n: int) -> char {
    if n < 10 {
        crate::text::digit_char(n)
    } else if n == 10 {
        'a'
    } else if n == 11 {
        'b'
    } else if n == 12 {
        'c'
    } else if n == 13 {
        'd'
    } else if n == 14 {
        'e'
    } else {
        'f'
    }
}

/// Bytes as lowercase hexadecimal, two digits per byte (what `{:x}` prints
/// for a digest).
pub open spec fn hex_spec(b: Seq<u8>) -> Seq<char>
    decreases b.len(),
{
    if b.len() == 0 {
        seq![]
    } else {
        hex_spec(b.drop_last()).push(hex_digit((b.last() / 16) as int)).push(hex_digit((b.last() % 16) as int))
    }
}

fn hex_char(n: u8) -> (c: char)
    requires
        n < 16,
    ensures
        c == hex_digit(n as int),
{
    if n < 10 {
        if n == 0 { '0' } else if n == 1 { '1' } else if n == 2 { '2' } else if n == 3 { '3' }
        else if n == 4 { '4' } else if n == 5 { '5' } else if n == 6 { '6' } else if n == 7 { '7' }
        else if n == 8 { '8' } else { '9' }
    } else if n == 10 {
        'a'
    } else if n == 11 {
        'b'
    } else if n == 12 {
        'c'
    } else if n == 13 {
        'd'
    } else if n == 14 {
        'e'
    } else {
        'f'
    }
}

/// Bytes as lowercase hexadecimal.
pub fn hex_lower(b: &Vec<u8>) -> (r: String)
    ensures
        r@ == hex_spec(b@),
        r@.len() == 2 * b@.len(),
{
    let mut out: Vec<char> = Vec::new();
    let mut i: usize = 0;
    while i < b.len()
        invariant
            i <= b@.len(),
            out@ == hex_spec(b@.take(i as int)),
            out@.len() == 2 * i,
        decreases b@.len() - i,
    {
        let x = b[i];
        proof {
            assert(b@.take(i + 1).drop_last() =~= b@.take(i as int));
            assert(b@.take(i + 1).last() == x);
        }
        out.push(hex_char(x / 16));
        out.push(hex_char(x % 16));
        i += 1;
    }
    assert(b@.take(b@.len() as int) =~= b@);
    string_of(&out)
}

/// The SHA-256 of a byte string as 64 lowercase hex digits (the asset
/// content hash).
pub fn sha256_bytes(bytes: &[u8]) -> (r: String)
    ensures
        r@ == hex_spec(sha256_digest(bytes@)),
        r@.len() == 64,
{
    let d = sha256(bytes);
    hex_lower(&d)
}

// ---------------------------------------------------------------------------
// Messages between the UI and the worker
// ---------------------------------------------------------------------------

/// Snapshot of the open IP for the dashboard.
#[derive(Clone, Debug)]
pub struct ProjectInfo {
    pub name: String,
    pub lore_root: String,
    pub engine_root: String,
    pub db_path: String,
    pub asset_vault: String,
    pub lore_root_exists: bool,
    pub stats: ProjectStats,
}

/// One cover to fetch into the on-disk cache.
#[derive(Clone, Debug)]
pub struct CoverReq {
    pub model_id: i64,
    pub url: String,
}

} // verus!
