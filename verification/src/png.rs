//! Embedded generation metadata in PNG files.
//!
//! ComfyUI stores its graph in text chunks keyed `workflow` (UI graph) and
//! `prompt` (API graph); A1111/Forge store a single `parameters` chunk.
//! A PNG is the 8-byte signature followed by chunks, each laid out as
//! `length (4 bytes, big endian) | type (4 bytes) | body (length bytes) | CRC (4 bytes)`.
use vstd::prelude::*;
use vstd::utf8::*;
use crate::text::{chars_of, chars_eq};
use flate2::read::ZlibDecoder;
use std::io::Read;

verus! {

broadcast use vstd::utf8::group_utf8_lib;

// ---------------------------------------------------------------------------
// Byte-level vocabulary
// ---------------------------------------------------------------------------

/// The PNG file signature.
pub const PNG_SIG: [u8; 8] = [0x89, 0x50, 0x4E, 0x47, 0x0D, 0x0A, 0x1A, 0x0A];

/// The PNG file signature, as a sequence.
pub open spec fn png_sig() -> Seq<u8> {
    seq![0x89u8, 0x50u8, 0x4Eu8, 0x47u8, 0x0Du8, 0x0Au8, 0x1Au8, 0x0Au8]
}

/// `d` starts with the PNG signature.
pub open spec fn has_png_sig(d: Seq<u8>) -> bool {
    d.len() >= 8 && d.subrange(0, 8) == png_sig()
}

pub open spec fn tag_idat() -> Seq<u8> {
    seq![0x49u8, 0x44u8, 0x41u8, 0x54u8]
}

pub open spec fn tag_iend() -> Seq<u8> {
    seq![0x49u8, 0x45u8, 0x4Eu8, 0x44u8]
}

pub open spec fn tag_text() -> Seq<u8> {
    seq![0x74u8, 0x45u8, 0x58u8, 0x74u8]
}

pub open spec fn tag_ztxt() -> Seq<u8> {
    seq![0x7Au8, 0x54u8, 0x58u8, 0x74u8]
}

pub open spec fn tag_itxt() -> Seq<u8> {
    seq![0x69u8, 0x54u8, 0x58u8, 0x74u8]
}

/// The big-endian 32-bit number stored at `d[p..p + 4]`.
pub open spec fn be32_at(d: Seq<u8>, p: int) -> int {
    d[p] * 16777216 + d[p + 1] * 65536 + d[p + 2] * 256 + d[p + 3]
}

/// The four big-endian bytes of `x`.
pub open spec fn be_bytes(x: u32) -> Seq<u8> {
    seq![
        (x / 16777216) as u8,
        ((x / 65536) % 256) as u8,
        ((x / 256) % 256) as u8,
        (x % 256) as u8,
    ]
}

/// The type field of the chunk at `pos`.
pub open spec fn chunk_type(d: Seq<u8>, pos: int) -> Seq<u8> {
    d.subrange(pos + 4, pos + 8)
}

/// `d[pos..pos + 4]` as a big-endian number.
fn read_be32(d: &[u8], pos: usize) -> (r: usize)
    requires
        pos + 4 <= d@.len(),
    ensures
        r as int == be32_at(d@, pos as int),
{
    let a = d[pos] as u32;
    let b = d[pos + 1] as u32;
    let c = d[pos + 2] as u32;
    let e = d[pos + 3] as u32;
    let v: u32 = a * 16777216 + b * 65536 + c * 256 + e;
    v as usize
}

/// The four big-endian bytes of `x`.
fn push_be32(out: &mut Vec<u8>, x: u32)
    ensures
        final(out)@ == old(out)@ + be_bytes(x),
{
    out.push((x / 16777216) as u8);
    out.push(((x / 65536) % 256) as u8);
    out.push(((x / 256) % 256) as u8);
    out.push((x % 256) as u8);
    assert(out@ =~= old(out)@ + be_bytes(x));
}

/// `d[pos..pos + 4] == tag`.
fn tag_at(d: &[u8], pos: usize, t0: u8, t1: u8, t2: u8, t3: u8) -> (r: bool)
    requires
        pos + 8 <= d.len(),
    ensures
        r == (chunk_type(d@, pos as int) == seq![t0, t1, t2, t3]),
{
    let r = d[pos + 4] == t0 && d[pos + 5] == t1 && d[pos + 6] == t2 && d[pos + 7] == t3;
    if r {
        assert(chunk_type(d@, pos as int) =~= seq![t0, t1, t2, t3]);
    } else {
        proof {
            if chunk_type(d@, pos as int) == seq![t0, t1, t2, t3] {
                assert(chunk_type(d@, pos as int)[0] == t0);
                assert(chunk_type(d@, pos as int)[1] == t1);
                assert(chunk_type(d@, pos as int)[2] == t2);
                assert(chunk_type(d@, pos as int)[3] == t3);
            }
        }
    }
    r
}

/// `d` starts with the PNG signature.
pub fn is_png(d: &[u8]) -> (r: bool)
    ensures
        r == has_png_sig(d@),
{
    if d.len() < 8 {
        return false;
    }
    let r = d[0] == 0x89 && d[1] == 0x50 && d[2] == 0x4E && d[3] == 0x47 && d[4] == 0x0D && d[5]
        == 0x0A && d[6] == 0x1A && d[7] == 0x0A;
    if r {
        assert(d@.subrange(0, 8) =~= png_sig());
    } else {
        proof {
            if d@.subrange(0, 8) == png_sig() {
                assert(d@.subrange(0, 8)[0] == png_sig()[0]);
                assert(d@.subrange(0, 8)[1] == png_sig()[1]);
                assert(d@.subrange(0, 8)[2] == png_sig()[2]);
                assert(d@.subrange(0, 8)[3] == png_sig()[3]);
                assert(d@.subrange(0, 8)[4] == png_sig()[4]);
                assert(d@.subrange(0, 8)[5] == png_sig()[5]);
                assert(d@.subrange(0, 8)[6] == png_sig()[6]);
                assert(d@.subrange(0, 8)[7] == png_sig()[7]);
            }
        }
    }
    r
}

/// `d[lo..hi]` copied out.
fn copy_range(d: &[u8], lo: usize, hi: usize) -> (r: Vec<u8>)
    requires
        lo <= hi <= d@.len(),
    ensures
        r@ == d@.subrange(lo as int, hi as int),
{
    let mut r: Vec<u8> = Vec::new();
    let mut i = lo;
    while i < hi
        invariant
            lo <= i <= hi <= d@.len(),
            r@ == d@.subrange(lo as int, i as int),
        decreases hi - i,
    {
        r.push(d[i]);
        assert(d@.subrange(lo as int, i + 1) =~= d@.subrange(lo as int, i as int).push(
            d@[i as int],
        ));
        i += 1;
    }
    r
}

/// Appends all of `src` to `dst`.
fn append_bytes(dst: &mut Vec<u8>, src: &[u8])
    ensures
        final(dst)@ == old(dst)@ + src@,
{
    let mut i: usize = 0;
    while i < src.len()
        invariant
            i <= src@.len(),
            dst@ == old(dst)@ + src@.take(i as int),
        decreases src@.len() - i,
    {
        dst.push(src[i]);
        assert(src@.take(i + 1) =~= src@.take(i as int).push(src@[i as int]));
        i += 1;
    }
    assert(src@.take(src@.len() as int) =~= src@);
}

// ---------------------------------------------------------------------------
// CRC-32 (IEEE 802.3, reflected), as PNG uses it over a chunk's type + body
// ---------------------------------------------------------------------------

/// One shift of the reflected CRC register.
pub open spec fn crc_shift(c: u32) -> u32 {
    if c & 1 != 0 {
        (c >> 1) ^ 0xEDB8_8320u32
    } else {
        c >> 1
    }
}

/// `k` shifts of the register.
pub open spec fn crc_shifts(c: u32, k: nat) -> u32
    decreases k,
{
    if k == 0 {
        c
    } else {
        crc_shifts(crc_shift(c), (k - 1) as nat)
    }
}

/// The register after feeding `bytes` into it.
pub open spec fn crc_feed(c: u32, bytes: Seq<u8>) -> u32
    decreases bytes.len(),
{
    if bytes.len() == 0 {
        c
    } else {
        crc_feed(crc_shifts(c ^ (bytes[0] as u32), 8), bytes.drop_first())
    }
}

/// The CRC-32 of `bytes`.
pub open spec fn crc32_spec(bytes: Seq<u8>) -> u32 {
    !crc_feed(0xFFFF_FFFFu32, bytes)
}

/// PNG CRC-32 (IEEE 802.3, reflected) over a chunk's type+data.
pub fn crc32(bytes: &[u8]) -> (r: u32)
    ensures
        r == crc32_spec(bytes@),
{
    let mut crc: u32 = 0xFFFF_FFFF;
    let mut i: usize = 0;
    assert(bytes@.skip(0) =~= bytes@);
    while i < bytes.len()
        invariant
            i <= bytes@.len(),
            crc_feed(0xFFFF_FFFFu32, bytes@) == crc_feed(crc, bytes@.skip(i as int)),
        decreases bytes@.len() - i,
    {
        let ghost start = crc ^ (bytes@[i as int] as u32);
        crc = crc ^ (bytes[i] as u32);
        let mut k: u32 = 0;
        while k < 8
            invariant
                k <= 8,
                crc_shifts(start, 8) == crc_shifts(crc, (8 - k) as nat),
            decreases 8 - k,
        {
            crc = if crc & 1 != 0 {
                (crc >> 1) ^ 0xEDB8_8320
            } else {
                crc >> 1
            };
            k += 1;
        }
        assert(bytes@.skip(i as int).drop_first() =~= bytes@.skip(i + 1));
        i += 1;
    }
    !crc
}

// ---------------------------------------------------------------------------
// Inserting a tEXt chunk
// ---------------------------------------------------------------------------

/// Where `insert_text_chunk` splices a new chunk: the offset of the first
/// IDAT or IEND chunk, walking the chunk list from `pos`.
pub open spec fn insert_point_from(d: Seq<u8>, pos: int) -> Option<int>
    decreases d.len() - pos,
{
    if pos < 0 || pos + 8 > d.len() {
        None
    } else if chunk_type(d, pos) == tag_idat() || chunk_type(d, pos) == tag_iend() {
        Some(pos)
    } else if pos + 12 + be32_at(d, pos) > d.len() {
        None
    } else {
        insert_point_from(d, pos + 12 + be32_at(d, pos))
    }
}

/// The body of a `tEXt` chunk: keyword, a zero byte, then the text.
pub open spec fn text_body(keyword: Seq<u8>, text: Seq<u8>) -> Seq<u8> {
    keyword + seq![0u8] + text
}

/// A complete `tEXt` chunk with the given body.
pub open spec fn text_chunk(body: Seq<u8>) -> Seq<u8> {
    be_bytes(body.len() as u32) + tag_text() + body + be_bytes(crc32_spec(tag_text() + body))
}

/// What `insert_text_chunk` returns for the given file bytes, keyword and text.
pub open spec fn inserted(d: Seq<u8>, keyword: Seq<char>, text: Seq<char>) -> Option<Seq<u8>> {
    if !has_png_sig(d) {
        None
    } else {
        match insert_point_from(d, 8) {
            Some(at) => Some(
                d.subrange(0, at) + text_chunk(text_body(encode_utf8(keyword), encode_utf8(text)))
                    + d.subrange(at, d.len() as int),
            ),
            None => None,
        }
    }
}

/// Insert a `tEXt` chunk (`keyword\0text`) immediately before the first IDAT (or
/// IEND), so ComfyUI reads it as embedded metadata. Returns the new PNG bytes, or
/// None if `data` is not a PNG or has no IDAT/IEND chunk on its chunk list.
/// (A body longer than `u32::MAX` has its length field truncated to 32 bits.)
pub fn insert_text_chunk(data: &[u8], keyword: &str, text: &str) -> (r: Option<Vec<u8>>)
    ensures
        r matches Some(v) ==> inserted(data@, keyword@, text@) == Some(v@),
        r is None ==> inserted(data@, keyword@, text@) is None,
{
    if !is_png(data) {
        return None;
    }
    let mut body: Vec<u8> = Vec::new();
    append_bytes(&mut body, keyword.as_bytes());
    body.push(0);
    append_bytes(&mut body, text.as_bytes());
    assert(body@ =~= text_body(encode_utf8(keyword@), encode_utf8(text@)));

    let mut typed: Vec<u8> = Vec::new();
    typed.push(0x74);
    typed.push(0x45);
    typed.push(0x58);
    typed.push(0x74);
    assert(typed@ =~= tag_text());
    append_bytes(&mut typed, body.as_slice());

    let mut chunk: Vec<u8> = Vec::new();
    push_be32(&mut chunk, #[verifier::truncate] (body.len() as u32));
    append_bytes(&mut chunk, typed.as_slice());
    let c = crc32(typed.as_slice());
    push_be32(&mut chunk, c);
    assert(chunk@ =~= text_chunk(body@));

    // walk chunks to find the first IDAT (or IEND) and splice in before it
    let mut pos: usize = 8;
    while pos <= data.len() && data.len() - pos >= 8
        invariant
            8 <= pos <= data@.len(),
            insert_point_from(data@, 8) == insert_point_from(data@, pos as int),
            chunk@ == text_chunk(text_body(encode_utf8(keyword@), encode_utf8(text@))),
            has_png_sig(data@),
        decreases data@.len() - pos,
    {
        let len = read_be32(data, pos);
        if tag_at(data, pos, 0x49, 0x44, 0x41, 0x54) || tag_at(data, pos, 0x49, 0x45, 0x4E, 0x44) {
            let mut out: Vec<u8> = Vec::new();
            let head = copy_range(data, 0, pos);
            append_bytes(&mut out, head.as_slice());
            append_bytes(&mut out, chunk.as_slice());
            let tail = copy_range(data, pos, data.len());
            append_bytes(&mut out, tail.as_slice());
            return Some(out);
        }
        if len > data.len() - pos || data.len() - pos - len < 12 {
            return None;
        }
        pos = pos + 12 + len;
    }
    None
}

// ---------------------------------------------------------------------------
// Reading text chunks
// ---------------------------------------------------------------------------

/// What `String::from_utf8_lossy` decodes from bytes that are not valid UTF-8
/// (each invalid sequence replaced by U+FFFD).
pub uninterp spec fn utf8_lossy(b: Seq<u8>) -> Seq<char>;

/// What `String::from_utf8_lossy` returns: valid UTF-8 is decoded unchanged.
pub open spec fn lossy_text(b: Seq<u8>) -> Seq<char> {
    if valid_utf8(b) {
        decode_utf8(b)
    } else {
        utf8_lossy(b)
    }
}

/// `String::from_utf8_lossy`: valid UTF-8 is decoded as is (as std documents);
/// other input gives `utf8_lossy` of the bytes.
#[verifier::external_body]
fn lossy(b: &[u8]) -> (r: String)
    ensures
        valid_utf8(b@) ==> r@ == decode_utf8(b@),
        !valid_utf8(b@) ==> r@ == utf8_lossy(b@),
{
    String::from_utf8_lossy(b).into_owned()
}

/// The text that a zlib stream decompresses to, or `None` when the stream is
/// malformed or the decompressed bytes are not UTF-8.
pub uninterp spec fn zlib_text(b: Seq<u8>) -> Option<Seq<char>>;

/// Decompresses a zlib stream into text, with `flate2::read::ZlibDecoder` and
/// `Read::read_to_string`. The result is `zlib_text` of the input.
#[verifier::external_body]
fn inflate(data: &[u8]) -> (r: Option<String>)
    ensures
        r matches Some(t) ==> zlib_text(data@) == Some(t@),
        r is None ==> zlib_text(data@) is None,
{
    let mut d = ZlibDecoder::new(data);
    let mut s = String::new();
    d.read_to_string(&mut s).ok().map(|_| s)
}

/// The first index `>= i` holding a zero byte.
pub open spec fn zero_from(b: Seq<u8>, i: int) -> Option<int>
    decreases b.len() - i,
{
    if i < 0 || i >= b.len() {
        None
    } else if b[i] == 0 {
        Some(i)
    } else {
        zero_from(b, i + 1)
    }
}

/// The index of the first zero byte of `b`.
pub open spec fn first_zero(b: Seq<u8>) -> Option<int> {
    zero_from(b, 0)
}

pub proof fn lemma_zero_from(b: Seq<u8>, i: int)
    requires
        0 <= i,
    ensures
        zero_from(b, i) matches Some(k) ==> i <= k < b.len() && b[k] == 0 && (forall|j: int|
            i <= j < k ==> b[j] != 0),
        zero_from(b, i) is None ==> (forall|j: int| i <= j < b.len() ==> b[j] != 0),
    decreases b.len() - i,
{
    if i < b.len() && b[i] != 0 {
        lemma_zero_from(b, i + 1);
    }
}

fn first_zero_exec(b: &Vec<u8>) -> (r: Option<usize>)
    ensures
        r matches Some(k) ==> first_zero(b@) == Some(k as int),
        r is None ==> first_zero(b@) is None,
{
    let mut i: usize = 0;
    while i < b.len()
        invariant
            i <= b.len(),
            first_zero(b@) == zero_from(b@, i as int),
        decreases b.len() - i,
    {
        if b[i] == 0 {
            return Some(i);
        }
        i += 1;
    }
    None
}

/// `r` past its first zero byte (unchanged if it has none).
pub open spec fn past_zero(r: Seq<u8>) -> Seq<u8> {
    match first_zero(r) {
        Some(j) => r.subrange(j + 1, r.len() as int),
        None => r,
    }
}

/// The (keyword, text) pair of a `tEXt` body: `keyword \0 text`.
pub open spec fn text_entry(body: Seq<u8>) -> Option<(Seq<char>, Seq<char>)> {
    match first_zero(body) {
        Some(i) => Some(
            (lossy_text(body.subrange(0, i)), lossy_text(body.subrange(i + 1, body.len() as int))),
        ),
        None => None,
    }
}

/// The (keyword, text) pair of a `zTXt` body: `keyword \0 method zlib-stream`.
pub open spec fn ztxt_entry(body: Seq<u8>) -> Option<(Seq<char>, Seq<char>)> {
    match first_zero(body) {
        Some(i) => if body.len() - i > 2 {
            match zlib_text(body.subrange(i + 2, body.len() as int)) {
                Some(t) => Some((lossy_text(body.subrange(0, i)), t)),
                None => None,
            }
        } else {
            None
        },
        None => None,
    }
}

/// The (keyword, text) pair of an `iTXt` body:
/// `keyword \0 flag method language \0 translated \0 text`, the text
/// zlib-compressed when the flag is 1.
pub open spec fn itxt_entry(body: Seq<u8>) -> Option<(Seq<char>, Seq<char>)> {
    match first_zero(body) {
        Some(i) => {
            let rest = body.subrange(i + 1, body.len() as int);
            if rest.len() >= 2 {
                let r = past_zero(past_zero(rest.subrange(2, rest.len() as int)));
                let txt = if rest[0] == 1 {
                    zlib_text(r)
                } else {
                    Some(lossy_text(r))
                };
                match txt {
                    Some(t) => Some((lossy_text(body.subrange(0, i)), t)),
                    None => None,
                }
            } else {
                None
            }
        },
        None => None,
    }
}

/// The (keyword, text) pair a chunk of the given type and body contributes.
pub open spec fn chunk_entry(ctype: Seq<u8>, body: Seq<u8>) -> Option<(Seq<char>, Seq<char>)> {
    if ctype == tag_text() {
        text_entry(body)
    } else if ctype == tag_ztxt() {
        ztxt_entry(body)
    } else if ctype == tag_itxt() {
        itxt_entry(body)
    } else {
        None
    }
}

/// `m` updated with an optional entry.
pub open spec fn with_entry(
    m: Map<Seq<char>, Seq<char>>,
    e: Option<(Seq<char>, Seq<char>)>,
) -> Map<Seq<char>, Seq<char>> {
    match e {
        Some((k, v)) => m.insert(k, v),
        None => m,
    }
}

/// The keyword map after walking the chunks from `pos`, starting with `m`.
/// The walk stops at the first chunk that does not fit in the data and at
/// the first IDAT or IEND chunk.
pub open spec fn chunks_from(d: Seq<u8>, pos: int, m: Map<Seq<char>, Seq<char>>) -> Map<
    Seq<char>,
    Seq<char>,
>
    decreases d.len() + 4 - pos,
{
    if pos < 0 || pos + 8 > d.len() {
        m
    } else {
        let end = pos + 8 + be32_at(d, pos);
        if end > d.len() {
            m
        } else if chunk_type(d, pos) == tag_idat() || chunk_type(d, pos) == tag_iend() {
            m
        } else {
            chunks_from(
                d,
                end + 4,
                with_entry(m, chunk_entry(chunk_type(d, pos), d.subrange(pos + 8, end))),
            )
        }
    }
}

/// The keyword -> text map that `text_chunks` reads from file bytes `d`.
pub open spec fn text_chunks_spec(d: Seq<u8>) -> Map<Seq<char>, Seq<char>> {
    if has_png_sig(d) {
        chunks_from(d, 8, Map::empty())
    } else {
        Map::empty()
    }
}

/// The map built by inserting `s`'s entries in order (a later entry for a
/// keyword replaces an earlier one).
pub open spec fn entries_map(s: Seq<(String, String)>) -> Map<Seq<char>, Seq<char>>
    decreases s.len(),
{
    if s.len() == 0 {
        Map::empty()
    } else {
        entries_map(s.drop_last()).insert(s.last().0@, s.last().1@)
    }
}

pub proof fn lemma_entries_map_push(s: Seq<(String, String)>, e: (String, String))
    ensures
        entries_map(s.push(e)) == entries_map(s).insert(e.0@, e.1@),
{
    assert(s.push(e).drop_last() =~= s);
}

/// The value of a keyword is that of its last entry.
pub proof fn lemma_entries_map_last(s: Seq<(String, String)>, k: Seq<char>, i: int)
    requires
        0 <= i < s.len(),
        s[i].0@ == k,
        forall|j: int| i < j < s.len() ==> s[j].0@ != k,
    ensures
        entries_map(s).contains_key(k),
        entries_map(s)[k] == s[i].1@,
    decreases s.len(),
{
    if i < s.len() - 1 {
        lemma_entries_map_last(s.drop_last(), k, i);
    }
}

/// A keyword without entries is absent.
pub proof fn lemma_entries_map_absent(s: Seq<(String, String)>, k: Seq<char>)
    requires
        forall|j: int| 0 <= j < s.len() ==> s[j].0@ != k,
    ensures
        !entries_map(s).contains_key(k),
    decreases s.len(),
{
    if s.len() > 0 {
        lemma_entries_map_absent(s.drop_last(), k);
    }
}

/// The keyword -> text pairs read from a PNG's text chunks. Viewed as a map;
/// a keyword that occurs in several chunks maps to the text of the last one.
pub struct TextChunks {
    entries: Vec<(String, String)>,
}

impl View for TextChunks {
    type V = Map<Seq<char>, Seq<char>>;

    closed spec fn view(&self) -> Map<Seq<char>, Seq<char>> {
        entries_map(self.entries@)
    }
}

impl TextChunks {
    /// The text stored under `key`, if any.
    pub fn get(&self, key: &str) -> (r: Option<&String>)
        ensures
            r matches Some(v) ==> self@.contains_key(key@) && v@ == self@[key@],
            r is None ==> !self@.contains_key(key@),
    {
        let kv = chars_of(key);
        let mut i = self.entries.len();
        while i > 0
            invariant
                i <= self.entries@.len(),
                kv@ == key@,
                forall|j: int| i <= j < self.entries@.len() ==> self.entries@[j].0@ != key@,
            decreases i,
        {
            let ev = chars_of(self.entries[i - 1].0.as_str());
            if chars_eq(&ev, &kv) {
                proof {
                    lemma_entries_map_last(self.entries@, key@, i - 1);
                }
                return Some(&self.entries[i - 1].1);
            }
            i -= 1;
        }
        proof {
            lemma_entries_map_absent(self.entries@, key@);
        }
        None
    }

    /// `key` has a text.
    pub fn contains_key(&self, key: &str) -> (r: bool)
        ensures
            r == self@.contains_key(key@),
    {
        self.get(key).is_some()
    }
}

/// The character sequences of an optional (keyword, text) pair.
pub open spec fn entry_view(r: Option<(String, String)>) -> Option<(Seq<char>, Seq<char>)> {
    match r {
        Some(e) => Some((e.0@, e.1@)),
        None => None,
    }
}

/// Reads the (keyword, text) pair of a text chunk body.
fn read_entry(ctype_text: bool, ctype_ztxt: bool, ctype_itxt: bool, body: &Vec<u8>) -> (r: Option<
    (String, String),
>)
    ensures
        ctype_text ==> entry_view(r) == text_entry(body@),
        !ctype_text && ctype_ztxt ==> entry_view(r) == ztxt_entry(
            body@,
        ),
        !ctype_text && !ctype_ztxt && ctype_itxt ==> entry_view(r)
            == itxt_entry(body@),
        !ctype_text && !ctype_ztxt && !ctype_itxt ==> r is None,
{
    if !(ctype_text || ctype_ztxt || ctype_itxt) {
        return None;
    }
    let i = match first_zero_exec(body) {
        Some(i) => i,
        None => {
            return None;
        },
    };
    proof {
        lemma_zero_from(body@, 0);
    }
    let blen = body.len();
    assert(i < blen);
    let kwb = copy_range(body.as_slice(), 0, i);
    let kw = lossy(kwb.as_slice());
    if ctype_text {
        let tb = copy_range(body.as_slice(), i + 1, body.len());
        let t = lossy(tb.as_slice());
        return Some((kw, t));
    }
    if ctype_ztxt {
        if body.len() - i > 2 {
            let zb = copy_range(body.as_slice(), i + 2, body.len());
            match inflate(zb.as_slice()) {
                Some(t) => {
                    return Some((kw, t));
                },
                None => {
                    return None;
                },
            }
        }
        return None;
    }
    let rest = copy_range(body.as_slice(), i + 1, body.len());
    if rest.len() < 2 {
        return None;
    }
    let comp_flag = rest[0];
    let mut r = copy_range(rest.as_slice(), 2, rest.len());
    let mut round: usize = 0;
    // skip the language tag and the translated keyword (two zero-terminated fields)
    let ghost r0 = r@;
    while round < 2
        invariant
            round <= 2,
            round == 0 ==> r@ == r0,
            round == 1 ==> r@ == past_zero(r0),
            round == 2 ==> r@ == past_zero(past_zero(r0)),
        decreases 2 - round,
    {
        let fz = first_zero_exec(&r);
        proof {
            lemma_zero_from(r@, 0);
        }
        match fz {
            Some(j) => {
                let rl = r.len();
                assert(j < rl);
                r = copy_range(r.as_slice(), j + 1, rl);
            },
            None => {},
        }
        round += 1;
    }
    let txt = if comp_flag == 1 {
        inflate(r.as_slice())
    } else {
        Some(lossy(r.as_slice()))
    };
    match txt {
        Some(t) => Some((kw, t)),
        None => None,
    }
}

/// Parse tEXt / zTXt / iTXt chunks into {keyword: text}.
pub fn text_chunks(data: &[u8]) -> (r: TextChunks)
    ensures
        r@ == text_chunks_spec(data@),
{
    let mut out = TextChunks { entries: Vec::new() };
    if !is_png(data) {
        return out;
    }
    let mut pos: usize = 8;
    while pos <= data.len() && data.len() - pos >= 8
        invariant
            8 <= pos,
            has_png_sig(data@),
            text_chunks_spec(data@) == chunks_from(data@, pos as int, out@),
        decreases data@.len() + 4 - pos,
    {
        let len = read_be32(data, pos);
        let body_start = pos + 8;
        if len > data.len() - body_start {
            return out;
        }
        let body_end = body_start + len;
        if tag_at(data, pos, 0x49, 0x44, 0x41, 0x54) || tag_at(data, pos, 0x49, 0x45, 0x4E, 0x44) {
            return out;
        }
        let body = copy_range(data, body_start, body_end);
        let is_text = tag_at(data, pos, 0x74, 0x45, 0x58, 0x74);
        let is_ztxt = tag_at(data, pos, 0x7A, 0x54, 0x58, 0x74);
        let is_itxt = tag_at(data, pos, 0x69, 0x54, 0x58, 0x74);
        let e = read_entry(is_text, is_ztxt, is_itxt, &body);
        match e {
            Some(kt) => {
                proof {
                    lemma_entries_map_push(out.entries@, kt);
                }
                out.entries.push(kt);
            },
            None => {},
        }
        if data.len() - body_end < 4 {
            assert(chunks_from(data@, body_end + 4, out@) == out@);
            return out;
        }
        pos = body_end + 4;
    }
    out
}

/// True if the PNG already carries a ComfyUI `workflow` (UI) or `prompt` (API)
/// metadata chunk — i.e. dropping it into ComfyUI would load a graph.
pub fn has_embedded_workflow(data: &[u8]) -> (r: bool)
    ensures
        r == (text_chunks_spec(data@).contains_key("workflow"@) || text_chunks_spec(
            data@,
        ).contains_key("prompt"@)),
{
    let c = text_chunks(data);
    c.contains_key("workflow") || c.contains_key("prompt")
}

/// Whether `serde_json` parses the text as a JSON value.
pub uninterp spec fn json_value_parses(s: Seq<char>) -> bool;

/// `serde_json::from_str::<serde_json::Value>` succeeds on `s`.
#[verifier::external_body]
pub(crate) fn parses_as_json(s: &str) -> (r: bool)
    ensures
        r == json_value_parses(s@),
{
    serde_json::from_str::<serde_json::Value>(s).is_ok()
}

/// The text under `key` when that text is JSON.
pub open spec fn json_entry(m: Map<Seq<char>, Seq<char>>, key: Seq<char>) -> Option<Seq<char>> {
    if m.contains_key(key) && json_value_parses(m[key]) {
        Some(m[key])
    } else {
        None
    }
}

/// The optional character sequence of an optional string.
pub open spec fn opt_view(o: Option<String>) -> Option<Seq<char>> {
    match o {
        Some(s) => Some(s@),
        None => None,
    }
}

/// (comfy_workflow_json_text, a1111_parameters_text): the `workflow` text if it
/// is JSON, else the `prompt` text if it is JSON; and the `parameters` text.
pub fn split_meta(chunks: &TextChunks) -> (r: (Option<String>, Option<String>))
    ensures
        opt_view(r.0) == (if json_entry(chunks@, "workflow"@) is Some {
            json_entry(chunks@, "workflow"@)
        } else {
            json_entry(chunks@, "prompt"@)
        }),
        opt_view(r.1) == (if chunks@.contains_key("parameters"@) {
            Some(chunks@["parameters"@])
        } else {
            None
        }),
{
    let mut workflow: Option<String> = None;
    match chunks.get("workflow") {
        Some(v) => {
            if parses_as_json(v.as_str()) {
                workflow = Some(v.clone());
            }
        },
        None => {},
    }
    if workflow.is_none() {
        match chunks.get("prompt") {
            Some(v) => {
                if parses_as_json(v.as_str()) {
                    workflow = Some(v.clone());
                }
            },
            None => {},
        }
    }
    let params = match chunks.get("parameters") {
        Some(v) => Some(v.clone()),
        None => None,
    };
    (workflow, params)
}

// ---------------------------------------------------------------------------
// Reading back an inserted chunk
// ---------------------------------------------------------------------------

/// The chunk list walk that finds the insertion point stops at an IDAT or
/// IEND chunk header that lies inside the data, at or after `pos`.
pub proof fn lemma_insert_point(d: Seq<u8>, pos: int)
    ensures
        insert_point_from(d, pos) matches Some(a) ==> pos <= a && a + 8 <= d.len() && (
        chunk_type(d, a) == tag_idat() || chunk_type(d, a) == tag_iend()),
    decreases d.len() - pos,
{
    if pos < 0 || pos + 8 > d.len() {
    } else if chunk_type(d, pos) == tag_idat() || chunk_type(d, pos) == tag_iend() {
    } else if pos + 12 + be32_at(d, pos) > d.len() {
    } else {
        lemma_insert_point(d, pos + 12 + be32_at(d, pos));
    }
}

/// Reading back the four bytes of `be_bytes(x)` gives `x`.
pub proof fn lemma_be_roundtrip(x: u32)
    ensures
        be32_at(be_bytes(x), 0) == x,
        be_bytes(x).len() == 4,
{
    let b = be_bytes(x);
    assert(b[0] == x / 16777216);
    assert(b[1] == (x / 65536) % 256);
    assert(b[2] == (x / 256) % 256);
    assert(b[3] == x % 256);
}

/// No byte of the UTF-8 encoding of a character other than NUL is zero.
pub proof fn lemma_scalar_nonzero(c: char)
    requires
        c != '\0',
    ensures
        forall|i: int| 0 <= i < encode_scalar(c as u32).len() ==> #[trigger] encode_scalar(c as u32)[i] != 0,
{
    let s = c as u32;
    assert(s != 0);
    assert(s != 0 && s <= 0x7F ==> leading_byte_width_1(s) != 0) by (bit_vector);
    assert(leading_byte_width_2(s) != 0) by (bit_vector);
    assert(leading_byte_width_3(s) != 0) by (bit_vector);
    assert(leading_byte_width_4(s) != 0) by (bit_vector);
    assert(last_continuation_byte(s) != 0) by (bit_vector);
    assert(second_last_continuation_byte(s) != 0) by (bit_vector);
    assert(third_last_continuation_byte(s) != 0) by (bit_vector);
}

/// The UTF-8 encoding of a string without NUL characters has no zero byte.
pub proof fn lemma_utf8_nonzero(chars: Seq<char>)
    requires
        !chars.contains('\0'),
    ensures
        forall|i: int| 0 <= i < encode_utf8(chars).len() ==> encode_utf8(chars)[i] != 0,
    decreases chars.len(),
{
    if chars.len() > 0 {
        assert(chars[0] != '\0');
        lemma_scalar_nonzero(chars[0]);
        let rest = chars.drop_first();
        assert forall|j: int| 0 <= j < rest.len() implies rest[j] != '\0' by {
            assert(rest[j] == chars[j + 1]);
        }
        lemma_utf8_nonzero(rest);
        let e = encode_scalar(chars[0] as u32);
        assert forall|i: int| 0 <= i < encode_utf8(chars).len() implies encode_utf8(chars)[i]
            != 0 by {
            if i < e.len() {
                assert(encode_utf8(chars)[i] == e[i]);
            } else {
                assert(encode_utf8(chars)[i] == encode_utf8(rest)[i - e.len()]);
            }
        }
    }
}

/// The first zero byte of `b` is at `k` when `b[k]` is zero and nothing before it is.
pub proof fn lemma_zero_at(b: Seq<u8>, i: int, k: int)
    requires
        0 <= i <= k < b.len(),
        b[k] == 0,
        forall|j: int| i <= j < k ==> b[j] != 0,
    ensures
        zero_from(b, i) == Some(k),
    decreases k - i,
{
    if i < k {
        lemma_zero_at(b, i + 1, k);
    }
}

/// Walking the chunks of a PNG produced by `insert_text_chunk`, from any point
/// of the input chunk list before the insertion point, finds the inserted
/// keyword with its text.
#[verifier::spinoff_prover]
#[verifier::rlimit(40)]
proof fn lemma_read_back(
    d: Seq<u8>,
    out: Seq<u8>,
    at: int,
    keyword: Seq<char>,
    text: Seq<char>,
    pos: int,
    m: Map<Seq<char>, Seq<char>>,
)
    requires
        !keyword.contains('\0'),
        encode_utf8(keyword).len() + 1 + encode_utf8(text).len() <= u32::MAX,
        insert_point_from(d, pos) == Some(at),
        0 <= pos,
        out == d.subrange(0, at) + text_chunk(text_body(encode_utf8(keyword), encode_utf8(text)))
            + d.subrange(at, d.len() as int),
    ensures
        chunks_from(out, pos, m).contains_key(keyword),
        chunks_from(out, pos, m)[keyword] == text,
    decreases at - pos,
{
    let kb = encode_utf8(keyword);
    let tb = encode_utf8(text);
    let body = text_body(kb, tb);
    let chunk = text_chunk(body);
    lemma_insert_point(d, pos);
    lemma_be_roundtrip(body.len() as u32);
    let cl = chunk.len() as int;
    assert(cl == 12 + body.len());
    assert(out.len() == d.len() + cl);
    assert forall|i: int| 0 <= i < at implies out[i] == d[i] by {}
    assert forall|i: int| at <= i < at + cl implies out[i] == chunk[i - at] by {}
    assert forall|i: int| at + cl <= i < out.len() implies out[i] == d[i - cl] by {}
    if pos == at {
        // the inserted chunk itself
        assert(be32_at(out, at) == body.len()) by {
            assert(out[at] == chunk[0]);
            assert(out[at + 1] == chunk[1]);
            assert(out[at + 2] == chunk[2]);
            assert(out[at + 3] == chunk[3]);
            assert(chunk[0] == be_bytes(body.len() as u32)[0]);
            assert(chunk[1] == be_bytes(body.len() as u32)[1]);
            assert(chunk[2] == be_bytes(body.len() as u32)[2]);
            assert(chunk[3] == be_bytes(body.len() as u32)[3]);
        }
        assert(chunk_type(out, at) =~= tag_text()) by {
            assert(out[at + 4] == chunk[4]);
            assert(out[at + 5] == chunk[5]);
            assert(out[at + 6] == chunk[6]);
            assert(out[at + 7] == chunk[7]);
        }
        let end = at + 8 + body.len();
        assert(out.subrange(at + 8, end) =~= body) by {
            assert forall|i: int| 0 <= i < body.len() implies out.subrange(at + 8, end)[i]
                == body[i] by {
                assert(out[at + 8 + i] == chunk[8 + i]);
            }
        }
        lemma_utf8_nonzero(keyword);
        assert(body[kb.len() as int] == 0);
        assert forall|j: int| 0 <= j < kb.len() implies body[j] != 0 by {
            assert(body[j] == kb[j]);
        }
        lemma_zero_at(body, 0, kb.len() as int);
        assert(body.subrange(0, kb.len() as int) =~= kb);
        assert(body.subrange(kb.len() as int + 1, body.len() as int) =~= tb);
        assert(lossy_text(kb) == keyword);
        assert(lossy_text(tb) == text);
        assert(chunk_entry(tag_text(), body) == Some((keyword, text)));
        assert(tag_text() != tag_idat()) by {
            assert(tag_text()[0] != tag_idat()[0]);
        }
        assert(tag_text() != tag_iend()) by {
            assert(tag_text()[0] != tag_iend()[0]);
        }
        let m2 = m.insert(keyword, text);
        assert(chunks_from(out, at, m) == chunks_from(out, end + 4, m2));
        let q = end + 4;
        assert(q == at + cl);
        if q + 8 <= out.len() {
            assert(be32_at(out, q) == be32_at(d, at)) by {
                assert(out[q] == d[at]);
                assert(out[q + 1] == d[at + 1]);
                assert(out[q + 2] == d[at + 2]);
                assert(out[q + 3] == d[at + 3]);
            }
            assert(chunk_type(out, q) =~= chunk_type(d, at)) by {
                assert(out[q + 4] == d[at + 4]);
                assert(out[q + 5] == d[at + 5]);
                assert(out[q + 6] == d[at + 6]);
                assert(out[q + 7] == d[at + 7]);
            }
        }
        assert(chunks_from(out, q, m2) == m2);
    } else {
        let len = be32_at(d, pos);
        let next = pos + 12 + len;
        assert(insert_point_from(d, next) == Some(at));
        lemma_insert_point(d, next);
        assert(be32_at(out, pos) == len) by {
            assert(out[pos] == d[pos]);
            assert(out[pos + 1] == d[pos + 1]);
            assert(out[pos + 2] == d[pos + 2]);
            assert(out[pos + 3] == d[pos + 3]);
        }
        assert(chunk_type(out, pos) =~= chunk_type(d, pos)) by {
            assert(out[pos + 4] == d[pos + 4]);
            assert(out[pos + 5] == d[pos + 5]);
            assert(out[pos + 6] == d[pos + 6]);
            assert(out[pos + 7] == d[pos + 7]);
        }
        let m2 = with_entry(
            m,
            chunk_entry(chunk_type(out, pos), out.subrange(pos + 8, pos + 8 + len)),
        );
        assert(chunks_from(out, pos, m) == chunks_from(out, next, m2));
        lemma_read_back(d, out, at, keyword, text, next, m2);
    }
}

/// Reading back a PNG produced by `insert_text_chunk` finds the inserted text
/// under its keyword. Holds when the keyword has no NUL character (a NUL would
/// end the keyword early) and the chunk body fits the 32-bit length field.
pub proof fn law_insert_then_read(d: Seq<u8>, keyword: Seq<char>, text: Seq<char>)
    requires
        inserted(d, keyword, text) is Some,
        !keyword.contains('\0'),
        encode_utf8(keyword).len() + 1 + encode_utf8(text).len() <= u32::MAX,
    ensures
        text_chunks_spec(inserted(d, keyword, text)->0).contains_key(keyword),
        text_chunks_spec(inserted(d, keyword, text)->0)[keyword] == text,
{
    let at = insert_point_from(d, 8)->0;
    let out = inserted(d, keyword, text)->0;
    lemma_insert_point(d, 8);
    assert(out.subrange(0, 8) =~= d.subrange(0, 8)) by {
        assert forall|i: int| 0 <= i < 8 implies out[i] == d[i] by {}
    }
    lemma_read_back(d, out, at, keyword, text, 8, Map::empty());
}

/// `insert_text_chunk` keeps every byte of the input file: the output is
/// the input bytes before the insertion point, the new chunk, then the rest
/// of the input bytes; so whatever chunk ended the file (IEND) still ends it.
pub proof fn law_insert_keeps_input(d: Seq<u8>, keyword: Seq<char>, text: Seq<char>)
    requires
        inserted(d, keyword, text) is Some,
    ensures
        ({
            let out = inserted(d, keyword, text)->0;
            let chunk = text_chunk(text_body(encode_utf8(keyword), encode_utf8(text)));
            exists|at: int|
                8 <= at <= d.len() && #[trigger] out.subrange(0, at) == d.subrange(0, at)
                    && out.subrange(at, at + chunk.len()) == chunk && out.subrange(
                    at + chunk.len(),
                    out.len() as int,
                ) == d.subrange(at, d.len() as int)
        }),
        has_png_sig(inserted(d, keyword, text)->0),
{
    let at = insert_point_from(d, 8)->0;
    let out = inserted(d, keyword, text)->0;
    let chunk = text_chunk(text_body(encode_utf8(keyword), encode_utf8(text)));
    lemma_insert_point(d, 8);
    assert(out.subrange(0, at) =~= d.subrange(0, at));
    assert(out.subrange(at, at + chunk.len()) =~= chunk);
    assert(out.subrange(at + chunk.len(), out.len() as int) =~= d.subrange(at, d.len() as int));
    assert(out.subrange(0, 8) =~= d.subrange(0, 8)) by {
        assert forall|i: int| 0 <= i < 8 implies out[i] == d[i] by {}
    }
}

// ---------------------------------------------------------------------------
// Reading compressed text chunks
// ---------------------------------------------------------------------------

/// A complete chunk of the given type and body.
pub open spec fn png_chunk(tag: Seq<u8>, body: Seq<u8>) -> Seq<u8> {
    be_bytes(body.len() as u32) + tag + body + be_bytes(crc32_spec(tag + body))
}

/// A PNG holding one chunk of the given type and body, then IEND.
pub open spec fn one_chunk_png(tag: Seq<u8>, body: Seq<u8>) -> Seq<u8> {
    png_sig() + png_chunk(tag, body) + png_chunk(tag_iend(), seq![])
}

/// The body of a `zTXt` chunk: keyword, a zero byte, the compression method,
/// then the zlib stream.
pub open spec fn ztxt_body(keyword: Seq<u8>, method: u8, z: Seq<u8>) -> Seq<u8> {
    keyword + seq![0u8, method] + z
}

/// The body of a compressed `iTXt` chunk: keyword, a zero byte, flag 1, the
/// compression method, the language tag, a zero byte, the translated keyword,
/// a zero byte, then the zlib stream.
pub open spec fn itxt_z_body(keyword: Seq<u8>, method: u8, lang: Seq<u8>, translated: Seq<u8>, z: Seq<u8>) -> Seq<u8> {
    keyword + seq![0u8, 1u8, method] + lang + seq![0u8] + translated + seq![0u8] + z
}

pub open spec fn no_zero(b: Seq<u8>) -> bool {
    forall|i: int| 0 <= i < b.len() ==> b[i] != 0
}

/// The chunk walk over a PNG of one chunk (not IDAT or IEND) then IEND reads
/// just that chunk's entry.
#[verifier::spinoff_prover]
#[verifier::rlimit(40)]
proof fn lemma_one_chunk(tag: Seq<u8>, body: Seq<u8>)
    requires
        tag.len() == 4,
        tag != tag_idat(),
        tag != tag_iend(),
        body.len() <= u32::MAX,
    ensures
        text_chunks_spec(one_chunk_png(tag, body)) == with_entry(Map::empty(), chunk_entry(tag, body)),
{
    let d = one_chunk_png(tag, body);
    let c = png_chunk(tag, body);
    let e = png_chunk(tag_iend(), seq![]);
    lemma_be_roundtrip(body.len() as u32);
    lemma_be_roundtrip(0u32);
    let n = body.len() as int;
    assert(c.len() == 12 + n);
    assert(e.len() == 12);
    assert(d.len() == 8 + 12 + n + 12);
    assert forall|i: int| 0 <= i < 8 implies d[i] == png_sig()[i] by {}
    assert forall|i: int| 0 <= i < c.len() implies d[8 + i] == c[i] by {}
    assert forall|i: int| 0 <= i < e.len() implies d[20 + n + i] == e[i] by {}
    assert(d.subrange(0, 8) =~= png_sig());
    assert(be32_at(d, 8) == n) by {
        assert(d[8] == c[0] && d[9] == c[1] && d[10] == c[2] && d[11] == c[3]);
        assert(c[0] == be_bytes(body.len() as u32)[0]);
        assert(c[1] == be_bytes(body.len() as u32)[1]);
        assert(c[2] == be_bytes(body.len() as u32)[2]);
        assert(c[3] == be_bytes(body.len() as u32)[3]);
    }
    assert(chunk_type(d, 8) =~= tag) by {
        assert(d[12] == c[4] && d[13] == c[5] && d[14] == c[6] && d[15] == c[7]);
    }
    assert(d.subrange(16, 16 + n) =~= body) by {
        assert forall|i: int| 0 <= i < n implies d.subrange(16, 16 + n)[i] == body[i] by {
            assert(d[16 + i] == c[8 + i]);
        }
    }
    let q = 20 + n;
    assert(be32_at(d, q) == 0) by {
        assert(d[q] == e[0] && d[q + 1] == e[1] && d[q + 2] == e[2] && d[q + 3] == e[3]);
        assert(e[0] == be_bytes(0u32)[0]);
        assert(e[1] == be_bytes(0u32)[1]);
        assert(e[2] == be_bytes(0u32)[2]);
        assert(e[3] == be_bytes(0u32)[3]);
    }
    assert(chunk_type(d, q) =~= tag_iend()) by {
        assert(d[q + 4] == e[4] && d[q + 5] == e[5] && d[q + 6] == e[6] && d[q + 7] == e[7]);
    }
    let m = with_entry(Map::empty(), chunk_entry(tag, body));
    assert(chunks_from(d, 8, Map::empty()) == chunks_from(d, q, m));
    assert(chunks_from(d, q, m) == m);
}

/// A compressed `iTXt` chunk reads back as the text its zlib stream
/// decompresses to: a PNG holding `iTXt(keyword, flag 1, method, language,
/// translated keyword, z)` maps the keyword to `zlib_text(z)`; when the stream
/// does not decompress to text, the chunk contributes nothing.
pub proof fn law_itxt_compressed_reads_inflated(
    keyword: Seq<char>,
    method: u8,
    lang: Seq<u8>,
    translated: Seq<u8>,
    z: Seq<u8>,
)
    requires
        !keyword.contains('\0'),
        no_zero(lang),
        no_zero(translated),
        itxt_z_body(encode_utf8(keyword), method, lang, translated, z).len() <= u32::MAX,
    ensures
        ({
            let m = text_chunks_spec(one_chunk_png(tag_itxt(), itxt_z_body(encode_utf8(keyword), method, lang, translated, z)));
            &&& zlib_text(z) matches Some(t) ==> m.contains_key(keyword) && m[keyword] == t
            &&& zlib_text(z) is None ==> m == Map::<Seq<char>, Seq<char>>::empty()
        }),
{
    let kb = encode_utf8(keyword);
    let body = itxt_z_body(kb, method, lang, translated, z);
    assert(tag_itxt() != tag_idat()) by {
        assert(tag_itxt()[0] != tag_idat()[0]);
    }
    assert(tag_itxt() != tag_iend()) by {
        assert(tag_itxt()[0] != tag_iend()[0]);
    }
    lemma_one_chunk(tag_itxt(), body);
    lemma_utf8_nonzero(keyword);
    let k = kb.len() as int;
    assert forall|j: int| 0 <= j < k implies body[j] != 0 by {
        assert(body[j] == kb[j]);
    }
    assert(body[k] == 0);
    lemma_zero_at(body, 0, k);
    assert(body.subrange(0, k) =~= kb);
    let rest = body.subrange(k + 1, body.len() as int);
    assert(rest.len() >= 2);
    assert(rest[0] == 1);
    let r2 = rest.subrange(2, rest.len() as int);
    assert(r2 =~= lang + seq![0u8] + translated + seq![0u8] + z);
    let l = lang.len() as int;
    assert forall|j: int| 0 <= j < l implies r2[j] != 0 by {
        assert(r2[j] == lang[j]);
    }
    assert(r2[l] == 0);
    lemma_zero_at(r2, 0, l);
    let r3 = past_zero(r2);
    assert(r3 =~= translated + seq![0u8] + z);
    let tl = translated.len() as int;
    assert forall|j: int| 0 <= j < tl implies r3[j] != 0 by {
        assert(r3[j] == translated[j]);
    }
    assert(r3[tl] == 0);
    lemma_zero_at(r3, 0, tl);
    assert(past_zero(r3) =~= z);
    assert(lossy_text(kb) == keyword);
}

/// A `zTXt` chunk reads back as the text its zlib stream decompresses to: a
/// PNG holding `zTXt(keyword, method, z)` with a non-empty stream maps the
/// keyword to `zlib_text(z)`; when the stream does not decompress to text,
/// the chunk contributes nothing.
pub proof fn law_ztxt_reads_inflated(keyword: Seq<char>, method: u8, z: Seq<u8>)
    requires
        !keyword.contains('\0'),
        z.len() > 0,
        ztxt_body(encode_utf8(keyword), method, z).len() <= u32::MAX,
    ensures
        ({
            let m = text_chunks_spec(one_chunk_png(tag_ztxt(), ztxt_body(encode_utf8(keyword), method, z)));
            &&& zlib_text(z) matches Some(t) ==> m.contains_key(keyword) && m[keyword] == t
            &&& zlib_text(z) is None ==> m == Map::<Seq<char>, Seq<char>>::empty()
        }),
{
    let kb = encode_utf8(keyword);
    let body = ztxt_body(kb, method, z);
    assert(tag_ztxt() != tag_idat()) by {
        assert(tag_ztxt()[0] != tag_idat()[0]);
    }
    assert(tag_ztxt() != tag_iend()) by {
        assert(tag_ztxt()[0] != tag_iend()[0]);
    }
    assert(tag_ztxt() != tag_text()) by {
        assert(tag_ztxt()[0] != tag_text()[0]);
    }
    lemma_one_chunk(tag_ztxt(), body);
    lemma_utf8_nonzero(keyword);
    let k = kb.len() as int;
    assert forall|j: int| 0 <= j < k implies body[j] != 0 by {
        assert(body[j] == kb[j]);
    }
    assert(body[k] == 0);
    lemma_zero_at(body, 0, k);
    assert(body.subrange(0, k) =~= kb);
    assert(body.subrange(k + 2, body.len() as int) =~= z);
    assert(lossy_text(kb) == keyword);
}

} // verus!
