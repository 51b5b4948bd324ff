use std::io::Write;
use synthetrix::png::{crc32, has_embedded_workflow, insert_text_chunk, split_meta, text_chunks, PNG_SIG};

fn minimal_png() -> Vec<u8> {
    let mut png = PNG_SIG.to_vec();
    png.extend_from_slice(&[0, 0, 0, 0]); // IEND length
    png.extend_from_slice(b"IEND");
    png.extend_from_slice(&[0xAE, 0x42, 0x60, 0x82]); // IEND CRC
    png
}

/// A minimal PNG = signature + IEND. insert_text_chunk should splice a tEXt
/// before IEND, and text_chunks must read it back.
#[test]
fn insert_and_read_text_chunk_roundtrips() {
    let png = minimal_png();

    assert!(!has_embedded_workflow(&png));
    let body = "{\"nodes\":[],\"links\":[]}";
    let out = insert_text_chunk(&png, "workflow", body).unwrap();

    let chunks = text_chunks(&out);
    assert_eq!(chunks.get("workflow").map(String::as_str), Some(body));
    assert!(has_embedded_workflow(&out));
    // IEND still last, total grew by the new chunk
    assert_eq!(&out[out.len() - 8..out.len() - 4], b"IEND");
}

#[test]
fn insert_rejects_non_png() {
    assert!(insert_text_chunk(b"not a png", "workflow", "{}").is_none());
}

#[test]
fn crc32_matches_known_chunk_crcs() {
    // the CRC stored in every IEND chunk
    assert_eq!(crc32(b"IEND"), 0xAE42_6082);
    // standard CRC-32 check value
    assert_eq!(crc32(b"123456789"), 0xCBF4_3926);
    assert_eq!(crc32(b""), 0);
}

#[test]
fn inserted_chunk_layout_and_crc() {
    let png = minimal_png();
    let out = insert_text_chunk(&png, "k", "v").unwrap();
    // signature, then the new chunk, then the untouched IEND chunk
    assert_eq!(&out[..8], &PNG_SIG);
    assert_eq!(&out[8..12], &[0, 0, 0, 3]);
    assert_eq!(&out[12..16], b"tEXt");
    assert_eq!(&out[16..19], b"k\0v");
    assert_eq!(&out[19..23], &crc32(b"tEXtk\0v").to_be_bytes());
    assert_eq!(&out[23..], &png[8..]);
    assert_eq!(out.len(), png.len() + 15);
}

#[test]
fn insert_goes_before_first_idat() {
    let mut png = PNG_SIG.to_vec();
    // an IHDR-like chunk of 2 bytes, then IDAT, then IEND
    png.extend_from_slice(&[0, 0, 0, 2]);
    png.extend_from_slice(b"IHDR");
    png.extend_from_slice(&[1, 2, 0, 0, 0, 0]);
    let idat_at = png.len();
    png.extend_from_slice(&[0, 0, 0, 0]);
    png.extend_from_slice(b"IDAT");
    png.extend_from_slice(&[0, 0, 0, 0]);
    png.extend_from_slice(&[0, 0, 0, 0]);
    png.extend_from_slice(b"IEND");
    png.extend_from_slice(&[0xAE, 0x42, 0x60, 0x82]);
    let out = insert_text_chunk(&png, "prompt", "{}").unwrap();
    assert_eq!(&out[..idat_at], &png[..idat_at]);
    assert_eq!(&out[idat_at + 4..idat_at + 8], b"tEXt");
    let c = text_chunks(&out);
    assert_eq!(c.get("prompt").map(String::as_str), Some("{}"));
    assert!(has_embedded_workflow(&out));
}

#[test]
fn insert_without_idat_or_iend_is_none() {
    let mut png = PNG_SIG.to_vec();
    png.extend_from_slice(&[0, 0, 0, 0]);
    png.extend_from_slice(b"IHDR");
    png.extend_from_slice(&[0, 0, 0, 0]);
    assert!(insert_text_chunk(&png, "workflow", "{}").is_none());
}

#[test]
fn text_chunks_of_non_png_is_empty() {
    let c = text_chunks(b"GIF89a....");
    assert!(!c.contains_key("workflow"));
    assert!(c.get("parameters").is_none());
}

#[test]
fn later_chunk_wins_and_split_meta_prefers_valid_json() {
    let png = minimal_png();
    let a = insert_text_chunk(&png, "workflow", "not json").unwrap();
    let b = insert_text_chunk(&a, "prompt", "{\"3\":{}}").unwrap();
    let c = insert_text_chunk(&b, "parameters", "a cat\nSteps: 20").unwrap();
    let chunks = text_chunks(&c);
    let (wf, params) = split_meta(&chunks);
    assert_eq!(wf.as_deref(), Some("{\"3\":{}}"));
    assert_eq!(params.as_deref(), Some("a cat\nSteps: 20"));

    let d = insert_text_chunk(&c, "workflow", "{\"nodes\":[]}").unwrap();
    let (wf2, _) = split_meta(&text_chunks(&d));
    assert_eq!(wf2.as_deref(), Some("{\"nodes\":[]}"));
}

#[test]
fn ztxt_chunk_is_inflated() {
    let mut enc = flate2::write::ZlibEncoder::new(Vec::new(), flate2::Compression::default());
    enc.write_all(b"hello zlib").unwrap();
    let z = enc.finish().unwrap();
    let mut body = b"parameters\0\0".to_vec();
    body.extend_from_slice(&z);
    let mut png = PNG_SIG.to_vec();
    png.extend_from_slice(&(body.len() as u32).to_be_bytes());
    png.extend_from_slice(b"zTXt");
    png.extend_from_slice(&body);
    png.extend_from_slice(&[0, 0, 0, 0]);
    png.extend_from_slice(&[0, 0, 0, 0]);
    png.extend_from_slice(b"IEND");
    png.extend_from_slice(&[0xAE, 0x42, 0x60, 0x82]);
    let c = text_chunks(&png);
    assert_eq!(c.get("parameters").map(String::as_str), Some("hello zlib"));
}

#[test]
fn itxt_chunk_uncompressed() {
    let body = b"workflow\0\0\0en\0wf\0{\"nodes\":[]}".to_vec();
    let mut png = PNG_SIG.to_vec();
    png.extend_from_slice(&(body.len() as u32).to_be_bytes());
    png.extend_from_slice(b"iTXt");
    png.extend_from_slice(&body);
    png.extend_from_slice(&[0, 0, 0, 0]);
    png.extend_from_slice(&[0, 0, 0, 0]);
    png.extend_from_slice(b"IEND");
    png.extend_from_slice(&[0xAE, 0x42, 0x60, 0x82]);
    let c = text_chunks(&png);
    assert_eq!(c.get("workflow").map(String::as_str), Some("{\"nodes\":[]}"));
    assert!(has_embedded_workflow(&png));
}
