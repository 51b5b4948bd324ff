use synthetrix::worker::burst_count;
use synthetrix::worker::burst_seed;
use synthetrix::worker::ext_for;
use synthetrix::worker::hex_lower;
use synthetrix::worker::image_ext;
use synthetrix::worker::pseudo_seed;
use synthetrix::worker::resolve_entity;
use synthetrix::worker::sha256_bytes;

#[test]
fn image_extensions() {
    assert_eq!(image_ext("image/jpeg"), "jpg");
    assert_eq!(image_ext("image/webp"), "webp");
    assert_eq!(image_ext("image/png"), "png");
    assert_eq!(image_ext("application/octet-stream"), "png");
}

#[test]
fn harvest_extensions() {
    assert_eq!(ext_for("image/png"), "png");
    assert_eq!(ext_for("image/jpeg"), "jpg");
    assert_eq!(ext_for("image/webp"), "webp");
    assert_eq!(ext_for("video/mp4"), "mp4");
    assert_eq!(ext_for("text/html"), "bin");
}

#[test]
fn entities_default_to_untitled() {
    assert_eq!(resolve_entity("  hero "), "hero");
    assert_eq!(resolve_entity("   "), "untitled");
    assert_eq!(resolve_entity(""), "untitled");
}

#[test]
fn burst_sizes_and_seeds() {
    assert_eq!(burst_count(0), 1);
    assert_eq!(burst_count(5), 5);
    assert_eq!(burst_count(30), 24);
    assert_eq!(burst_seed(100, 3), 103);
    assert_eq!(burst_seed(-1, 3), -1);
    assert_eq!(burst_seed(-5, 0), -1);
}

#[test]
fn seeds_from_the_clock() {
    assert_eq!(pseudo_seed(5_000_000_000), 705_032_706);
    assert_eq!(pseudo_seed((1u128 << 64) + 7), 7);
    assert_eq!(pseudo_seed(2_147_483_647), 0);
}

#[test]
fn hex_is_two_lowercase_digits_per_byte() {
    assert_eq!(hex_lower(&vec![0, 15, 16, 255]), "000f10ff");
    assert_eq!(hex_lower(&vec![]), "");
}

#[test]
fn sha256_known_vectors() {
    assert_eq!(
        sha256_bytes(b"abc"),
        "ba7816bf8f01cfea414140de5dae2223b00361a396177a9cb410ff61f20015ad"
    );
    assert_eq!(
        sha256_bytes(b""),
        "e3b0c44298fc1c149afbf4c8996fb92427ae41e4649b934ca495991b7852b855"
    );
}
