use tcp_multi_transfer::digest::{sha256_to_hex, FileDigest};

fn hex_of(blocks: &[&[u8]]) -> String {
    let mut digest = FileDigest::new();
    for block in blocks {
        digest.update(block);
    }
    sha256_to_hex(&digest.finish())
}

#[test]
fn sha256_of_known_texts() {
    assert_eq!(
        hex_of(&[]),
        "e3b0c44298fc1c149afbf4c8996fb92427ae41e4649b934ca495991b7852b855"
    );
    assert_eq!(
        hex_of(&[b"abc"]),
        "ba7816bf8f01cfea414140de5dae2223b00361a396177a9cb410ff61f20015ad"
    );
}

#[test]
fn sha256_does_not_depend_on_the_blocks() {
    let data: Vec<u8> = (0..1000u32).map(|i| (i * 7 % 251) as u8).collect();
    let whole = hex_of(&[&data]);
    assert_eq!(hex_of(&[&data[..1], &data[1..]]), whole);
    assert_eq!(hex_of(&[&data[..333], &[], &data[333..334], &data[334..]]), whole);
    assert_ne!(hex_of(&[&data[1..]]), whole);
}

#[test]
fn hex_has_two_lower_case_digits_per_byte() {
    let mut hash = [0u8; 32];
    hash[0] = 0x0A;
    hash[1] = 0xF0;
    hash[31] = 0x9F;
    let text = sha256_to_hex(&hash);
    assert_eq!(text.len(), 64);
    assert!(text.starts_with("0af000"));
    assert!(text.ends_with("9f"));
}
