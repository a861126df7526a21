use mewc_solo_pool::address::{is_valid_address, p2pkh_script};
use mewc_solo_pool::coinbase::{build_coinbase_scriptsig, encode_height};
use mewc_solo_pool::hash::{merkle_root, sha256d};
use mewc_solo_pool::ids::{fresh_id, short_id};
use mewc_solo_pool::target::{bits_to_target, diff_to_target};
use mewc_solo_pool::text::{
    decimal_text, parse_hex, signed_text, split_first, strip_prefix, trim_0x, trim_final_slashes,
};
use mewc_solo_pool::transaction::{can_take_txid, sha256d_no_witness, strip_witness};
use mewc_solo_pool::varint::{encode_varint, push_var_bytes, read_varint};

const SEGWIT_TX: &str = "01000000000102fff7f7881a8099afa6940d42d1e7f6362bec38171ea3edf433541db4e4ad969f00000000494830450221008b9d1dc26ba6a9cb62127b02742fa9d754cd3bebf337f7a55d114c8e5cdd30be022040529b194ba3f9281a99f2b1c0a19c0489bc22ede944ccf4ecbab4cc618ef3ed01eeffffffef51e1b804cc89d182d279655c3aa89e815b1b309fe287d9b2b55d57b90ec68a0100000000ffffffff02202cb206000000001976a9148280b37df378db99f66f85c95a783a76ac7a6d5988ac9093510d000000001976a9143bde42dbee7e4dbe6a21b2d50ce2f0167faa815988ac000247304402203609e17b84f6a7d30c80bfa610b5b4542f32a8a0d5447a12fb1366d7f01cc44a0220573a954c4518331561406f90300e8f3358f51928d43c212a8caed02de67eebee0121025476c2e83188368da1ff3e292e7acafcdb3566bb0ad253f62fc70f07aeee635711000000";
const LEGACY_FORM: &str = "0100000002fff7f7881a8099afa6940d42d1e7f6362bec38171ea3edf433541db4e4ad969f00000000494830450221008b9d1dc26ba6a9cb62127b02742fa9d754cd3bebf337f7a55d114c8e5cdd30be022040529b194ba3f9281a99f2b1c0a19c0489bc22ede944ccf4ecbab4cc618ef3ed01eeffffffef51e1b804cc89d182d279655c3aa89e815b1b309fe287d9b2b55d57b90ec68a0100000000ffffffff02202cb206000000001976a9148280b37df378db99f66f85c95a783a76ac7a6d5988ac9093510d000000001976a9143bde42dbee7e4dbe6a21b2d50ce2f0167faa815988ac11000000";
const LEGACY_TX: &str = "01000000010000000000000000000000000000000000000000000000000000000000000000ffffffff4d04ffff001d0104455468652054696d65732030332f4a616e2f32303039204368616e63656c6c6f72206f6e206272696e6b206f66207365636f6e64206261696c6f757420666f722062616e6b73ffffffff0100f2052a01000000434104678afdb0fe5548271967f1a67130b7105cd6a828e03909a67962e0ea1f61deb649f6bc3f4cef38c4f35504e51ec112de5c384df7ba0b8d578a4c702b6bf11d5fac00000000";

fn bytes(text: &str) -> Vec<u8> {
    hex::decode(text).unwrap()
}

fn hash(text: &str) -> [u8; 32] {
    let mut out = [0u8; 32];
    out.copy_from_slice(&bytes(text));
    out
}

/// As explorers show hashes: the last byte first.
fn shown(h: [u8; 32]) -> String {
    let mut out = h.to_vec();
    out.reverse();
    hex::encode(out)
}

fn from_shown(text: &str) -> [u8; 32] {
    let mut out = hash(text);
    out.reverse();
    out
}

#[test]
fn varints_have_four_widths() {
    assert_eq!(encode_varint(0), vec![0]);
    assert_eq!(encode_varint(0xfc), vec![0xfc]);
    assert_eq!(encode_varint(0xfd), vec![0xfd, 0xfd, 0x00]);
    assert_eq!(encode_varint(0xffff), vec![0xfd, 0xff, 0xff]);
    assert_eq!(encode_varint(0x10000), vec![0xfe, 0, 0, 1, 0]);
    assert_eq!(encode_varint(0xffff_ffff), vec![0xfe, 0xff, 0xff, 0xff, 0xff]);
    assert_eq!(encode_varint(0x1_0000_0000), vec![0xff, 0, 0, 0, 0, 1, 0, 0, 0]);
}

#[test]
fn varints_read_back() {
    for v in [0u64, 1, 0xfc, 0xfd, 0xfffe, 0xffff, 0x10000, 0xffff_ffff, 0x1_0000_0000, u64::MAX] {
        let mut data = vec![7u8, 7];
        let raw = encode_varint(v);
        data.extend_from_slice(&raw);
        assert_eq!(read_varint(&data, 2), (v, raw.len()));
    }
}

#[test]
fn var_bytes_carry_their_length() {
    let mut out = vec![1u8];
    push_var_bytes(&mut out, &[9, 8, 7]);
    assert_eq!(out, vec![1, 3, 9, 8, 7]);
    let mut long = Vec::new();
    push_var_bytes(&mut long, &[5; 300]);
    assert_eq!(long.len(), 303);
    assert_eq!(&long[..4], &[0xfd, 0x2c, 0x01, 5]);
}

#[test]
fn double_hash_of_nothing() {
    assert_eq!(
        hex::encode(sha256d(&[])),
        "5df6e0e2761359d30a8275058e299fcc0381534545f55cf43e41983f5d4c9456"
    );
}

#[test]
fn merkle_root_of_a_known_block() {
    let mut ids = vec![
        from_shown("8c14f0db3df150123e6f3dbbf30f8b955a8249b62ac1d1ff16284aefa3d06d87"),
        from_shown("fff2525b8931402dd09222c50775608f75787bd2b87e56995a7bdd30f79702c4"),
        from_shown("6359f0868171b1d194cbee1af2f16ea598ae8fad666d9b012c8ed2b79a236ec4"),
        from_shown("e9a66845e05d5abc0ad04ec80f774a7e585c6e8db975962d069a522137b80c1d"),
    ];
    let mut three = ids[..3].to_vec();
    let mut one = ids[..1].to_vec();
    assert_eq!(
        shown(merkle_root(&mut ids)),
        "f3e94742aca4b5ef85488dc37c06c3282295ffec960994b2c0d5ac2a25a95766"
    );
    // An odd hash out is paired with itself.
    assert_eq!(
        shown(merkle_root(&mut three)),
        "fa435470825de273081dcc706b25514c936fa6dc80ab965ce6970d68ddd0b553"
    );
    assert_eq!(
        shown(merkle_root(&mut one)),
        "8c14f0db3df150123e6f3dbbf30f8b955a8249b62ac1d1ff16284aefa3d06d87"
    );
    assert_eq!(merkle_root(&mut Vec::new()), [0u8; 32]);
}

#[test]
fn witness_data_are_stripped() {
    assert_eq!(hex::encode(strip_witness(&bytes(SEGWIT_TX))), LEGACY_FORM);
}

#[test]
fn ids_ignore_witness_data() {
    assert_eq!(
        shown(sha256d_no_witness(&bytes(SEGWIT_TX))),
        "e8151a2af31c368a35053ddd4bdb285a8595c769a3ad83e0fa02314a602d4609"
    );
    assert_eq!(
        sha256d_no_witness(&bytes(SEGWIT_TX)),
        sha256d_no_witness(&bytes(LEGACY_FORM))
    );
    assert_eq!(
        shown(sha256d_no_witness(&bytes(LEGACY_TX))),
        "4a5e1e4baab89f3a32518a88c31bc87f618f76673e2cc77ab2127b7afdeda33b"
    );
}

#[test]
fn cut_transactions_have_no_id() {
    let whole = bytes(SEGWIT_TX);
    assert!(can_take_txid(&whole));
    assert!(!can_take_txid(&whole[..whole.len() - 1]));
    assert!(!can_take_txid(&whole[..60]));
    // Without marker and flag any bytes are hashed as they stand.
    assert!(can_take_txid(&bytes(LEGACY_TX)[..60]));
    assert!(can_take_txid(&[]));
}

#[test]
fn compact_targets() {
    let cases = [
        (0x1d00ffffu32, "00000000ffff0000000000000000000000000000000000000000000000000000"),
        (0x1b0404cb, "00000000000404cb000000000000000000000000000000000000000000000000"),
        (0x207fffff, "7fffff0000000000000000000000000000000000000000000000000000000000"),
        (0x2000ffff, "00ffff0000000000000000000000000000000000000000000000000000000000"),
        (0x04923456, "0000000000000000000000000000000000000000000000000000000012345600"),
        (0x03123456, "0000000000000000000000000000000000000000000000000000000000123456"),
        (0x02123456, "0000000000000000000000000000000000000000000000000000000000001234"),
        (0x01123456, "0000000000000000000000000000000000000000000000000000000000000012"),
        (0x00123456, "0000000000000000000000000000000000000000000000000000000000000000"),
    ];
    for (bits, target) in cases {
        assert_eq!(hex::encode(bits_to_target(bits)), target);
    }
}

#[test]
fn difficulty_targets() {
    let cases = [
        (0u64, "ffffffffffffffffffffffffffffffffffffffffffffffffffffffffffffffff"),
        (1, "00000000ffff0000000000000000000000000000000000000000000000000000"),
        (2, "000000007fff8000000000000000000000000000000000000000000000000000"),
        (3, "0000000055550000000000000000000000000000000000000000000000000000"),
        (1000, "00000000004188f5c28f5c28f5c28f5c28f5c28f5c28f5c28f5c28f5c28f5c28"),
        (u64::MAX, "000000000000000000000000ffff000000000000ffff000000000000ffff0000"),
    ];
    for (diff, target) in cases {
        assert_eq!(hex::encode(diff_to_target(diff)), target);
    }
}

#[test]
fn targets_fall_with_difficulty() {
    for (a, b) in [(0u64, 1u64), (1, 2), (7, 8), (1000, 1_000_000), (1, u64::MAX)] {
        assert!(diff_to_target(b) < diff_to_target(a));
    }
}

#[test]
fn heights_in_coinbase_scripts() {
    assert_eq!(encode_height(0), vec![0]);
    assert_eq!(encode_height(1), vec![1]);
    assert_eq!(encode_height(127), vec![127]);
    assert_eq!(encode_height(128), vec![128, 0]);
    assert_eq!(encode_height(255), vec![255, 0]);
    assert_eq!(encode_height(256), vec![0, 1]);
    assert_eq!(encode_height(0x8000), vec![0, 0x80, 0]);
    assert_eq!(encode_height(801212), vec![0xbc, 0x39, 0x0c]);
    assert_eq!(encode_height(u32::MAX), vec![255, 255, 255, 255, 0]);
}

#[test]
fn coinbase_scripts_carry_height_and_tag() {
    let mut want = vec![3u8, 0xbc, 0x39, 0x0c, 11];
    want.extend_from_slice(b"/MEWC-SOLO/");
    assert_eq!(build_coinbase_scriptsig(801212), want);
}

#[test]
fn addresses_and_their_scripts() {
    let cases = [
        ("1A1zP1eP5QGefi2DMPTfTL5SLmv7DivfNa", "62e907b15cbf27d5425399ebf6f0fb50ebb88f18"),
        ("1BvBMSEYstWetqTFn5Au4m4GFg7xJaNVN2", "77bff20c60e522dfaa3350c39b030a5d004e839a"),
        ("3J98t1WpEZ73CNmQviecrnyiWrnqRhWNLy", "b472a266d0bd89c13706a4132ccfb16f7c3b9fcb"),
    ];
    for (address, key_hash) in cases {
        assert!(is_valid_address(address));
        assert_eq!(hex::encode(p2pkh_script(address)), format!("76a914{key_hash}88ac"));
    }
}

#[test]
fn texts_that_are_no_addresses() {
    for text in ["", "x", "0OIl", "1A1zP1eP5QGefi2DMPTfTL5SLmv7Div0Na", "11111111111111111111"] {
        assert!(!is_valid_address(text));
        assert_eq!(p2pkh_script(text), vec![0u8; 25]);
    }
    // Twenty-one zero bytes are enough.
    assert!(is_valid_address("111111111111111111111"));
}

#[test]
fn identifiers_are_random_hexadecimal() {
    let bytes: [u8; 16] = [0xab, 0x01, 0xff, 0x00, 5, 6, 7, 8, 9, 10, 11, 12, 13, 14, 15, 16];
    assert_eq!(short_id(&bytes, 4), "ab01ff00");
    assert_eq!(short_id(&bytes, 8), "ab01ff0005060708");
    let (a, b) = (fresh_id(8), fresh_id(8));
    assert_eq!(a.len(), 16);
    assert!(a.chars().all(|c| c.is_ascii_hexdigit() && !c.is_ascii_uppercase()));
    assert_ne!(a, b);
    // The version of the identifier stands in the upper half of its seventh byte.
    assert_eq!(&fresh_id(16)[12..13], "4");
}

#[test]
fn texts_are_cut_and_read() {
    assert_eq!(split_first("a.b.c", '.'), ("a", "b.c"));
    assert_eq!(split_first("abc", '.'), ("abc", ""));
    assert_eq!(split_first(".x", '.'), ("", "x"));
    assert_eq!(split_first("ä.ö", '.'), ("ä", "ö"));
    assert_eq!(trim_0x("0x0xff"), "ff");
    assert_eq!(trim_0x("0X1"), "0X1");
    assert_eq!(trim_final_slashes("https://x.y//"), "https://x.y");
    assert_eq!(strip_prefix("--config=a", "--config="), Some("a"));
    assert_eq!(strip_prefix("--confi", "--config="), None);
    assert_eq!(parse_hex("ff", 255), Some(255));
    assert_eq!(parse_hex("+fF", 255), Some(255));
    assert_eq!(parse_hex("100", 255), None);
    assert_eq!(parse_hex("0000000000000000000ff", 255), Some(255));
    assert_eq!(parse_hex("", 255), None);
    assert_eq!(parse_hex("+", 255), None);
    assert_eq!(parse_hex("-1", 255), None);
    assert_eq!(parse_hex("0x1", 255), None);
    assert_eq!(parse_hex("ffffffffffffffff", u64::MAX), Some(u64::MAX));
    assert_eq!(parse_hex("10000000000000000", u64::MAX), None);
    assert_eq!(decimal_text(0), "0");
    assert_eq!(decimal_text(u64::MAX), "18446744073709551615");
    assert_eq!(signed_text(-17), "-17");
    assert_eq!(signed_text(i64::MIN), "-9223372036854775808");
}
