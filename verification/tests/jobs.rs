use mewc_solo_pool::job::Job;
use mewc_solo_pool::node::{BlockTemplate, GbtTransaction};
use mewc_solo_pool::pow::seed_at_height;
use mewc_solo_pool::verify::{check_share, mix_hash_to_raw};

const MINER: &str = "1A1zP1eP5QGefi2DMPTfTL5SLmv7DivfNa";
const COMMUNITY: &str = "1BvBMSEYstWetqTFn5Au4m4GFg7xJaNVN2";
const FEE: &str = "3J98t1WpEZ73CNmQviecrnyiWrnqRhWNLy";
const SEGWIT_TX: &str = "01000000000102fff7f7881a8099afa6940d42d1e7f6362bec38171ea3edf433541db4e4ad969f00000000494830450221008b9d1dc26ba6a9cb62127b02742fa9d754cd3bebf337f7a55d114c8e5cdd30be022040529b194ba3f9281a99f2b1c0a19c0489bc22ede944ccf4ecbab4cc618ef3ed01eeffffffef51e1b804cc89d182d279655c3aa89e815b1b309fe287d9b2b55d57b90ec68a0100000000ffffffff02202cb206000000001976a9148280b37df378db99f66f85c95a783a76ac7a6d5988ac9093510d000000001976a9143bde42dbee7e4dbe6a21b2d50ce2f0167faa815988ac000247304402203609e17b84f6a7d30c80bfa610b5b4542f32a8a0d5447a12fb1366d7f01cc44a0220573a954c4518331561406f90300e8f3358f51928d43c212a8caed02de67eebee0121025476c2e83188368da1ff3e292e7acafcdb3566bb0ad253f62fc70f07aeee635711000000";
const LEGACY_TX: &str = "01000000010000000000000000000000000000000000000000000000000000000000000000ffffffff4d04ffff001d0104455468652054696d65732030332f4a616e2f32303039204368616e63656c6c6f72206f6e206272696e6b206f66207365636f6e64206261696c6f757420666f722062616e6b73ffffffff0100f2052a01000000434104678afdb0fe5548271967f1a67130b7105cd6a828e03909a67962e0ea1f61deb649f6bc3f4cef38c4f35504e51ec112de5c384df7ba0b8d578a4c702b6bf11d5fac00000000";
const PREV: &str = "00000000000000000001a2b3c4d5e6f708192a3b4c5d6e7f8091a2b3c4d5e6f7";
const PREV_RAW: &str = "f7e6d5c4b3a291807f6e5d4c3b2a1908f7e6d5c4b3a201000000000000000000";
const MIX: &str = "d85c3a464824e2c5422d84b9572eb7fc214473e36d89dcca83fe0d8efb7ca00d";

fn transaction(data: &str, id: &str) -> GbtTransaction {
    GbtTransaction {
        data: data.to_string(),
        txid: id.to_string(),
        hash: id.to_string(),
        fee: 1,
        weight: 4,
    }
}

fn template() -> BlockTemplate {
    BlockTemplate {
        version: 0x3000_0000,
        previousblockhash: PREV.to_string(),
        transactions: vec![
            transaction(
                LEGACY_TX,
                "4a5e1e4baab89f3a32518a88c31bc87f618f76673e2cc77ab2127b7afdeda33b",
            ),
            transaction(
                SEGWIT_TX,
                "c36c38370907df2324d9ce9d149d191192f338b37665a82e78e76a12c909b762",
            ),
        ],
        coinbasevalue: 250_000_000_000,
        bits: "207fffff".to_string(),
        height: 801_212,
        curtime: 1_710_799_584,
        witness_commitment: Some(format!("6a24aa21a9ed{}", "11".repeat(32))),
        community_address: Some(COMMUNITY.to_string()),
        community_value: Some(100_000_000),
    }
}

fn job() -> Job {
    Job::with_id(template(), "0badcafe".to_string(), Some(FEE.to_string()), Some(2_500_000_000))
}

#[test]
fn templates_become_jobs() {
    assert!(template().is_readable());
    let j = job();
    assert_eq!(j.id, "0badcafe");
    assert_eq!(j.prev_hash, PREV_RAW);
    assert_eq!(j.bits, 0x207fffff);
    assert_eq!(hex::encode(j.network_boundary), format!("7fffff{}", "00".repeat(29)));
    assert_eq!(j.seed_hash, "4442f225020ba6d0037c1baa9e9f66654481d0e5b3db0a4631120df006c71b42");
    assert_eq!(j.tx_data, vec![hex::decode(LEGACY_TX).unwrap(), hex::decode(SEGWIT_TX).unwrap()]);
    let mut wtxid = j.tx_wtxids[1];
    wtxid.reverse();
    assert_eq!(
        hex::encode(wtxid),
        "c36c38370907df2324d9ce9d149d191192f338b37665a82e78e76a12c909b762"
    );
    assert_eq!(j.community_value, 100_000_000);
    assert_eq!(j.witness_commitment_script.as_ref().unwrap().len(), 38);
    assert!(j.is_minable());
}

#[test]
fn jobs_get_new_ids() {
    let a = Job::from_template(template(), None, None);
    let b = Job::from_template(template(), None, None);
    assert_eq!(a.id.len(), 8);
    assert!(a.id.chars().all(|c| c.is_ascii_hexdigit()));
    assert_ne!(a.id, b.id);
    assert_eq!(a.header_hash(MINER), b.header_hash(MINER));
}

#[test]
fn templates_that_cannot_be_read() {
    let mut t = template();
    t.bits = "xyz".to_string();
    assert!(!t.is_readable());
    t.bits = "217fffff".to_string();
    assert!(!t.is_readable());
    t.bits = "1207fffff".to_string();
    assert!(!t.is_readable());
    let mut t = template();
    t.previousblockhash = "0".to_string();
    assert!(!t.is_readable());
    let mut t = template();
    t.witness_commitment = Some("6".to_string());
    assert!(!t.is_readable());
    let mut t = template();
    t.transactions[1].data = "zz".to_string();
    assert!(!t.is_readable());
    let mut t = template();
    t.transactions[0].hash = "00".to_string();
    assert!(!t.is_readable());
    let mut t = template();
    t.witness_commitment = None;
    t.community_address = None;
    t.community_value = None;
    assert!(t.is_readable());
    assert_eq!(Job::from_template(t, None, None).community_value, 0);
}

#[test]
fn jobs_that_cannot_be_mined() {
    let mut j = job();
    j.prev_hash = "00".to_string();
    assert!(!j.is_minable());
    let mut j = job();
    j.fee_sats = Some(250_000_000_001);
    assert!(!j.is_minable());
    j.fee_address = None;
    assert!(j.is_minable());
    let mut j = job();
    j.tx_data[1].pop();
    assert!(!j.is_minable());
}

#[test]
fn coinbase_with_all_outputs() {
    assert_eq!(
        hex::encode(job().build_coinbase(MINER)),
        "020000000001010000000000000000000000000000000000000000000000000000000000000000ffffffff1003bc390c0b2f4d4557432d534f4c4f2fffffffff04004b26a0390000001976a91462e907b15cbf27d5425399ebf6f0fb50ebb88f1888ac00e1f505000000001976a91477bff20c60e522dfaa3350c39b030a5d004e839a88ac00f90295000000001976a914b472a266d0bd89c13706a4132ccfb16f7c3b9fcb88ac0000000000000000266a24aa21a9ed11111111111111111111111111111111111111111111111111111111111111110120000000000000000000000000000000000000000000000000000000000000000000000000"
    );
    assert_eq!(job().coinbase_split(), (247_500_000_000, 2_500_000_000));
}

#[test]
fn disabled_fee_leaves_all_to_the_miner() {
    let j = Job::with_id(template(), "1".to_string(), Some(FEE.to_string()), None);
    assert_eq!(j.coinbase_split(), (250_000_000_000, 0));
    assert_eq!(
        hex::encode(j.build_coinbase(MINER)),
        "020000000001010000000000000000000000000000000000000000000000000000000000000000ffffffff1003bc390c0b2f4d4557432d534f4c4f2fffffffff03004429353a0000001976a91462e907b15cbf27d5425399ebf6f0fb50ebb88f1888ac00e1f505000000001976a91477bff20c60e522dfaa3350c39b030a5d004e839a88ac0000000000000000266a24aa21a9ed11111111111111111111111111111111111111111111111111111111111111110120000000000000000000000000000000000000000000000000000000000000000000000000"
    );
    assert_eq!(
        hex::encode(j.header_hash(MINER).0),
        "603e3e0dfcda691573ab9513206867154a932c039b13d97074a2710b0a1c9f45"
    );
    // A fee without an address is no fee.
    let k = Job::with_id(template(), "1".to_string(), None, Some(5));
    assert_eq!(k.coinbase_split(), (250_000_000_000, 0));
    assert_eq!(k.build_coinbase(MINER), j.build_coinbase(MINER));
}

#[test]
fn headers_and_their_hash() {
    let (hash, root) = job().header_hash(MINER);
    assert_eq!(
        hex::encode(root),
        "baee76880064f867772389792c6352dec095c1d6f3f35abb878859e6379c8bb1"
    );
    assert_eq!(
        hex::encode(hash),
        "cd702f106e0e25da29eafdc93d142092371e980dbbabe9dccff49298ab8acd73"
    );
    assert_eq!(
        hex::encode(job().build_header_prefix(root)),
        "00000030f7e6d5c4b3a291807f6e5d4c3b2a1908f7e6d5c4b3a201000000000000000000baee76880064f867772389792c6352dec095c1d6f3f35abb878859e6379c8bb1e0baf865ffff7f20bc390c00"
    );
    // Each miner works on its own header.
    assert_eq!(
        hex::encode(job().header_hash(FEE).0),
        "18e094ceee0a39aca126120b7af54885c8d6139ba42d4085be10a144aad72809"
    );
}

#[test]
fn merkle_roots_of_given_coinbases() {
    let mut txid = [0u8; 32];
    txid.copy_from_slice(
        &hex::decode("edfb89bb238fa88b6f41ea0ff69fa828abd50379c70ccc95d2046c8ada4911fd").unwrap(),
    );
    assert_eq!(
        hex::encode(job().compute_merkle_root(txid)),
        "baee76880064f867772389792c6352dec095c1d6f3f35abb878859e6379c8bb1"
    );
    let mut alone = job();
    alone.tx_data.clear();
    assert_eq!(alone.compute_merkle_root(txid), txid);
}

#[test]
fn blocks_hold_header_proof_and_transactions() {
    let j = job();
    let (_, root) = j.header_hash(MINER);
    let prefix = j.build_header_prefix(root);
    let mix = mix_hash_to_raw(MIX).unwrap();
    let block = j.serialize_block(&prefix, 0x0102_0304_0506_0708, &mix, MINER);
    let mut want = prefix.to_vec();
    want.extend_from_slice(&[8, 7, 6, 5, 4, 3, 2, 1]);
    want.extend_from_slice(&mix);
    want.push(3);
    want.extend_from_slice(&j.build_coinbase(MINER));
    want.extend_from_slice(&hex::decode(LEGACY_TX).unwrap());
    want.extend_from_slice(&hex::decode(SEGWIT_TX).unwrap());
    assert_eq!(block, want);
    assert_eq!(block.len(), 920);
}

#[test]
fn seeds_change_with_the_epoch() {
    assert_eq!(seed_at_height(0), [0u8; 32]);
    assert_eq!(seed_at_height(7499), [0u8; 32]);
    assert_eq!(
        hex::encode(seed_at_height(7500)),
        "290decd9548b62a8d60345a988386fc84ba6bc95484008f6362f93160ef3e563"
    );
    assert_eq!(
        hex::encode(seed_at_height(801_212)),
        "4442f225020ba6d0037c1baa9e9f66654481d0e5b3db0a4631120df006c71b42"
    );
}

#[test]
fn shares_of_known_blocks() {
    let all = [0xffu8; 32];
    let header = "152f48f387e3721f1f3776cbf269ccadd2a947c01d3155272ff325ffd435f9ab";
    let hash = check_share(header, MIX, 0x91a9_6731_cbc8_1eb9, &all).unwrap();
    assert_eq!(
        hex::encode(hash),
        "00d8831507383053c60392b83110ad7ad702090e153597bbad49d78bf395830c"
    );
    // A hash meets its own value as a boundary, and none below.
    assert_eq!(check_share(header, MIX, 0x91a9_6731_cbc8_1eb9, &hash), Some(hash));
    let mut below = hash;
    below[31] -= 1;
    assert_eq!(check_share(header, MIX, 0x91a9_6731_cbc8_1eb9, &below), None);
    assert_eq!(check_share(header, MIX, 0x91a9_6731_cbc8_1eb9, &[0u8; 32]), None);
    assert_eq!(
        hex::encode(
            check_share(
                "cdb5df936168181306eaf41bca661f5b13d2b805c89f66be91bf14409df956c2",
                "6a81ab658556e0f4436968326c6c128a911ba20e5913b0e14ab8f2b3113f2aad",
                0x8154_0406_1eff_ffb7,
                &all
            )
            .unwrap()
        ),
        "00000000001a87e36d7bc8401cbd1264f87692b383a136c92f88b0dcb34b03dd"
    );
}

#[test]
fn shares_with_unreadable_hashes() {
    let all = [0xffu8; 32];
    assert_eq!(check_share("00", MIX, 0, &all), None);
    assert_eq!(check_share(MIX, "", 0, &all), None);
    assert_eq!(check_share(MIX, "zz", 0, &all), None);
    assert_eq!(check_share(MIX, &format!("{MIX}00"), 0, &all), None);
}

#[test]
fn mix_hashes_are_reversed() {
    let raw = mix_hash_to_raw(MIX).unwrap();
    assert_eq!(
        hex::encode(raw),
        "0da07cfb8e0dfe83cadc896de3734421fcb72e57b9842d42c5e22448463a5cd8"
    );
    assert_eq!(mix_hash_to_raw("0d"), None);
    assert_eq!(mix_hash_to_raw("x"), None);
}
