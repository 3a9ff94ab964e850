use blockchain_rust::block::{hash_meets_target, merkle_root_of, Block};
use blockchain_rust::config::{Config, CMD_LEN, KNOWN_NODE1, SUBSIDY, TARGET_HEXS, VERSION};
use blockchain_rust::error::ChainError;
use blockchain_rust::primitives::{
    bytes_equal, copy_bytes, now_ms, sha256, sha256_hex, stamp_of, str_equal,
};
use std::time::{Duration, SystemTime};
use blockchain_rust::transaction::{TXInput, TXOutput, Transaction};

fn hex(bytes: &[u8]) -> String {
    let mut out = String::new();
    for b in bytes {
        out.push_str(&format!("{:02x}", b));
    }
    out
}

fn named(id: &str) -> Transaction {
    Transaction { id: id.to_string(), vin: Vec::new(), vout: Vec::new() }
}

#[test]
fn constants_have_their_values() {
    assert_eq!(TARGET_HEXS, 4);
    assert_eq!(CMD_LEN, 12);
    assert_eq!(VERSION, 1);
    assert_eq!(SUBSIDY, 10);
    assert_eq!(KNOWN_NODE1, "localhost: 3000");
    let c = Config::standard();
    assert_eq!(c.target_hexs, 4);
    assert_eq!(c.cmd_len, 12);
    assert_eq!(c.version, 1);
    assert_eq!(c.subsidy, 10);
    assert_eq!(c.known_node, "localhost: 3000");
}

#[test]
fn error_messages() {
    assert_eq!(ChainError::InvalidTx.message(), "ERROR: Invalid transaction");
    assert_eq!(ChainError::NotFound.message(), "Transaction is not found");
    assert_eq!(ChainError::MissingPrev.message(), "ERROR: Previous transaction is not correct");
    assert_eq!(ChainError::InsufficientFunds.message(), "Not Enough balance");
}

#[test]
fn sha256_of_known_input() {
    assert_eq!(
        sha256_hex(b"abc").unwrap(),
        "ba7816bf8f01cfea414140de5dae2223b00361a396177a9cb410ff61f20015ad"
    );
    assert_eq!(
        hex(&sha256(b"abc").unwrap()),
        "ba7816bf8f01cfea414140de5dae2223b00361a396177a9cb410ff61f20015ad"
    );
    assert_eq!(sha256(b"").unwrap().len(), 32);
}

#[test]
fn byte_and_text_helpers() {
    assert!(bytes_equal(b"abc", b"abc"));
    assert!(!bytes_equal(b"abc", b"abd"));
    assert!(!bytes_equal(b"abc", b"ab"));
    assert!(bytes_equal(b"", b""));
    assert_eq!(copy_bytes(&[1, 2, 3]), vec![1u8, 2, 3]);
    assert!(str_equal("block", "block"));
    assert!(!str_equal("block", "blocks"));
    assert!(now_ms().unwrap() > 1_600_000_000_000u128);
}

#[test]
fn target_is_four_leading_zeros() {
    assert!(hash_meets_target("0000abc"));
    assert!(hash_meets_target("0000"));
    assert!(!hash_meets_target("000"));
    assert!(!hash_meets_target("0001abc"));
    assert!(!hash_meets_target("1000abc"));
    assert!(!hash_meets_target(""));
    assert!(!hash_meets_target("\0\0\0\0abc"));
}

#[test]
fn merkle_root_of_known_identifiers() {
    assert_eq!(merkle_root_of(&Vec::new()).unwrap(), Vec::<u8>::new());
    assert_eq!(
        hex(&merkle_root_of(&vec![named("a")]).unwrap()),
        "ca978112ca1bbdcafac231b39a23dc4da786eff8147c4e72b9807785afee48bb"
    );
    assert_eq!(
        hex(&merkle_root_of(&vec![named("a"), named("b")]).unwrap()),
        "e5a01fee14e0ed5c48714f22180f25ad8365b53f9779f79dc4a3d7e93963f94a"
    );
    assert_eq!(
        hex(&merkle_root_of(&vec![named("a"), named("b"), named("c")]).unwrap()),
        "d31a37ef6ac14a2db1470c4316beb5592e6afd4465022339adafda76a18ffabe"
    );
}

#[test]
fn merkle_root_has_32_bytes() {
    for n in 1..9 {
        let txs: Vec<Transaction> = (0..n).map(|i| named(&format!("tx{}", i))).collect();
        assert_eq!(merkle_root_of(&txs).unwrap().len(), 32);
    }
}

#[test]
fn block_hash_of_known_header() {
    let block = Block::from_parts(
        5,
        vec![named("a"), named("b"), named("c")],
        "ab".to_string(),
        String::new(),
        3,
        2,
    );
    assert_eq!(
        hex(&block.hash_transactions().unwrap()),
        "d31a37ef6ac14a2db1470c4316beb5592e6afd4465022339adafda76a18ffabe"
    );
    assert_eq!(
        block.compute_hash().unwrap(),
        "4b0c2c8ce65a6f7881f2a7e12fd92c2c64897fa0806fbd923c3350adb951a7eb"
    );
    assert_eq!(block.validate(), Ok(false));
}

#[test]
fn block_getters_return_the_parts() {
    let block = Block::from_parts(5, vec![named("a")], "ab".to_string(), "cd".to_string(), 3, 2);
    assert_eq!(block.get_timestamp(), 5);
    assert_eq!(block.get_transactions().len(), 1);
    assert_eq!(block.get_transactions()[0].id, "a");
    assert_eq!(block.get_prev_hash(), "ab");
    assert_eq!(block.get_hash(), "cd");
    assert_eq!(block.get_height(), 3);
    assert_eq!(block.get_nonce(), 2);
    let copy = block.clone();
    assert_eq!(copy.get_hash(), "cd");
    assert_eq!(copy.get_transactions()[0].id, "a");
}

#[test]
fn mined_block_meets_the_target() {
    let block = Block::mine(vec![named("a")], "prev".to_string(), 7, 1234).unwrap();
    assert_eq!(block.get_height(), 7);
    assert_eq!(block.get_prev_hash(), "prev");
    assert_eq!(block.get_timestamp(), 1234);
    assert!(block.get_nonce() >= 0);
    assert!(block.get_hash().starts_with("0000"));
    assert_eq!(block.get_hash().len(), 64);
    assert_eq!(block.compute_hash().unwrap(), block.get_hash());
    assert_eq!(block.validate(), Ok(true));
}

#[test]
fn mined_nonce_is_the_first_that_meets_the_target() {
    let block = Block::mine(vec![named("first")], String::new(), 0, 99).unwrap();
    let found = block.get_nonce();
    let mut n = 0;
    while n < found {
        let earlier = Block::from_parts(99, vec![named("first")], String::new(), String::new(), 0, n);
        assert!(!earlier.compute_hash().unwrap().starts_with("0000"));
        n += 1;
    }
    let again = Block::mine(vec![named("first")], String::new(), 0, 99).unwrap();
    assert_eq!(again.get_nonce(), found);
    assert_eq!(again.get_hash(), block.get_hash());
}

#[test]
fn tampered_block_does_not_validate() {
    let block = Block::mine(vec![named("a")], "prev".to_string(), 7, 1234).unwrap();
    let bent = Block::from_parts(
        1235,
        vec![named("a")],
        "prev".to_string(),
        block.get_hash(),
        7,
        block.get_nonce(),
    );
    assert_eq!(bent.validate(), Ok(false));
}

#[test]
fn new_block_is_stamped_and_mined() {
    let before = now_ms().unwrap();
    let block = Block::new(vec![named("a")], "prev".to_string(), 1).unwrap();
    assert!(block.get_timestamp() >= before);
    assert_eq!(block.validate(), Ok(true));
}

#[test]
fn genesis_block_has_height_zero_and_no_parent() {
    let coinbase = Transaction {
        id: "seed".to_string(),
        vin: vec![TXInput { txid: String::new(), vout: -1, signature: vec![], pub_key: vec![1] }],
        vout: vec![TXOutput { value: 10, pub_key_hash: vec![2; 20] }],
    };
    let block = Block::new_genesis_block(coinbase).unwrap();
    assert_eq!(block.get_height(), 0);
    assert_eq!(block.get_prev_hash(), "");
    assert_eq!(block.get_transactions().len(), 1);
    assert_eq!(block.validate(), Ok(true));
}

#[test]
fn timestamp_is_the_whole_milliseconds_since_the_epoch() {
    assert_eq!(stamp_of(Ok(Duration::from_millis(1500))), Ok(1500));
    assert_eq!(stamp_of(Ok(Duration::from_micros(2_999))), Ok(2));
    assert_eq!(stamp_of(Ok(Duration::from_secs(0))), Ok(0));
    let later = SystemTime::UNIX_EPOCH + Duration::from_secs(10);
    assert_eq!(stamp_of(SystemTime::UNIX_EPOCH.duration_since(later)), Err(ChainError::Clock));
    assert_eq!(
        stamp_of(later.duration_since(SystemTime::UNIX_EPOCH)),
        Ok(10_000)
    );
}
