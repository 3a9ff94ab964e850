use bitcoincash_addr::Address;
use blockchain_rust::error::ChainError;
use blockchain_rust::primitives::{
    address_decode, address_encode, hash_of_pub_key, hash_pub_key, sign_message, verify_message,
};
use blockchain_rust::transaction::Transaction;
use blockchain_rust::wallets::{Wallet, Wallets};
use crypto::ed25519;

fn hex(bytes: &[u8]) -> String {
    let mut out = String::new();
    for b in bytes {
        out.push_str(&format!("{:02x}", b));
    }
    out
}

#[test]
fn test_create_wallet_and_hash() {
    let w1 = Wallet::new();
    let w2 = Wallet::new();
    assert_ne!(w1, w2);
    assert_ne!(w1.get_address(), w2.get_address());

    let mut p2 = w2.public_key.clone();
    hash_pub_key(&mut p2);
    assert_eq!(p2.len(), 20);
    let pub_key_hash = Address::decode(&w2.get_address()).unwrap().body;
    assert_eq!(pub_key_hash, p2);
}

#[test]
fn test_wallets() {
    let mut ws = Wallets::new().unwrap();
    let wa1 = ws.create_wallet();
    let w1 = ws.get_wallet(&wa1).unwrap().clone();

    let mut ws2 = Wallets::new().unwrap();
    for (address, wallet) in ws.entries() {
        ws2.insert(address.clone(), wallet.clone());
    }
    let w2 = ws2.get_wallet(&wa1).unwrap();
    assert_eq!(&w1, w2);
}

#[test]
#[should_panic]
fn test_wallets_not_exist() {
    let w3 = Wallet::new();
    let ws2 = Wallets::new().unwrap();
    ws2.get_wallet(&w3.get_address()).unwrap();
}

#[test]
fn wallets_test_signature() {
    let w = Wallet::new();
    let signature = ed25519::signature("test".as_bytes(), &w.secret_key);
    assert!(ed25519::verify("test".as_bytes(), &w.public_key, &signature));
}

#[test]
fn transaction_test_signature() {
    let mut ws = Wallets::new().unwrap();
    let wa1 = ws.create_wallet();
    let w = ws.get_wallet(&wa1).unwrap().clone();
    drop(ws);

    let data = String::from("test");
    let tx = Transaction::new_coinbase(wa1, data).unwrap();
    assert!(tx.is_coinbase());

    let signature = ed25519::signature(tx.id.as_bytes(), &w.secret_key);
    assert!(ed25519::verify(tx.id.as_bytes(), &w.public_key, &signature));
}

#[test]
fn library_signature_round_trip() {
    let w = Wallet::new();
    assert_eq!(w.secret_key.len(), 64);
    assert_eq!(w.public_key.len(), 32);
    let signature = sign_message(b"test", &w.secret_key);
    assert_eq!(signature.len(), 64);
    assert_eq!(signature, ed25519::signature(b"test", &w.secret_key).to_vec());
    assert!(verify_message(b"test", &w.public_key, &signature));
    assert!(!verify_message(b"tesu", &w.public_key, &signature));
    let mut bent = signature.clone();
    bent[3] ^= 1;
    assert!(!verify_message(b"test", &w.public_key, &bent));
}

#[test]
fn signature_of_wrong_length_is_invalid() {
    let w = Wallet::new();
    let signature = sign_message(b"test", &w.secret_key);
    assert!(!verify_message(b"test", &w.public_key, &signature[..63]));
    assert!(!verify_message(b"test", &w.public_key[..31], &signature));
    assert!(!verify_message(b"test", &[], &[]));
}

#[test]
fn hash_pub_key_of_known_inputs() {
    let mut empty: Vec<u8> = Vec::new();
    hash_pub_key(&mut empty);
    assert_eq!(hex(&empty), "b472a266d0bd89c13706a4132ccfb16f7c3b9fcb");

    let mut key: Vec<u8> = (0u8..32).collect();
    hash_pub_key(&mut key);
    assert_eq!(hex(&key), "ea4beb47def8492389a1e16634795441e1b87245");

    let key: Vec<u8> = (0u8..32).collect();
    assert_eq!(hex(&hash_of_pub_key(&key).unwrap()), "ea4beb47def8492389a1e16634795441e1b87245");
}

#[test]
fn hash_pub_key_of_a_long_key_hashes_all_of_it() {
    let mut long: Vec<u8> = vec![7u8; 100];
    hash_pub_key(&mut long);
    assert_eq!(long.len(), 20);
    let mut other: Vec<u8> = vec![7u8; 100];
    other[99] = 8;
    hash_pub_key(&mut other);
    assert_ne!(long, other);
}

#[test]
fn address_of_known_hashes() {
    assert_eq!(address_encode(&[0u8; 20]), "31h1vYVSYuKP6AhS86fbRdMw9XHieotbST");
    let body: Vec<u8> = (1u8..21).collect();
    assert_eq!(address_encode(&body), "31nM1WuowNDzocNxPPW9NQWJEtwWpjfcLj");
}

#[test]
fn address_decodes_to_its_hash() {
    let body: Vec<u8> = (1u8..21).collect();
    assert_eq!(address_decode("31nM1WuowNDzocNxPPW9NQWJEtwWpjfcLj").unwrap(), body);
    assert_eq!(
        hex(&address_decode("1NM2HFXin4cEQRBLjkNZAS98qLX9JKzjKn").unwrap()),
        "ea2407829a5055466b27784cde8cf463167946bf"
    );
    assert_eq!(address_decode(&address_encode(&body)).unwrap(), body);
}

#[test]
fn address_that_is_none_is_corrupt() {
    assert_eq!(address_decode("0"), Err(ChainError::Corrupt));
    assert_eq!(address_decode(""), Err(ChainError::Corrupt));
    assert_eq!(address_decode("31nM1WuowNDzocNxPPW9NQWJEtwWpjfcLk"), Err(ChainError::Corrupt));
    assert_eq!(
        address_decode("bitcoincash:qr4zgpuznfg923ntyauyeh5v7333v72xhum2dsdgfh"),
        Err(ChainError::Corrupt)
    );
}

#[test]
fn wallet_address_carries_the_key_hash() {
    let w = Wallet::new();
    let hash = hash_of_pub_key(&w.public_key).unwrap();
    assert_eq!(address_decode(&w.get_address()).unwrap(), hash);
    assert_eq!(w.get_address(), address_encode(&hash));
}

#[test]
fn wallets_hold_each_address_once() {
    let mut ws = Wallets::new().unwrap();
    assert_eq!(ws.get_all_addresses().len(), 0);
    let a = ws.create_wallet();
    let b = ws.create_wallet();
    assert_ne!(a, b);
    let mut all = ws.get_all_addresses();
    all.sort();
    let mut expected = vec![a.clone(), b.clone()];
    expected.sort();
    assert_eq!(all, expected);

    let stranger = Wallet::new();
    ws.insert(a.clone(), stranger.clone());
    assert_eq!(ws.get_all_addresses().len(), 2);
    assert_eq!(ws.get_wallet(&a).unwrap(), &stranger);
    assert!(ws.get_wallet("nobody").is_none());
}
