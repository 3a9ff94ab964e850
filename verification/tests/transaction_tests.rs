use blockchain_rust::error::ChainError;
use blockchain_rust::primitives::{address_encode, hash_of_pub_key};
use blockchain_rust::transaction::{
    clone_inputs, clone_outputs, clone_transactions, find_by_id, lock_of_spent, TXInput,
    TXOutput, TXOutputs, Transaction,
};
use blockchain_rust::wallets::Wallet;
use crypto::ed25519;

fn sample() -> Transaction {
    Transaction {
        id: "whatever".to_string(),
        vin: vec![TXInput {
            txid: String::new(),
            vout: -1,
            signature: Vec::new(),
            pub_key: vec![1, 2, 3],
        }],
        vout: vec![TXOutput { value: 10, pub_key_hash: vec![9; 20] }],
    }
}

fn paid_to(wallet: &Wallet, id: &str) -> Transaction {
    Transaction {
        id: id.to_string(),
        vin: vec![TXInput {
            txid: String::new(),
            vout: -1,
            signature: Vec::new(),
            pub_key: vec![5],
        }],
        vout: vec![
            TXOutput { value: 3, pub_key_hash: vec![1; 20] },
            TXOutput { value: 10, pub_key_hash: hash_of_pub_key(&wallet.public_key).unwrap() },
        ],
    }
}

fn spending(wallet: &Wallet, prev: &str, index: i32) -> Transaction {
    let mut tx = Transaction {
        id: String::new(),
        vin: vec![TXInput {
            txid: prev.to_string(),
            vout: index,
            signature: Vec::new(),
            pub_key: wallet.public_key.clone(),
        }],
        vout: vec![TXOutput { value: 10, pub_key_hash: vec![4; 20] }],
    };
    tx.id = tx.hash().unwrap();
    tx
}

#[test]
fn hash_of_known_transaction() {
    assert_eq!(
        sample().hash().unwrap(),
        "82c5298455d434b83778620740ef943d1d9b94fd01cc9e8ead8cda6f457eaccc"
    );
}

#[test]
fn hash_leaves_the_identifier_out() {
    let a = sample();
    let mut b = sample();
    b.id = "another".to_string();
    assert_eq!(a.hash().unwrap(), b.hash().unwrap());
    let mut c = sample();
    c.vout[0].value = 11;
    assert_ne!(a.hash().unwrap(), c.hash().unwrap());
    let mut d = sample();
    d.vin[0].pub_key.push(0);
    assert_ne!(a.hash().unwrap(), d.hash().unwrap());
}

#[test]
fn coinbase_is_one_empty_input_with_index_minus_one() {
    assert!(sample().is_coinbase());
    let mut two = sample();
    two.vin.push(TXInput { txid: String::new(), vout: -1, signature: vec![], pub_key: vec![] });
    assert!(!two.is_coinbase());
    let mut named = sample();
    named.vin[0].txid = "x".to_string();
    assert!(!named.is_coinbase());
    let mut zero = sample();
    zero.vin[0].vout = 0;
    assert!(!zero.is_coinbase());
    let mut none = sample();
    none.vin.clear();
    assert!(!none.is_coinbase());
}

#[test]
fn trim_copy_empties_signatures_and_keys() {
    let mut tx = sample();
    tx.vin[0].signature = vec![7, 7];
    tx.vin.push(TXInput { txid: "p".to_string(), vout: 2, signature: vec![1], pub_key: vec![2] });
    let copy = tx.trim_copy();
    assert_eq!(copy.id, "whatever");
    assert_eq!(copy.vin.len(), 2);
    assert_eq!(copy.vin[0].txid, "");
    assert_eq!(copy.vin[0].vout, -1);
    assert_eq!(copy.vin[1].txid, "p");
    assert_eq!(copy.vin[1].vout, 2);
    for input in &copy.vin {
        assert!(input.signature.is_empty());
        assert!(input.pub_key.is_empty());
    }
    assert_eq!(copy.vout.len(), 1);
    assert_eq!(copy.vout[0].value, 10);
    assert_eq!(copy.vout[0].pub_key_hash, vec![9u8; 20]);
}

#[test]
fn copies_hold_the_same_values() {
    let tx = sample();
    let copy = tx.clone();
    assert_eq!(copy.id, tx.id);
    assert_eq!(copy.vin[0].pub_key, tx.vin[0].pub_key);
    assert_eq!(copy.vout[0].pub_key_hash, tx.vout[0].pub_key_hash);
    assert_eq!(clone_inputs(&tx.vin).len(), 1);
    assert_eq!(clone_outputs(&tx.vout)[0].value, 10);
    assert_eq!(clone_transactions(&vec![sample(), sample()]).len(), 2);
    let outs = TXOutputs { outputs: clone_outputs(&tx.vout) };
    assert_eq!(outs.clone().outputs.len(), 1);
}

#[test]
fn output_is_locked_to_the_hash_in_the_address() {
    let body: Vec<u8> = (1u8..21).collect();
    let out = TXOutput::new(7, address_encode(&body)).unwrap();
    assert_eq!(out.value, 7);
    assert_eq!(out.pub_key_hash, body);
    assert!(out.is_locked_with_key(&body));
    assert!(!out.is_locked_with_key(&[0u8; 20]));
    assert!(!out.is_locked_with_key(&body[..19]));
}

#[test]
fn output_for_no_address_is_corrupt() {
    assert_eq!(TXOutput::new(7, "not an address".to_string()).err(), Some(ChainError::Corrupt));
    let mut out = TXOutput { value: 1, pub_key_hash: vec![3] };
    assert_eq!(out.lock("0"), Err(ChainError::Corrupt));
    assert_eq!(out.pub_key_hash, vec![3u8]);
    assert_eq!(out.lock("31h1vYVSYuKP6AhS86fbRdMw9XHieotbST"), Ok(()));
    assert_eq!(out.pub_key_hash, vec![0u8; 20]);
    assert_eq!(out.value, 1);
}

#[test]
fn input_unlocks_the_hash_of_its_key() {
    let w = Wallet::new();
    let input = TXInput {
        txid: "p".to_string(),
        vout: 0,
        signature: vec![],
        pub_key: w.public_key.clone(),
    };
    let hash = hash_of_pub_key(&w.public_key).unwrap();
    assert!(input.can_unlock_output_with(&hash));
    assert!(!input.can_unlock_output_with(&[0u8; 20]));
}

#[test]
fn coinbase_with_a_memo_is_determined() {
    let to = address_encode(&[8u8; 20]);
    let tx = Transaction::new_coinbase(to.clone(), "GENESIS_COINBASE".to_string()).unwrap();
    assert!(tx.is_coinbase());
    let mut expected = b"GENESIS_COINBASE".to_vec();
    expected.extend_from_slice(&[0u8; 32]);
    assert_eq!(tx.vin[0].pub_key, expected);
    assert!(tx.vin[0].signature.is_empty());
    assert_eq!(tx.vout.len(), 1);
    assert_eq!(tx.vout[0].value, 10);
    assert_eq!(tx.vout[0].pub_key_hash, vec![8u8; 20]);
    assert_eq!(tx.id, tx.hash().unwrap());
    let again = Transaction::new_coinbase(to, "GENESIS_COINBASE".to_string()).unwrap();
    assert_eq!(again.id, tx.id);
}

#[test]
fn coinbase_without_a_memo_is_random() {
    let to = address_encode(&[8u8; 20]);
    let a = Transaction::new_coinbase(to.clone(), String::new()).unwrap();
    let b = Transaction::new_coinbase(to.clone(), String::new()).unwrap();
    let memo = format!("Reward to '{}'", to);
    assert_eq!(a.vin[0].pub_key.len(), memo.len() + 32);
    assert_eq!(&a.vin[0].pub_key[..memo.len()], memo.as_bytes());
    assert_ne!(a.vin[0].pub_key, b.vin[0].pub_key);
    assert_ne!(a.id, b.id);
    assert_eq!(a.id, a.hash().unwrap());
    assert_eq!(a.vout[0].value, 10);
}

#[test]
fn coinbase_from_parts() {
    let to = address_encode(&[8u8; 20]);
    let tx = Transaction::coinbase_from(to, "memo", &[1, 2]).unwrap();
    assert_eq!(tx.vin[0].pub_key, vec![b'm', b'e', b'm', b'o', 1, 2]);
    assert_eq!(tx.vin[0].txid, "");
    assert_eq!(tx.vin[0].vout, -1);
    assert_eq!(tx.id, tx.hash().unwrap());
}

#[test]
fn coinbase_to_no_address_is_corrupt() {
    assert_eq!(
        Transaction::new_coinbase("nobody".to_string(), "m".to_string()).err(),
        Some(ChainError::Corrupt)
    );
    assert_eq!(
        Transaction::new_coinbase("nobody".to_string(), String::new()).err(),
        Some(ChainError::Corrupt)
    );
}

#[test]
fn lookup_by_identifier_finds_the_first() {
    let txs = vec![sample(), paid_to(&Wallet::new(), "p"), paid_to(&Wallet::new(), "p")];
    assert_eq!(find_by_id(&txs, "whatever"), Some(0));
    assert_eq!(find_by_id(&txs, "p"), Some(1));
    assert_eq!(find_by_id(&txs, "q"), None);
    assert_eq!(find_by_id(&Vec::new(), "q"), None);
}

#[test]
fn lock_of_a_spent_output() {
    let w = Wallet::new();
    let prev = vec![paid_to(&w, "p")];
    let at = |txid: &str, vout: i32| TXInput {
        txid: txid.to_string(),
        vout,
        signature: vec![],
        pub_key: vec![],
    };
    assert_eq!(lock_of_spent(&prev, &at("p", 0)), Some(vec![1u8; 20]));
    assert_eq!(lock_of_spent(&prev, &at("p", 1)), hash_of_pub_key(&w.public_key));
    assert_eq!(lock_of_spent(&prev, &at("p", 2)), None);
    assert_eq!(lock_of_spent(&prev, &at("p", -1)), None);
    assert_eq!(lock_of_spent(&prev, &at("q", 0)), None);
    let unnamed = vec![paid_to(&w, "")];
    assert_eq!(lock_of_spent(&unnamed, &at("", 0)), None);
}

#[test]
fn signed_transaction_verifies() {
    let w = Wallet::new();
    let prev = vec![paid_to(&w, "p")];
    let mut tx = spending(&w, "p", 1);
    assert_eq!(tx.verify(&prev), Ok(false));
    assert_eq!(tx.sign(&w.secret_key, &prev), Ok(()));
    assert_eq!(tx.vin[0].signature.len(), 64);
    assert_eq!(tx.vin[0].pub_key, w.public_key);
    assert_eq!(tx.verify(&prev), Ok(true));
}

#[test]
fn signature_is_over_the_hash_of_the_signing_form() {
    let w = Wallet::new();
    let prev = vec![paid_to(&w, "p")];
    let mut tx = spending(&w, "p", 1);
    tx.sign(&w.secret_key, &prev).unwrap();
    let mut form = tx.trim_copy();
    form.vin[0].pub_key = hash_of_pub_key(&w.public_key).unwrap();
    let digest = form.hash().unwrap();
    assert_eq!(
        tx.vin[0].signature,
        ed25519::signature(digest.as_bytes(), &w.secret_key).to_vec()
    );
}

#[test]
fn each_input_is_signed_over_its_own_form() {
    let w = Wallet::new();
    let prev = vec![paid_to(&w, "p"), paid_to(&w, "q")];
    let mut tx = spending(&w, "p", 1);
    tx.vin.push(TXInput {
        txid: "q".to_string(),
        vout: 1,
        signature: Vec::new(),
        pub_key: w.public_key.clone(),
    });
    tx.sign(&w.secret_key, &prev).unwrap();
    assert_ne!(tx.vin[0].signature, tx.vin[1].signature);
    assert_eq!(tx.verify(&prev), Ok(true));
    let first = tx.vin[0].signature.clone();
    tx.vin[0].signature = tx.vin[1].signature.clone();
    tx.vin[1].signature = first;
    assert_eq!(tx.verify(&prev), Ok(false));
}

#[test]
fn changed_transaction_does_not_verify() {
    let w = Wallet::new();
    let prev = vec![paid_to(&w, "p")];
    let mut tx = spending(&w, "p", 1);
    tx.sign(&w.secret_key, &prev).unwrap();

    let mut paid_more = tx.clone();
    paid_more.vout[0].value = 11;
    assert_eq!(paid_more.verify(&prev), Ok(false));

    let mut paid_other = tx.clone();
    paid_other.vout[0].pub_key_hash[0] ^= 1;
    assert_eq!(paid_other.verify(&prev), Ok(false));

    let mut other_output = tx.clone();
    other_output.vin[0].vout = 0;
    assert_eq!(other_output.verify(&prev), Ok(false));

    let mut bent = tx.clone();
    bent.vin[0].signature[10] ^= 1;
    assert_eq!(bent.verify(&prev), Ok(false));

    let mut other_key = tx.clone();
    other_key.vin[0].pub_key = Wallet::new().public_key;
    assert_eq!(other_key.verify(&prev), Ok(false));

    let mut other_lock = paid_to(&w, "p");
    other_lock.vout[1].pub_key_hash[0] ^= 1;
    assert_eq!(tx.verify(&vec![other_lock]), Ok(false));
}

#[test]
fn renamed_transaction_still_verifies() {
    let w = Wallet::new();
    let prev = vec![paid_to(&w, "p")];
    let mut tx = spending(&w, "p", 1);
    tx.sign(&w.secret_key, &prev).unwrap();
    tx.id = "renamed".to_string();
    assert_eq!(tx.verify(&prev), Ok(true));
}

#[test]
fn coinbase_verifies_and_stays_unsigned() {
    let mut tx = sample();
    assert_eq!(tx.verify(&Vec::new()), Ok(true));
    assert_eq!(tx.sign(&[0u8; 64], &Vec::new()), Ok(()));
    assert!(tx.vin[0].signature.is_empty());
}

#[test]
fn missing_previous_output_is_an_error() {
    let w = Wallet::new();
    let prev = vec![paid_to(&w, "p")];
    let mut absent = spending(&w, "nowhere", 0);
    assert_eq!(absent.verify(&prev), Err(ChainError::MissingPrev));
    assert_eq!(absent.sign(&w.secret_key, &prev), Err(ChainError::MissingPrev));
    assert!(absent.vin[0].signature.is_empty());

    let mut beyond = spending(&w, "p", 2);
    assert_eq!(beyond.verify(&prev), Err(ChainError::MissingPrev));
    assert_eq!(beyond.sign(&w.secret_key, &prev), Err(ChainError::MissingPrev));

    let mut unnamed = spending(&w, "", 0);
    assert!(!unnamed.is_coinbase());
    assert_eq!(unnamed.verify(&vec![paid_to(&w, "")]), Err(ChainError::MissingPrev));
    assert_eq!(unnamed.sign(&w.secret_key, &vec![paid_to(&w, "")]), Err(ChainError::MissingPrev));
}
