use blockchain_rust::block::Block;
use blockchain_rust::blockchain::Blockchain;
use blockchain_rust::error::ChainError;
use blockchain_rust::primitives::hash_of_pub_key;
use blockchain_rust::transaction::{TXInput, TXOutput, Transaction};
use blockchain_rust::utxoset::{
    clone_entries, drop_entry, find_entry, number_outputs, put_entry, unspent_of, UTXOSet,
    Unspent, UnspentOutputs, UtxoStore,
};
use blockchain_rust::wallets::Wallet;

fn sorted(entries: &Vec<(String, UnspentOutputs)>) -> Vec<(String, Vec<(usize, i32, Vec<u8>)>)> {
    let mut all: Vec<(String, Vec<(usize, i32, Vec<u8>)>)> = entries
        .iter()
        .map(|(id, outs)| {
            (
                id.clone(),
                outs.outputs
                    .iter()
                    .map(|u| (u.index, u.output.value, u.output.pub_key_hash.clone()))
                    .collect(),
            )
        })
        .collect();
    all.sort();
    all
}

fn total(entries: &Vec<(String, UnspentOutputs)>) -> i64 {
    entries
        .iter()
        .map(|(_, outs)| outs.outputs.iter().map(|u| u.output.value as i64).sum::<i64>())
        .sum()
}

fn all_of(outputs: Vec<TXOutput>) -> UnspentOutputs {
    UnspentOutputs { outputs: number_outputs(&outputs) }
}

fn some_of(outputs: Vec<(usize, TXOutput)>) -> UnspentOutputs {
    UnspentOutputs {
        outputs: outputs.into_iter().map(|(index, output)| Unspent { index, output }).collect(),
    }
}

fn started(wallet: &Wallet) -> UTXOSet {
    let chain = Blockchain::create_blockchain(wallet.get_address()).unwrap();
    let mut utxo = UTXOSet::new(chain);
    utxo.reindex().unwrap();
    utxo
}

fn send(utxo: &mut UTXOSet, from: &Wallet, to: &str, amount: i32) -> Result<Block, ChainError> {
    let tx = Transaction::new_UTXO(from, to, amount, utxo)?;
    let memo = format!("Reward {}", utxo.blockchain.get_best_height()?);
    let cbtx = Transaction::new_coinbase(from.get_address(), memo)?;
    let block = utxo.blockchain.mine_block(vec![cbtx, tx])?;
    utxo.update(&block)?;
    Ok(block)
}

fn out(value: i32, lock: u8) -> TXOutput {
    TXOutput { value, pub_key_hash: vec![lock; 20] }
}

fn plain(id: &str, vin: Vec<(&str, i32)>, vout: Vec<TXOutput>) -> Transaction {
    Transaction {
        id: id.to_string(),
        vin: vin
            .into_iter()
            .map(|(txid, vout)| TXInput {
                txid: txid.to_string(),
                vout,
                signature: vec![],
                pub_key: vec![],
            })
            .collect(),
        vout,
    }
}

fn coinbase(id: &str, vout: Vec<TXOutput>) -> Transaction {
    plain(id, vec![("", -1)], vout)
}

fn block(hash: &str, prev: &str, height: i32, txs: Vec<Transaction>) -> Block {
    Block::from_parts(1, txs, prev.to_string(), hash.to_string(), height, 0)
}

#[test]
fn created_chain_is_one_mined_block() {
    let a = Wallet::new();
    let chain = Blockchain::create_blockchain(a.get_address()).unwrap();
    assert_eq!(chain.get_best_height(), Ok(0));
    let hashes = chain.get_block_hashes();
    assert_eq!(hashes.len(), 1);
    assert_eq!(chain.get_tip(), hashes[0]);
    let genesis = chain.get_block(&hashes[0]).unwrap();
    assert_eq!(genesis.get_height(), 0);
    assert_eq!(genesis.get_prev_hash(), "");
    assert_eq!(genesis.validate(), Ok(true));
    let txs = genesis.get_transactions();
    assert_eq!(txs.len(), 1);
    assert!(txs[0].is_coinbase());
    let mut memo = b"GENESIS_COINBASE".to_vec();
    memo.extend_from_slice(&[0u8; 32]);
    assert_eq!(txs[0].vin[0].pub_key, memo);
    assert_eq!(txs[0].vout[0].value, 10);
    assert_eq!(txs[0].vout[0].pub_key_hash, hash_of_pub_key(&a.public_key).unwrap());
}

#[test]
fn chain_for_no_address_is_corrupt() {
    assert_eq!(
        Blockchain::create_blockchain("nobody".to_string()).err(),
        Some(ChainError::Corrupt)
    );
}

#[test]
fn empty_chain_has_height_minus_one() {
    let chain = Blockchain::empty();
    assert_eq!(chain.get_best_height(), Ok(-1));
    assert_eq!(chain.get_block_hashes().len(), 0);
    assert_eq!(chain.get_tip(), "");
    assert_eq!(chain.find_transaction("x").err(), Some(ChainError::NotFound));
    assert_eq!(chain.find_UTXO().len(), 0);
    assert!(chain.iter().next().is_none());
}

#[test]
fn heights_fall_from_the_tip_to_zero() {
    let a = Wallet::new();
    let mut utxo = started(&a);
    send(&mut utxo, &a, &a.get_address(), 1).unwrap();
    send(&mut utxo, &a, &a.get_address(), 2).unwrap();
    let chain = utxo.blockchain.get_chain();
    let heights: Vec<i32> = chain.iter().map(|b| b.get_height()).collect();
    assert_eq!(heights, vec![2, 1, 0]);
    assert_eq!(chain[2].get_prev_hash(), "");
    assert_eq!(chain[0].get_prev_hash(), chain[1].get_hash());
    assert_eq!(chain[1].get_prev_hash(), chain[2].get_hash());
    assert_eq!(utxo.blockchain.get_best_height(), Ok(2));
    assert_eq!(utxo.blockchain.get_tip(), chain[0].get_hash());

    let mut cursor = utxo.blockchain.iter();
    let mut seen = Vec::new();
    while let Some(b) = cursor.next() {
        seen.push(b.get_hash());
    }
    assert_eq!(seen, utxo.blockchain.get_block_hashes());
    assert_eq!(seen.len(), 3);
    assert!(cursor.next().is_none());
}

#[test]
fn transactions_are_found_by_identifier() {
    let a = Wallet::new();
    let mut utxo = started(&a);
    let mined = send(&mut utxo, &a, &a.get_address(), 1).unwrap();
    let id = mined.get_transactions()[1].id.clone();
    assert_eq!(utxo.blockchain.find_transaction(&id).unwrap().id, id);
    assert_eq!(utxo.blockchain.find_transaction("none").err(), Some(ChainError::NotFound));
    assert_eq!(utxo.blockchain.get_block("none").err(), Some(ChainError::NotFound));
}

#[test]
fn chain_from_parts() {
    let g = block("g", "", 0, vec![]);
    let b = block("b", "g", 1, vec![]);
    let chain = Blockchain::new("b".to_string(), vec![g.clone(), b.clone()]).unwrap();
    assert_eq!(chain.get_best_height(), Ok(1));
    assert_eq!(chain.get_block_hashes(), vec!["b".to_string(), "g".to_string()]);
    assert_eq!(chain.get_blocks().len(), 2);

    let untipped = Blockchain::new(String::new(), vec![g.clone()]).unwrap();
    assert_eq!(untipped.get_best_height(), Ok(-1));
    assert_eq!(untipped.get_block_hashes().len(), 0);

    assert_eq!(
        Blockchain::new("x".to_string(), vec![g.clone()]).err(),
        Some(ChainError::Corrupt)
    );
    assert_eq!(
        Blockchain::new("g".to_string(), vec![g.clone(), g.clone()]).err(),
        Some(ChainError::Corrupt)
    );
}

#[test]
fn walk_ends_where_the_parent_is_missing_or_repeats() {
    let orphan = block("o", "nowhere", 5, vec![]);
    let chain = Blockchain::new("o".to_string(), vec![orphan]).unwrap();
    assert_eq!(chain.get_block_hashes(), vec!["o".to_string()]);

    let x = block("x", "y", 1, vec![]);
    let y = block("y", "x", 2, vec![]);
    let ring = Blockchain::new("x".to_string(), vec![x, y]).unwrap();
    assert_eq!(ring.get_block_hashes(), vec!["x".to_string(), "y".to_string()]);
}

#[test]
fn added_block_becomes_the_tip_where_it_is_higher() {
    let mut chain = Blockchain::empty();
    assert_eq!(chain.add_block(block("g", "", 0, vec![])), Ok(()));
    assert_eq!(chain.get_tip(), "g");
    assert_eq!(chain.add_block(block("b", "g", 1, vec![])), Ok(()));
    assert_eq!(chain.get_tip(), "b");
    assert_eq!(chain.add_block(block("c", "g", 1, vec![])), Ok(()));
    assert_eq!(chain.get_tip(), "b");
    assert_eq!(chain.get_blocks().len(), 3);
    assert_eq!(chain.add_block(block("b", "elsewhere", 9, vec![])), Ok(()));
    assert_eq!(chain.get_tip(), "b");
    assert_eq!(chain.get_blocks().len(), 3);
    assert_eq!(chain.get_block("b").unwrap().get_prev_hash(), "g");
    assert_eq!(chain.get_best_height(), Ok(1));

    let mut low = Blockchain::empty();
    low.add_block(block("n", "", -5, vec![])).unwrap();
    assert_eq!(low.get_tip(), "");
    assert_eq!(low.get_best_height(), Ok(-1));
}

#[test]
fn unspent_outputs_of_a_walk() {
    let spender = plain("s", vec![("c", 1), ("d", 0)], vec![out(4, 1), out(6, 2)]);
    let c = coinbase("c", vec![out(3, 3), out(7, 4), out(1, 5)]);
    let d = coinbase("d", vec![out(10, 6)]);
    let e = coinbase("e", vec![]);
    let walk = vec![&spender, &c, &d, &e];
    let found = sorted(&unspent_of(&walk));
    assert_eq!(
        found,
        vec![
            ("c".to_string(), vec![(0, 3, vec![3u8; 20]), (2, 1, vec![5u8; 20])]),
            ("s".to_string(), vec![(0, 4, vec![1u8; 20]), (1, 6, vec![2u8; 20])]),
        ]
    );
}

#[test]
fn output_is_spent_by_later_transactions_only() {
    let c = coinbase("c", vec![out(3, 3)]);
    let spender = plain("s", vec![("c", 0)], vec![out(3, 1)]);
    let latest_first = vec![&spender, &c];
    assert_eq!(
        sorted(&unspent_of(&latest_first)),
        vec![("s".to_string(), vec![(0, 3, vec![1u8; 20])])]
    );
    let earliest_first = vec![&c, &spender];
    assert_eq!(unspent_of(&earliest_first).len(), 2);
}

#[test]
fn coinbase_input_spends_nothing() {
    let odd = coinbase("k", vec![out(5, 1)]);
    let named = plain("", vec![], vec![out(2, 2)]);
    let walk = vec![&odd, &named];
    assert_eq!(
        sorted(&unspent_of(&walk)),
        vec![
            ("".to_string(), vec![(0, 2, vec![2u8; 20])]),
            ("k".to_string(), vec![(0, 5, vec![1u8; 20])])
        ]
    );
}

#[test]
fn outputs_under_one_identifier_are_joined() {
    let first = coinbase("same", vec![out(1, 1)]);
    let second = coinbase("same", vec![out(2, 2)]);
    let walk = vec![&first, &second];
    assert_eq!(
        sorted(&unspent_of(&walk)),
        vec![("same".to_string(), vec![(0, 1, vec![1u8; 20]), (0, 2, vec![2u8; 20])])]
    );
}

#[test]
fn entries_are_kept_one_for_each_key() {
    let mut entries: Vec<(String, UnspentOutputs)> = Vec::new();
    put_entry(&mut entries, "a".to_string(), all_of(vec![out(1, 1)]));
    put_entry(&mut entries, "b".to_string(), all_of(vec![out(2, 2)]));
    put_entry(&mut entries, "a".to_string(), all_of(vec![out(3, 3)]));
    assert_eq!(entries.len(), 2);
    assert_eq!(find_entry(&entries, "a"), Some(0));
    assert_eq!(find_entry(&entries, "b"), Some(1));
    assert_eq!(find_entry(&entries, "c"), None);
    assert_eq!(entries[0].1.outputs[0].output.value, 3);
    drop_entry(&mut entries, "c");
    assert_eq!(entries.len(), 2);
    drop_entry(&mut entries, "a");
    assert_eq!(entries.len(), 1);
    assert_eq!(entries[0].0, "b");
    assert_eq!(clone_entries(&entries).len(), 1);

    let store = UtxoStore::from_entries(clone_entries(&entries)).unwrap();
    assert_eq!(store.len(), 1);
    assert_eq!(store.get("b").unwrap().outputs[0].output.value, 2);
    assert!(store.get("a").is_none());
    let twice = vec![
        ("a".to_string(), all_of(vec![])),
        ("a".to_string(), all_of(vec![])),
    ];
    assert_eq!(UtxoStore::from_entries(twice).err(), Some(ChainError::Corrupt));
}

#[test]
fn balance_after_creation_is_the_subsidy() {
    let a = Wallet::new();
    let utxo = started(&a);
    assert_eq!(utxo.get_balance(&a.get_address()), Ok(10));
    assert_eq!(utxo.count_transactions(), Ok(1));
    assert_eq!(utxo.get_balance(&Wallet::new().get_address()), Ok(0));
    assert_eq!(utxo.get_balance("nobody"), Err(ChainError::Corrupt));
}

#[test]
fn payment_moves_value_and_leaves_change() {
    let a = Wallet::new();
    let b = Wallet::new();
    let mut utxo = started(&a);
    let mined = send(&mut utxo, &a, &b.get_address(), 4).unwrap();
    assert_eq!(utxo.get_balance(&a.get_address()), Ok(16));
    assert_eq!(utxo.get_balance(&b.get_address()), Ok(4));
    assert_eq!(utxo.blockchain.get_best_height(), Ok(1));
    assert_eq!(mined.get_height(), 1);
    assert_eq!(mined.validate(), Ok(true));

    let payment = &mined.get_transactions()[1];
    assert_eq!(payment.vin.len(), 1);
    assert_eq!(payment.vin[0].vout, 0);
    assert_eq!(payment.vin[0].pub_key, a.public_key);
    assert_eq!(payment.vout.len(), 2);
    assert_eq!(payment.vout[0].value, 4);
    assert_eq!(payment.vout[0].pub_key_hash, hash_of_pub_key(&b.public_key).unwrap());
    assert_eq!(payment.vout[1].value, 6);
    assert_eq!(payment.vout[1].pub_key_hash, hash_of_pub_key(&a.public_key).unwrap());
    let mut unsigned = payment.clone();
    unsigned.vin[0].signature.clear();
    assert_eq!(payment.id, unsigned.hash().unwrap());
    assert_ne!(payment.id, payment.hash().unwrap());
    assert_eq!(payment.vin[0].signature.len(), 64);
    assert_eq!(utxo.blockchain.verify_transaction(payment), Ok(true));
}

#[test]
fn payment_beyond_the_balance_is_refused() {
    let a = Wallet::new();
    let mut utxo = started(&a);
    assert_eq!(
        send(&mut utxo, &a, &a.get_address(), 11).err(),
        Some(ChainError::InsufficientFunds)
    );
    assert_eq!(utxo.get_balance(&a.get_address()), Ok(10));
    assert_eq!(utxo.blockchain.get_best_height(), Ok(0));
}

#[test]
fn payment_of_the_whole_balance_leaves_no_change() {
    let a = Wallet::new();
    let b = Wallet::new();
    let utxo = started(&a);
    let tx = Transaction::new_UTXO(&a, &b.get_address(), 10, &utxo).unwrap();
    assert_eq!(tx.vout.len(), 1);
    assert_eq!(tx.vout[0].value, 10);
}

#[test]
fn payment_to_no_address_or_from_bad_keys_is_corrupt() {
    let a = Wallet::new();
    let utxo = started(&a);
    assert_eq!(Transaction::new_UTXO(&a, "nobody", 4, &utxo).err(), Some(ChainError::Corrupt));
    let short = Wallet { secret_key: vec![1, 2, 3], public_key: a.public_key.clone() };
    assert_eq!(
        Transaction::new_UTXO(&short, &a.get_address(), 4, &utxo).err(),
        Some(ChainError::Corrupt)
    );
}

#[test]
fn index_after_update_is_the_index_after_reindex() {
    let a = Wallet::new();
    let b = Wallet::new();
    let mut utxo = started(&a);
    send(&mut utxo, &a, &b.get_address(), 4).unwrap();
    let updated = sorted(utxo.utxos.entries());
    assert_eq!(utxo.count_transactions(), Ok(2));
    utxo.reindex().unwrap();
    assert_eq!(sorted(utxo.utxos.entries()), updated);
    assert_eq!(sorted(&utxo.blockchain.find_UTXO()), updated);
    assert_eq!(utxo.get_balance(&a.get_address()), Ok(16));
    assert_eq!(utxo.get_balance(&b.get_address()), Ok(4));
}

#[test]
fn unspent_value_is_what_coinbases_made() {
    let a = Wallet::new();
    let b = Wallet::new();
    let mut utxo = started(&a);
    send(&mut utxo, &a, &b.get_address(), 4).unwrap();
    send(&mut utxo, &a, &b.get_address(), 3).unwrap();
    utxo.reindex().unwrap();
    assert_eq!(total(utxo.utxos.entries()), 30);
    let chain = utxo.blockchain.get_chain();
    let mut made: i64 = 0;
    let mut paid: i64 = 0;
    let mut spent: i64 = 0;
    for block in &chain {
        for tx in block.get_transactions() {
            let sum: i64 = tx.vout.iter().map(|o| o.value as i64).sum();
            if tx.is_coinbase() {
                made += sum;
            } else {
                paid += sum;
                for input in &tx.vin {
                    let prev = utxo.blockchain.find_transaction(&input.txid).unwrap();
                    spent += prev.vout[input.vout as usize].value as i64;
                }
            }
        }
    }
    assert_eq!(made, 30);
    assert_eq!(total(utxo.utxos.entries()), made + paid - spent);
}

#[test]
fn spendable_outputs_are_chosen_until_the_amount_is_reached() {
    let store = UtxoStore::from_entries(vec![
        ("a".to_string(), all_of(vec![out(3, 1), out(5, 2), out(4, 1)])),
        ("b".to_string(), all_of(vec![out(9, 2)])),
        ("c".to_string(), all_of(vec![out(2, 1), out(8, 1)])),
    ])
    .unwrap();
    let utxo = UTXOSet { blockchain: Blockchain::empty(), utxos: store };
    let lock = vec![1u8; 20];
    assert_eq!(
        utxo.find_spendable_outputs(&lock, 8),
        Ok((9, vec![("a".to_string(), vec![0, 2]), ("c".to_string(), vec![0])]))
    );
    assert_eq!(utxo.find_spendable_outputs(&lock, 3), Ok((3, vec![("a".to_string(), vec![0])])));
    assert_eq!(
        utxo.find_spendable_outputs(&lock, 100),
        Ok((17, vec![("a".to_string(), vec![0, 2]), ("c".to_string(), vec![0, 1])]))
    );
    assert_eq!(utxo.find_spendable_outputs(&lock, 0), Ok((0, vec![])));
    assert_eq!(utxo.find_spendable_outputs(&[7u8; 20], 5), Ok((0, vec![])));
    let mine = utxo.find_UTXO(&lock).unwrap();
    let values: Vec<i32> = mine.outputs.iter().map(|o| o.value).collect();
    assert_eq!(values, vec![3, 4, 2, 8]);
    assert_eq!(utxo.find_UTXO(&[7u8; 20]).unwrap().outputs.len(), 0);
    assert_eq!(utxo.count_transactions(), Ok(3));
}

#[test]
fn total_beyond_the_range_is_corrupt() {
    let store = UtxoStore::from_entries(vec![(
        "a".to_string(),
        all_of(vec![out(i32::MAX, 1), out(1, 1)]),
    )])
    .unwrap();
    let utxo = UTXOSet { blockchain: Blockchain::empty(), utxos: store };
    let lock = vec![1u8; 20];
    assert_eq!(utxo.find_spendable_outputs(&lock, i32::MAX), Ok((i32::MAX, vec![("a".to_string(), vec![0])])));
    let store = UtxoStore::from_entries(vec![(
        "a".to_string(),
        all_of(vec![out(i32::MAX - 1, 1), out(2, 1)]),
    )])
    .unwrap();
    let utxo = UTXOSet { blockchain: Blockchain::empty(), utxos: store };
    assert_eq!(utxo.find_spendable_outputs(&lock, i32::MAX), Err(ChainError::Corrupt));
    let address = blockchain_rust::primitives::address_encode(&lock);
    assert_eq!(utxo.get_balance(&address), Err(ChainError::Corrupt));
}

#[test]
fn update_spends_by_number_and_enters_outputs() {
    let store = UtxoStore::from_entries(vec![
        ("a".to_string(), all_of(vec![out(3, 1), out(5, 2), out(4, 1)])),
        ("b".to_string(), all_of(vec![out(9, 2)])),
    ])
    .unwrap();
    let mut utxo = UTXOSet { blockchain: Blockchain::empty(), utxos: store };
    let spender = plain("s", vec![("a", 1), ("b", 0), ("a", 7)], vec![out(14, 3)]);
    let reward = coinbase("r", vec![out(10, 4)]);
    utxo.update(&block("h", "", 1, vec![reward, spender])).unwrap();
    assert_eq!(
        sorted(utxo.utxos.entries()),
        vec![
            ("a".to_string(), vec![(0, 3, vec![1u8; 20]), (2, 4, vec![1u8; 20])]),
            ("r".to_string(), vec![(0, 10, vec![4u8; 20])]),
            ("s".to_string(), vec![(0, 14, vec![3u8; 20])]),
        ]
    );
    let next = plain("n", vec![("a", 2)], vec![out(4, 5)]);
    utxo.update(&block("i", "h", 2, vec![next])).unwrap();
    assert_eq!(
        sorted(utxo.utxos.entries()),
        vec![
            ("a".to_string(), vec![(0, 3, vec![1u8; 20])]),
            ("n".to_string(), vec![(0, 4, vec![5u8; 20])]),
            ("r".to_string(), vec![(0, 10, vec![4u8; 20])]),
            ("s".to_string(), vec![(0, 14, vec![3u8; 20])]),
        ]
    );
    let last = plain("l", vec![("a", 0)], vec![out(3, 6)]);
    utxo.update(&block("j", "i", 3, vec![last])).unwrap();
    assert!(utxo.utxos.get("a").is_none());
}

#[test]
fn spent_output_is_named_by_its_number_in_the_transaction() {
    let store = UtxoStore::from_entries(vec![(
        "t".to_string(),
        some_of(vec![(1, out(6, 1))]),
    )])
    .unwrap();
    let mut utxo = UTXOSet { blockchain: Blockchain::empty(), utxos: store };
    assert_eq!(
        utxo.find_spendable_outputs(&[1u8; 20], 6),
        Ok((6, vec![("t".to_string(), vec![1])]))
    );
    let spender = plain("s", vec![("t", 0)], vec![out(1, 3)]);
    utxo.update(&block("h", "", 1, vec![spender])).unwrap();
    assert_eq!(utxo.utxos.get("t").unwrap().outputs.len(), 1);
    let spender = plain("u", vec![("t", 1)], vec![out(6, 3)]);
    utxo.update(&block("i", "h", 2, vec![spender])).unwrap();
    assert!(utxo.utxos.get("t").is_none());
}

#[test]
fn payment_refers_to_the_unspent_output_by_its_number() {
    let a = Wallet::new();
    let lock = hash_of_pub_key(&a.public_key).unwrap();
    let funding = coinbase(
        "funding",
        vec![out(3, 9), TXOutput { value: 6, pub_key_hash: lock.clone() }],
    );
    let other = plain("other", vec![("funding", 0)], vec![out(3, 8)]);
    let chain = Blockchain::new(
        "b".to_string(),
        vec![block("g", "", 0, vec![funding]), block("b", "g", 1, vec![other])],
    )
    .unwrap();
    let mut utxo = UTXOSet::new(chain);
    utxo.reindex().unwrap();
    assert_eq!(
        sorted(utxo.utxos.entries()),
        vec![
            ("funding".to_string(), vec![(1, 6, lock.clone())]),
            ("other".to_string(), vec![(0, 3, vec![8u8; 20])]),
        ]
    );
    assert_eq!(
        utxo.find_spendable_outputs(&lock, 6),
        Ok((6, vec![("funding".to_string(), vec![1])]))
    );
    let to = blockchain_rust::primitives::address_encode(&[5u8; 20]);
    let tx = Transaction::new_UTXO(&a, &to, 6, &utxo).unwrap();
    assert_eq!(tx.vin.len(), 1);
    assert_eq!(tx.vin[0].txid, "funding");
    assert_eq!(tx.vin[0].vout, 1);
    assert_eq!(tx.vout.len(), 1);
    assert_eq!(tx.vout[0].value, 6);
    assert_eq!(utxo.blockchain.verify_transaction(&tx), Ok(true));

    let mined = utxo.blockchain.mine_block(vec![tx]).unwrap();
    utxo.update(&mined).unwrap();
    let updated = sorted(utxo.utxos.entries());
    assert!(utxo.utxos.get("funding").is_none());
    utxo.reindex().unwrap();
    assert_eq!(sorted(utxo.utxos.entries()), updated);
    assert_eq!(utxo.get_balance(&a.get_address()), Ok(0));
    assert_eq!(utxo.get_balance(&to), Ok(6));
}

#[test]
fn output_spent_later_in_its_block_is_spent() {
    let c0 = coinbase("c0", vec![out(10, 1)]);
    let genesis = block("g", "", 0, vec![c0]);
    let mut utxo = UTXOSet::new(Blockchain::new("g".to_string(), vec![genesis.clone()]).unwrap());
    utxo.reindex().unwrap();
    let r1 = coinbase("r1", vec![out(10, 1)]);
    let t1 = plain("t1", vec![("c0", 0)], vec![out(4, 2), out(6, 1)]);
    let t2 = plain("t2", vec![("t1", 1)], vec![out(6, 3)]);
    let next = block("b", "g", 1, vec![r1, t1, t2]);
    utxo.update(&next).unwrap();
    let updated = sorted(utxo.utxos.entries());
    assert_eq!(
        updated,
        vec![
            ("r1".to_string(), vec![(0, 10, vec![1u8; 20])]),
            ("t1".to_string(), vec![(0, 4, vec![2u8; 20])]),
            ("t2".to_string(), vec![(0, 6, vec![3u8; 20])]),
        ]
    );
    utxo.blockchain = Blockchain::new("b".to_string(), vec![genesis, next]).unwrap();
    utxo.reindex().unwrap();
    assert_eq!(sorted(utxo.utxos.entries()), updated);
    assert_eq!(sorted(&utxo.blockchain.find_UTXO()), updated);
}

#[test]
fn repeated_identifier_makes_update_and_reindex_differ() {
    let x = coinbase("x", vec![out(5, 1)]);
    let genesis = block("g", "", 0, vec![x]);
    let mut utxo = UTXOSet::new(Blockchain::new("g".to_string(), vec![genesis.clone()]).unwrap());
    utxo.reindex().unwrap();
    let again = coinbase("x", vec![out(7, 2)]);
    let next = block("b", "g", 1, vec![again]);
    utxo.update(&next).unwrap();
    assert_eq!(
        sorted(utxo.utxos.entries()),
        vec![("x".to_string(), vec![(0, 7, vec![2u8; 20])])]
    );
    utxo.blockchain = Blockchain::new("b".to_string(), vec![genesis, next]).unwrap();
    utxo.reindex().unwrap();
    assert_eq!(
        sorted(utxo.utxos.entries()),
        vec![("x".to_string(), vec![(0, 7, vec![2u8; 20]), (0, 5, vec![1u8; 20])])]
    );
}

#[test]
fn update_with_an_unknown_input_changes_nothing() {
    let store = UtxoStore::from_entries(vec![(
        "a".to_string(),
        all_of(vec![out(3, 1)]),
    )])
    .unwrap();
    let mut utxo = UTXOSet { blockchain: Blockchain::empty(), utxos: store };
    let spender = plain("s", vec![("a", 0), ("a", 0)], vec![out(3, 3)]);
    assert_eq!(utxo.update(&block("h", "", 1, vec![spender])), Err(ChainError::NotFound));
    assert_eq!(
        sorted(utxo.utxos.entries()),
        vec![("a".to_string(), vec![(0, 3, vec![1u8; 20])])]
    );
}

#[test]
fn equal_coinbases_share_one_entry() {
    let a = Wallet::new();
    let b = Wallet::new();
    let mut utxo = started(&a);
    for amount in [4, 3] {
        let tx = Transaction::new_UTXO(&a, &b.get_address(), amount, &utxo).unwrap();
        let cbtx = Transaction::new_coinbase(a.get_address(), "Reward".to_string()).unwrap();
        let mined = utxo.blockchain.mine_block(vec![cbtx, tx]).unwrap();
        utxo.update(&mined).unwrap();
    }
    assert_eq!(utxo.get_balance(&a.get_address()), Ok(13));
    utxo.reindex().unwrap();
    assert_eq!(utxo.get_balance(&a.get_address()), Ok(13));
}

#[test]
fn mining_refuses_what_does_not_verify() {
    let a = Wallet::new();
    let b = Wallet::new();
    let mut utxo = started(&a);
    let mut tx = Transaction::new_UTXO(&a, &b.get_address(), 4, &utxo).unwrap();
    tx.vout[0].value = 5;
    assert_eq!(utxo.blockchain.verify_transaction(&tx), Ok(false));
    assert_eq!(utxo.blockchain.mine_block(vec![tx]).err(), Some(ChainError::InvalidTx));
    assert_eq!(utxo.blockchain.get_best_height(), Ok(0));

    let stray = plain("s", vec![("unknown", 0)], vec![out(1, 1)]);
    assert_eq!(utxo.blockchain.verify_transaction(&stray), Err(ChainError::NotFound));
    assert_eq!(utxo.blockchain.mine_block(vec![stray]).err(), Some(ChainError::NotFound));
    assert_eq!(utxo.blockchain.get_blocks().len(), 1);
}

#[test]
fn chain_signs_against_the_transactions_it_holds() {
    let a = Wallet::new();
    let utxo = started(&a);
    let genesis = utxo.blockchain.get_chain().remove(0);
    let funding = genesis.get_transactions()[0].id.clone();
    let mut tx = Transaction {
        id: String::new(),
        vin: vec![TXInput {
            txid: funding.clone(),
            vout: 0,
            signature: vec![],
            pub_key: a.public_key.clone(),
        }],
        vout: vec![out(10, 9)],
    };
    assert_eq!(utxo.blockchain.get_prev_tx_map(&tx).unwrap()[0].id, funding);
    assert_eq!(utxo.blockchain.sign_transaction(&mut tx, &a.secret_key), Ok(()));
    assert_eq!(utxo.blockchain.verify_transaction(&tx), Ok(true));

    let mut stray = plain("s", vec![("unknown", 0)], vec![out(1, 1)]);
    assert_eq!(
        utxo.blockchain.sign_transaction(&mut stray, &a.secret_key),
        Err(ChainError::NotFound)
    );
    assert_eq!(utxo.blockchain.get_prev_tx_map(&stray).err(), Some(ChainError::NotFound));

    let mut reward = Transaction::new_coinbase(a.get_address(), "m".to_string()).unwrap();
    assert_eq!(utxo.blockchain.verify_transaction(&reward), Ok(true));
    assert_eq!(utxo.blockchain.sign_transaction(&mut reward, &a.secret_key), Ok(()));
    assert!(reward.vin[0].signature.is_empty());
}

#[test]
fn block_without_a_hash_never_becomes_the_tip() {
    let mut chain = Blockchain::empty();
    chain.add_block(block("g", "", 0, vec![])).unwrap();
    chain.add_block(block("", "g", 7, vec![])).unwrap();
    assert_eq!(chain.get_tip(), "g");
    assert_eq!(chain.get_best_height(), Ok(0));
    assert_eq!(chain.get_blocks().len(), 2);
    let mut fresh = Blockchain::empty();
    fresh.add_block(block("", "", 3, vec![])).unwrap();
    assert_eq!(fresh.get_tip(), "");
    assert_eq!(fresh.get_best_height(), Ok(-1));
}

#[test]
fn transaction_may_spend_several_outputs_of_one_transaction() {
    let c0 = coinbase("c0", vec![out(4, 1), out(6, 1), out(1, 2)]);
    let genesis = block("g", "", 0, vec![c0]);
    let mut utxo = UTXOSet::new(Blockchain::new("g".to_string(), vec![genesis.clone()]).unwrap());
    utxo.reindex().unwrap();
    assert_eq!(
        utxo.find_spendable_outputs(&[1u8; 20], 10),
        Ok((10, vec![("c0".to_string(), vec![0, 1])]))
    );
    let t = plain("t", vec![("c0", 1), ("c0", 0)], vec![out(10, 3)]);
    let next = block("b", "g", 1, vec![t]);
    utxo.update(&next).unwrap();
    let updated = sorted(utxo.utxos.entries());
    assert_eq!(
        updated,
        vec![
            ("c0".to_string(), vec![(2, 1, vec![2u8; 20])]),
            ("t".to_string(), vec![(0, 10, vec![3u8; 20])]),
        ]
    );
    utxo.blockchain = Blockchain::new("b".to_string(), vec![genesis, next]).unwrap();
    utxo.reindex().unwrap();
    assert_eq!(sorted(utxo.utxos.entries()), updated);
}
