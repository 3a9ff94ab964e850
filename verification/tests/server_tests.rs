use blockchain_rust::block::Block;
use blockchain_rust::blockchain::Blockchain;
use blockchain_rust::error::ChainError;
use blockchain_rust::server::{
    bytes_to_cmd, clone_strings, cmd_to_bytes, contains_text, frame_message, split_message,
    BlockMsg, Command, GetBlocksMsg, GetDataMsg, InviteMsg, Message, Outgoing, Server,
    TransactionMsg, VersionMsg,
};
use blockchain_rust::transaction::{TXInput, TXOutput, Transaction};
use blockchain_rust::utxoset::UTXOSet;
use blockchain_rust::wallets::Wallet;

const SEED: &str = "localhost: 3000";

fn block(hash: &str, prev: &str, height: i32) -> Block {
    Block::from_parts(1, Vec::new(), prev.to_string(), hash.to_string(), height, 0)
}

fn node(port: &str, miner: &str, chain: Blockchain) -> Server {
    let mut utxo = UTXOSet::new(chain);
    utxo.reindex().unwrap();
    Server::new(port, miner, utxo).unwrap()
}

fn two_blocks() -> Blockchain {
    Blockchain::new("b".to_string(), vec![block("g", "", 0), block("b", "g", 1)]).unwrap()
}

fn named(id: &str) -> Transaction {
    Transaction {
        id: id.to_string(),
        vin: vec![TXInput { txid: "p".to_string(), vout: 0, signature: vec![], pub_key: vec![] }],
        vout: vec![TXOutput { value: 1, pub_key_hash: vec![1; 20] }],
    }
}

fn only(out: &Vec<Outgoing>) -> &Outgoing {
    assert_eq!(out.len(), 1);
    &out[0]
}

#[test]
fn command_tag_is_the_name_padded_with_zeros() {
    assert_eq!(cmd_to_bytes("version"), [b'v', b'e', b'r', b's', b'i', b'o', b'n', 0, 0, 0, 0, 0]);
    assert_eq!(cmd_to_bytes("tx"), [b't', b'x', 0, 0, 0, 0, 0, 0, 0, 0, 0, 0]);
    assert_eq!(cmd_to_bytes(""), [0u8; 12]);
    assert_eq!(cmd_to_bytes("abcdefghijkl"), *b"abcdefghijkl");
}

#[test]
fn command_name_is_the_tag_without_the_zeros_at_its_end() {
    assert_eq!(bytes_to_cmd(&cmd_to_bytes("version")), Ok("version".to_string()));
    assert_eq!(bytes_to_cmd(&cmd_to_bytes("getblocks")), Ok("getblocks".to_string()));
    assert_eq!(bytes_to_cmd(&[0u8; 12]), Ok(String::new()));
    assert_eq!(bytes_to_cmd(b"abcdefghijkl"), Ok("abcdefghijkl".to_string()));
    assert_eq!(
        bytes_to_cmd(&[b'a', 0, b'b', 0, 0, 0, 0, 0, 0, 0, 0, 0]),
        Ok("a\0b".to_string())
    );
    assert_eq!(
        bytes_to_cmd(&[0xff, b'x', 0, 0, 0, 0, 0, 0, 0, 0, 0, 0]),
        Err(ChainError::BadUtf8)
    );
}

#[test]
fn commands_have_their_names() {
    let all = [
        (Command::Addr, "addr"),
        (Command::Block, "block"),
        (Command::Inv, "inv"),
        (Command::GetBlocks, "getblocks"),
        (Command::GetData, "getdata"),
        (Command::Tx, "tx"),
        (Command::Version, "version"),
    ];
    for (command, name) in all {
        assert_eq!(command.name(), name);
        assert_eq!(Command::from_name(name), Some(command));
    }
    assert_eq!(Command::from_name("ping"), None);
    assert_eq!(Command::from_name(""), None);
    assert_eq!(Message::Address(vec![]).command(), Command::Addr);
    assert_eq!(
        Message::GetBlocks(GetBlocksMsg { address_from: String::new() }).command(),
        Command::GetBlocks
    );
}

#[test]
fn message_splits_into_command_and_payload() {
    let bytes = frame_message(Command::GetData, &[1, 2, 3]);
    assert_eq!(bytes.len(), 15);
    assert_eq!(&bytes[..12], &cmd_to_bytes("getdata"));
    assert_eq!(split_message(&bytes), Ok((Command::GetData, vec![1, 2, 3])));
    assert_eq!(split_message(&frame_message(Command::Tx, &[])), Ok((Command::Tx, vec![])));
    for command in [
        Command::Addr,
        Command::Block,
        Command::Inv,
        Command::GetBlocks,
        Command::GetData,
        Command::Tx,
        Command::Version,
    ] {
        assert_eq!(split_message(&frame_message(command, &[9, 0])), Ok((command, vec![9, 0])));
    }
}

#[test]
fn message_that_cannot_be_split() {
    assert_eq!(split_message(&[1, 2, 3]), Err(ChainError::Corrupt));
    assert_eq!(split_message(&[]), Err(ChainError::Corrupt));
    assert_eq!(split_message(b"ping\0\0\0\0\0\0\0\0rest"), Err(ChainError::Corrupt));
    assert_eq!(split_message(&[0u8; 12]), Err(ChainError::Corrupt));
    let mut bad = vec![0xffu8];
    bad.extend_from_slice(&[0u8; 11]);
    assert_eq!(split_message(&bad), Err(ChainError::BadUtf8));
}

#[test]
fn text_lists() {
    let texts = vec!["a".to_string(), "b".to_string()];
    assert!(contains_text(&texts, "b"));
    assert!(!contains_text(&texts, "c"));
    assert_eq!(clone_strings(&texts), texts);
}

#[test]
fn new_node_knows_the_seed() {
    let server = node("3001", "miner", two_blocks());
    assert_eq!(server.get_node_address(), "localhost:3001");
    assert_eq!(server.get_mining_address(), "miner");
    assert_eq!(server.get_known_nodes(), vec![SEED.to_string()]);
    assert!(server.node_is_known(SEED));
    assert!(!server.node_is_known("localhost:3001"));
    assert_eq!(server.get_in_transit().len(), 0);
    assert_eq!(server.get_mempool().len(), 0);
    assert_eq!(server.get_best_height(), Ok(1));
    assert_eq!(server.get_block_hashes(), vec!["b".to_string(), "g".to_string()]);
    assert_eq!(server.get_block("g").unwrap().get_height(), 0);
    assert_eq!(server.get_block("x").err(), Some(ChainError::NotFound));
    assert_eq!(server.get_utxo().blockchain.get_tip(), "b");
}

#[test]
fn node_with_a_chain_starts_with_its_version() {
    let server = node("3001", "", two_blocks());
    let out = server.bootstrap();
    let first = only(&out);
    assert_eq!(first.to, SEED);
    match &first.message {
        Message::Version(m) => {
            assert_eq!(m.address_from, "localhost:3001");
            assert_eq!(m.version, 1);
            assert_eq!(m.best_height, 1);
        }
        other => panic!("{:?}", other),
    }
}

#[test]
fn node_without_a_chain_starts_by_asking_for_blocks() {
    let mut server = node("3001", "", Blockchain::empty());
    server.add_nodes("localhost:3002");
    server.add_nodes("localhost:3001");
    let out = server.bootstrap();
    assert_eq!(out.len(), 2);
    assert_eq!(out[0].to, SEED);
    assert_eq!(out[1].to, "localhost:3002");
    for o in &out {
        match &o.message {
            Message::GetBlocks(m) => assert_eq!(m.address_from, "localhost:3001"),
            other => panic!("{:?}", other),
        }
    }
}

#[test]
fn nothing_is_sent_to_the_node_itself() {
    let server = node("3001", "", two_blocks());
    let mut out = Vec::new();
    server.send_get_blocks(&mut out, "localhost:3001");
    server.send_version(&mut out, "localhost:3001");
    server.send_addr(&mut out, "localhost:3001");
    server.send_inv(&mut out, "localhost:3001", "block", vec![]);
    server.send_get_data(&mut out, "localhost:3001", "tx", "x");
    server.send_block(&mut out, "localhost:3001", &block("g", "", 0));
    server.send_tx(&mut out, "localhost:3001", &named("t"));
    assert_eq!(out.len(), 0);
    server.send_tx(&mut out, "localhost:3002", &named("t"));
    server.send_data(&mut out, "localhost:3003", Message::Address(vec![]));
    assert_eq!(out.len(), 2);
    assert_eq!(out[0].to, "localhost:3002");
    match &out[0].message {
        Message::Transaction(m) => {
            assert_eq!(m.address_from, "localhost:3001");
            assert_eq!(m.transaction.id, "t");
        }
        other => panic!("{:?}", other),
    }
    assert_eq!(out[1].to, "localhost:3003");
}

#[test]
fn peers_are_learnt_once_and_forgotten() {
    let mut server = node("3001", "", two_blocks());
    server.add_nodes("localhost:3002");
    server.add_nodes("localhost:3002");
    assert_eq!(server.get_known_nodes(), vec![SEED.to_string(), "localhost:3002".to_string()]);
    let out = server
        .handle_address(vec!["localhost:3003".to_string(), SEED.to_string()])
        .unwrap();
    assert_eq!(out.len(), 0);
    assert_eq!(server.get_known_nodes().len(), 3);
    assert_eq!(server.remove_node(SEED), Ok(()));
    assert_eq!(
        server.get_known_nodes(),
        vec!["localhost:3002".to_string(), "localhost:3003".to_string()]
    );
    assert_eq!(server.remove_node("nobody"), Ok(()));
    assert_eq!(server.get_known_nodes().len(), 2);
}

#[test]
fn version_of_a_peer_ahead_is_answered_with_a_request_for_blocks() {
    let mut server = node("3001", "", two_blocks());
    let out = server
        .handle_version(VersionMsg {
            address_from: "localhost:3002".to_string(),
            version: 1,
            best_height: 5,
        })
        .unwrap();
    assert_eq!(out.len(), 2);
    assert_eq!(out[0].to, "localhost:3002");
    assert!(matches!(&out[0].message, Message::GetBlocks(m) if m.address_from == "localhost:3001"));
    assert_eq!(out[1].to, "localhost:3002");
    assert!(matches!(&out[1].message, Message::Address(nodes) if nodes == &vec![SEED.to_string()]));
    assert!(server.node_is_known("localhost:3002"));
}

#[test]
fn version_of_a_peer_behind_is_answered_with_the_own_version() {
    let mut server = node("3001", "", two_blocks());
    let out = server
        .handle_version(VersionMsg {
            address_from: "localhost:3002".to_string(),
            version: 1,
            best_height: 0,
        })
        .unwrap();
    assert_eq!(out.len(), 2);
    assert!(matches!(&out[0].message, Message::Version(m) if m.best_height == 1 && m.version == 1));
    assert!(matches!(&out[1].message, Message::Address(_)));
}

#[test]
fn version_of_a_peer_level_is_answered_with_the_peers_only() {
    let mut server = node("3001", "", two_blocks());
    let out = server
        .handle_version(VersionMsg {
            address_from: "localhost:3002".to_string(),
            version: 1,
            best_height: 1,
        })
        .unwrap();
    assert!(matches!(&only(&out).message, Message::Address(_)));
}

#[test]
fn request_for_blocks_is_answered_with_their_hashes() {
    let mut server = node("3001", "", two_blocks());
    let out = server
        .handle_get_blocks(GetBlocksMsg { address_from: "localhost:3002".to_string() })
        .unwrap();
    let first = only(&out);
    assert_eq!(first.to, "localhost:3002");
    match &first.message {
        Message::Invite(m) => {
            assert_eq!(m.address_from, "localhost:3001");
            assert_eq!(m.kind, "block");
            assert_eq!(m.items, vec!["b".to_string(), "g".to_string()]);
        }
        other => panic!("{:?}", other),
    }
}

#[test]
fn announced_blocks_are_asked_for_one_by_one() {
    let mut server = node("3001", "", Blockchain::empty());
    let out = server
        .handle_invite(InviteMsg {
            address_from: "localhost:3002".to_string(),
            kind: "block".to_string(),
            items: vec!["b".to_string(), "g".to_string(), "b".to_string()],
        })
        .unwrap();
    match &only(&out).message {
        Message::GetData(m) => {
            assert_eq!(m.address_from, "localhost:3001");
            assert_eq!(m.kind, "block");
            assert_eq!(m.id, "b");
        }
        other => panic!("{:?}", other),
    }
    assert_eq!(server.get_in_transit(), vec!["g".to_string()]);

    let out = server
        .handle_block(BlockMsg { address_from: "localhost:3002".to_string(), block: block("b", "g", 1) })
        .unwrap();
    assert!(matches!(&only(&out).message, Message::GetData(m) if m.id == "g" && m.kind == "block"));
    assert_eq!(server.get_in_transit().len(), 0);
    assert_eq!(server.get_best_height(), Ok(1));

    let out = server
        .handle_block(BlockMsg { address_from: "localhost:3002".to_string(), block: block("g", "", 0) })
        .unwrap();
    assert_eq!(out.len(), 0);
    assert_eq!(server.get_block_hashes(), vec!["b".to_string(), "g".to_string()]);
}

#[test]
fn announced_transaction_is_asked_for_unless_it_waits() {
    let mut server = node("3001", "", two_blocks());
    let invite = |id: &str| InviteMsg {
        address_from: "localhost:3002".to_string(),
        kind: "tx".to_string(),
        items: vec![id.to_string()],
    };
    let out = server.handle_invite(invite("t")).unwrap();
    assert!(matches!(&only(&out).message, Message::GetData(m) if m.id == "t" && m.kind == "tx"));
    server.insert_mempool(named("t"));
    assert_eq!(server.handle_invite(invite("t")).unwrap().len(), 0);
    server.insert_mempool(named(""));
    assert_eq!(server.handle_invite(invite("")).unwrap().len(), 1);
}

#[test]
fn announcement_of_nothing_is_corrupt() {
    let mut server = node("3001", "", two_blocks());
    let empty = |kind: &str| InviteMsg {
        address_from: "localhost:3002".to_string(),
        kind: kind.to_string(),
        items: vec![],
    };
    assert_eq!(server.handle_invite(empty("block")).err(), Some(ChainError::Corrupt));
    assert_eq!(server.handle_invite(empty("tx")).err(), Some(ChainError::Corrupt));
    assert_eq!(server.handle_invite(empty("other")).unwrap().len(), 0);
}

#[test]
fn requested_data_is_sent() {
    let mut server = node("3001", "", two_blocks());
    server.insert_mempool(named("t"));
    let ask = |kind: &str, id: &str| GetDataMsg {
        address_from: "localhost:3002".to_string(),
        kind: kind.to_string(),
        id: id.to_string(),
    };
    let out = server.handle_get_data(ask("block", "g")).unwrap();
    assert!(matches!(&only(&out).message, Message::Block(m) if m.block.get_hash() == "g"));
    let out = server.handle_get_data(ask("tx", "t")).unwrap();
    assert!(matches!(&only(&out).message, Message::Transaction(m) if m.transaction.id == "t"));
    assert_eq!(server.handle_get_data(ask("block", "x")).err(), Some(ChainError::NotFound));
    assert_eq!(server.handle_get_data(ask("tx", "x")).err(), Some(ChainError::NotFound));
    assert_eq!(server.handle_get_data(ask("other", "g")).unwrap().len(), 0);
}

#[test]
fn waiting_transactions_are_kept_by_identifier() {
    let mut server = node("3001", "", two_blocks());
    server.insert_mempool(named("t"));
    server.insert_mempool(named("u"));
    let mut again = named("t");
    again.vout[0].value = 2;
    server.insert_mempool(again);
    assert_eq!(server.get_mempool().len(), 2);
    assert_eq!(server.get_mempool_tx("t").unwrap().vout[0].value, 2);
    assert!(server.get_mempool_tx("x").is_none());
    server.clear_mempool();
    assert_eq!(server.get_mempool().len(), 0);
    server.replace_in_transit(vec!["h".to_string()]);
    assert_eq!(server.get_in_transit(), vec!["h".to_string()]);
}

#[test]
fn seed_node_passes_a_transaction_on() {
    let mut seed = node(" 3000", "miner", two_blocks());
    assert_eq!(seed.get_node_address(), SEED);
    seed.add_nodes("localhost:3001");
    seed.add_nodes("localhost:3002");
    let out = seed
        .handle_transaction(TransactionMsg {
            address_from: "localhost:3001".to_string(),
            transaction: named("t"),
        })
        .unwrap();
    let first = only(&out);
    assert_eq!(first.to, "localhost:3002");
    match &first.message {
        Message::Invite(m) => {
            assert_eq!(m.address_from, SEED);
            assert_eq!(m.kind, "tx");
            assert_eq!(m.items, vec!["t".to_string()]);
        }
        other => panic!("{:?}", other),
    }
    assert_eq!(seed.get_mempool().len(), 1);
    assert_eq!(seed.get_best_height(), Ok(1));
}

#[test]
fn node_that_does_not_mine_lets_a_transaction_wait() {
    let mut server = node("3001", "", two_blocks());
    let out = server
        .handle_transaction(TransactionMsg {
            address_from: "localhost:3002".to_string(),
            transaction: named("t"),
        })
        .unwrap();
    assert_eq!(out.len(), 0);
    assert_eq!(server.get_mempool().len(), 1);
    assert_eq!(server.get_best_height(), Ok(1));
}

#[test]
fn miner_mines_a_received_transaction() {
    let a = Wallet::new();
    let b = Wallet::new();
    let m = Wallet::new();
    let chain = Blockchain::create_blockchain(a.get_address()).unwrap();
    let mut utxo = UTXOSet::new(chain);
    utxo.reindex().unwrap();
    let tx = Transaction::new_UTXO(&a, &b.get_address(), 4, &utxo).unwrap();
    let id = tx.id.clone();
    let mut miner = Server::new("3001", &m.get_address(), utxo).unwrap();
    miner.add_nodes("localhost:3002");
    let out = miner
        .handle_connection(Message::Transaction(TransactionMsg {
            address_from: "localhost:3002".to_string(),
            transaction: tx,
        }))
        .unwrap();
    assert_eq!(miner.get_mempool().len(), 0);
    assert_eq!(miner.get_best_height(), Ok(1));
    let tip = miner.get_utxo().blockchain.get_tip();
    assert_eq!(out.len(), 2);
    assert_eq!(out[0].to, SEED);
    assert_eq!(out[1].to, "localhost:3002");
    for o in &out {
        match &o.message {
            Message::Invite(i) => {
                assert_eq!(i.kind, "block");
                assert_eq!(i.items, vec![tip.clone()]);
            }
            other => panic!("{:?}", other),
        }
    }
    let mined = miner.get_block(&tip).unwrap();
    assert_eq!(mined.validate(), Ok(true));
    assert_eq!(mined.get_transactions().len(), 2);
    assert_eq!(mined.get_transactions()[0].id, id);
    assert!(mined.get_transactions()[1].is_coinbase());
    assert_eq!(miner.get_utxo().get_balance(&a.get_address()), Ok(6));
    assert_eq!(miner.get_utxo().get_balance(&b.get_address()), Ok(4));
    assert_eq!(miner.get_utxo().get_balance(&m.get_address()), Ok(10));
}

#[test]
fn miner_keeps_a_transaction_that_does_not_verify() {
    let a = Wallet::new();
    let b = Wallet::new();
    let chain = Blockchain::create_blockchain(a.get_address()).unwrap();
    let mut utxo = UTXOSet::new(chain);
    utxo.reindex().unwrap();
    let mut tx = Transaction::new_UTXO(&a, &b.get_address(), 4, &utxo).unwrap();
    tx.vout[0].value = 9;
    let mut miner = Server::new("3001", &b.get_address(), utxo).unwrap();
    let out = miner
        .handle_transaction(TransactionMsg {
            address_from: "localhost:3002".to_string(),
            transaction: tx,
        })
        .unwrap();
    assert_eq!(out.len(), 0);
    assert_eq!(miner.get_mempool().len(), 1);
    assert_eq!(miner.get_best_height(), Ok(0));

    let stray = named("stray");
    assert_eq!(
        miner
            .handle_transaction(TransactionMsg {
                address_from: "localhost:3002".to_string(),
                transaction: stray,
            })
            .err(),
        Some(ChainError::NotFound)
    );
    assert_eq!(miner.get_mempool().len(), 2);
}

fn deliver(nodes: &mut Vec<Server>, first: Vec<Outgoing>) {
    let mut queue: Vec<Outgoing> = first;
    let mut steps = 0;
    while !queue.is_empty() {
        steps += 1;
        assert!(steps < 1000);
        let next = queue.remove(0);
        let at = nodes.iter().position(|n| n.get_node_address() == next.to);
        match at {
            Some(i) => {
                let answers = nodes[i].handle_connection(next.message).unwrap();
                queue.extend(answers);
            }
            None => {}
        }
    }
}

#[test]
fn empty_node_catches_up_with_the_seed() {
    let a = Wallet::new();
    let b = Wallet::new();
    let chain = Blockchain::create_blockchain(a.get_address()).unwrap();
    let mut utxo = UTXOSet::new(chain);
    utxo.reindex().unwrap();
    for amount in [4, 3] {
        let tx = Transaction::new_UTXO(&a, &b.get_address(), amount, &utxo).unwrap();
        let cbtx = Transaction::new_coinbase(a.get_address(), format!("Reward {}", amount)).unwrap();
        let mined = utxo.blockchain.mine_block(vec![cbtx, tx]).unwrap();
        utxo.update(&mined).unwrap();
    }
    let seed = Server::new(" 3000", "", utxo).unwrap();
    let fresh = node("3001", "", Blockchain::empty());
    let start = fresh.bootstrap();
    assert_eq!(start.len(), 1);
    let mut nodes = vec![seed, fresh];
    deliver(&mut nodes, start);

    assert_eq!(nodes[0].get_best_height(), Ok(2));
    assert_eq!(nodes[1].get_best_height(), Ok(2));
    assert_eq!(nodes[1].get_block_hashes(), nodes[0].get_block_hashes());
    assert_eq!(nodes[1].get_in_transit().len(), 0);
    for wallet in [&a, &b] {
        let address = wallet.get_address();
        assert_eq!(
            nodes[1].get_utxo().get_balance(&address),
            nodes[0].get_utxo().get_balance(&address)
        );
    }
    assert_eq!(nodes[1].get_utxo().get_balance(&a.get_address()), Ok(23));
    assert_eq!(nodes[1].get_utxo().get_balance(&b.get_address()), Ok(7));
}

#[test]
fn round_of_mining_takes_what_verifies() {
    let a = Wallet::new();
    let b = Wallet::new();
    let m = Wallet::new();
    let chain = Blockchain::create_blockchain(a.get_address()).unwrap();
    let mut utxo = UTXOSet::new(chain);
    utxo.reindex().unwrap();
    let good = Transaction::new_UTXO(&a, &b.get_address(), 4, &utxo).unwrap();
    let mut bad = Transaction::new_UTXO(&a, &b.get_address(), 5, &utxo).unwrap();
    bad.vout[0].value = 9;
    let mut miner = Server::new("3001", &m.get_address(), utxo).unwrap();

    let mut nothing = vec![bad.clone()];
    let mut out = Vec::new();
    assert_eq!(miner.mine_round(&mut nothing, &mut out), Ok(false));
    assert_eq!(nothing.len(), 1);
    assert_eq!(out.len(), 0);
    assert_eq!(miner.get_best_height(), Ok(0));

    let mut pending = vec![bad.clone(), good.clone()];
    assert_eq!(miner.mine_round(&mut pending, &mut out), Ok(true));
    assert_eq!(pending.len(), 1);
    assert_eq!(pending[0].id, bad.id);
    assert_eq!(miner.get_best_height(), Ok(1));
    assert_eq!(out.len(), 1);
    assert_eq!(out[0].to, SEED);
    let tip = miner.get_utxo().blockchain.get_tip();
    let mined = miner.get_block(&tip).unwrap();
    assert_eq!(mined.get_transactions().len(), 2);
    assert_eq!(mined.get_transactions()[0].id, good.id);
    assert!(mined.get_transactions()[1].is_coinbase());

    let mut unknown = vec![named("stray")];
    assert_eq!(miner.mine_round(&mut unknown, &mut out), Err(ChainError::NotFound));
    assert_eq!(unknown.len(), 1);
    assert_eq!(out.len(), 1);
    assert_eq!(miner.get_best_height(), Ok(1));

    let mut broke = Server::new("3002", "no address", UTXOSet::new(Blockchain::empty())).unwrap();
    let mut reward_only = vec![Transaction::new_coinbase(a.get_address(), "m".to_string()).unwrap()];
    assert_eq!(broke.mine_round(&mut reward_only, &mut out), Err(ChainError::Corrupt));
}
