use crate::block::{Block, BlockView};
use crate::block::mining_outcome;
use crate::blockchain::{
    block_mined_as, chain_verify_outcome, lemma_none_rejected, mine_block_outcome, stored,
    BlockchainView,
};
use crate::config::{CMD_LEN, KNOWN_NODE1, VERSION};
use crate::error::ChainError;
use crate::primitives::str_equal;
use crate::primitives::KEY_LEN;
use crate::transaction::{
    clone_transactions, coinbase_outcome, first_with_id, reward_memo, transactions_view,
    Transaction, TransactionView,
};
use crate::utxoset::{utxo_of, EntryView, UTXOSet};
use vstd::prelude::*;
use vstd::string::StringSliceAdditionalSpecFns;

verus! {

/// A block sent to a peer.
#[derive(Debug)]
pub struct BlockMsg {
    pub address_from: String,
    pub block: Block,
}

/// A request for the hashes of a peer's blocks.
#[derive(Debug)]
pub struct GetBlocksMsg {
    pub address_from: String,
}

/// A request for one block or one transaction.
#[derive(Debug)]
pub struct GetDataMsg {
    pub address_from: String,
    pub kind: String,
    pub id: String,
}

/// An announcement of blocks or transactions that a peer has.
#[derive(Debug)]
pub struct InviteMsg {
    pub address_from: String,
    pub kind: String,
    pub items: Vec<String>,
}

/// A transaction sent to a peer.
#[derive(Debug)]
pub struct TransactionMsg {
    pub address_from: String,
    pub transaction: Transaction,
}

/// A peer's protocol version and the height of its chain.
#[derive(Debug)]
pub struct VersionMsg {
    pub address_from: String,
    pub version: i32,
    pub best_height: i32,
}

/// The seven messages of the protocol.
#[derive(Debug)]
pub enum Message {
    Address(Vec<String>),
    Version(VersionMsg),
    Transaction(TransactionMsg),
    GetData(GetDataMsg),
    GetBlocks(GetBlocksMsg),
    Invite(InviteMsg),
    Block(BlockMsg),
}

/// What a `Message` holds, as mathematical values.
pub enum MessageView {
    Address { nodes: Seq<Seq<char>> },
    Version { from: Seq<char>, version: i32, best_height: i32 },
    Transaction { from: Seq<char>, transaction: TransactionView },
    GetData { from: Seq<char>, kind: Seq<char>, id: Seq<char> },
    GetBlocks { from: Seq<char> },
    Invite { from: Seq<char>, kind: Seq<char>, items: Seq<Seq<char>> },
    Block { from: Seq<char>, block: BlockView },
}

/// A message to be sent, with the address of the peer it is for.
#[derive(Debug)]
pub struct Outgoing {
    pub to: String,
    pub message: Message,
}

/// What an `Outgoing` holds, as mathematical values.
pub struct OutgoingView {
    pub to: Seq<char>,
    pub message: MessageView,
}

/// The command that opens a message on the wire.
#[derive(Clone, Copy, Debug, PartialEq, Eq, Structural)]
pub enum Command {
    Addr,
    Block,
    Inv,
    GetBlocks,
    GetData,
    Tx,
    Version,
}

/// The views of a sequence of texts.
pub open spec fn strings_view(texts: Seq<String>) -> Seq<Seq<char>> {
    texts.map_values(|text: String| text@)
}

/// The views of a sequence of messages to be sent.
pub open spec fn outgoing_view(out: Seq<Outgoing>) -> Seq<OutgoingView> {
    out.map_values(|o: Outgoing| o@)
}

impl View for Message {
    type V = MessageView;

    open spec fn view(&self) -> MessageView {
        match self {
            Message::Address(nodes) => MessageView::Address { nodes: strings_view(nodes@) },
            Message::Version(m) => MessageView::Version {
                from: m.address_from@,
                version: m.version,
                best_height: m.best_height,
            },
            Message::Transaction(m) => MessageView::Transaction {
                from: m.address_from@,
                transaction: m.transaction@,
            },
            Message::GetData(m) => MessageView::GetData {
                from: m.address_from@,
                kind: m.kind@,
                id: m.id@,
            },
            Message::GetBlocks(m) => MessageView::GetBlocks { from: m.address_from@ },
            Message::Invite(m) => MessageView::Invite {
                from: m.address_from@,
                kind: m.kind@,
                items: strings_view(m.items@),
            },
            Message::Block(m) => MessageView::Block { from: m.address_from@, block: m.block@ },
        }
    }
}

impl View for Outgoing {
    type V = OutgoingView;

    open spec fn view(&self) -> OutgoingView {
        OutgoingView { to: self.to@, message: self.message@ }
    }
}

/// The name of a command, as it stands at the start of a message.
pub open spec fn command_name(command: Command) -> Seq<char> {
    match command {
        Command::Addr => "addr"@,
        Command::Block => "block"@,
        Command::Inv => "inv"@,
        Command::GetBlocks => "getblocks"@,
        Command::GetData => "getdata"@,
        Command::Tx => "tx"@,
        Command::Version => "version"@,
    }
}

/// The command with the name `name`.
pub open spec fn command_named(name: Seq<char>) -> Option<Command> {
    if name == "addr"@ {
        Some(Command::Addr)
    } else if name == "block"@ {
        Some(Command::Block)
    } else if name == "inv"@ {
        Some(Command::Inv)
    } else if name == "getblocks"@ {
        Some(Command::GetBlocks)
    } else if name == "getdata"@ {
        Some(Command::GetData)
    } else if name == "tx"@ {
        Some(Command::Tx)
    } else if name == "version"@ {
        Some(Command::Version)
    } else {
        None
    }
}

impl Message {
    /// The command under which the message travels.
    pub open spec fn command_of(self) -> Command {
        match self {
            Message::Address(_) => Command::Addr,
            Message::Version(_) => Command::Version,
            Message::Transaction(_) => Command::Tx,
            Message::GetData(_) => Command::GetData,
            Message::GetBlocks(_) => Command::GetBlocks,
            Message::Invite(_) => Command::Inv,
            Message::Block(_) => Command::Block,
        }
    }

    /// The command under which the message travels.
    pub fn command(&self) -> (command: Command)
        ensures
            command == self.command_of(),
    {
        match self {
            Message::Address(_) => Command::Addr,
            Message::Version(_) => Command::Version,
            Message::Transaction(_) => Command::Tx,
            Message::GetData(_) => Command::GetData,
            Message::GetBlocks(_) => Command::GetBlocks,
            Message::Invite(_) => Command::Inv,
            Message::Block(_) => Command::Block,
        }
    }
}

impl Command {
    /// The name of the command.
    pub fn name(&self) -> (name: &'static str)
        ensures
            name@ == command_name(*self),
    {
        match self {
            Command::Addr => "addr",
            Command::Block => "block",
            Command::Inv => "inv",
            Command::GetBlocks => "getblocks",
            Command::GetData => "getdata",
            Command::Tx => "tx",
            Command::Version => "version",
        }
    }

    /// The command with the name `name`.
    pub fn from_name(name: &str) -> (command: Option<Command>)
        ensures
            command == command_named(name@),
    {
        if str_equal(name, "addr") {
            Some(Command::Addr)
        } else if str_equal(name, "block") {
            Some(Command::Block)
        } else if str_equal(name, "inv") {
            Some(Command::Inv)
        } else if str_equal(name, "getblocks") {
            Some(Command::GetBlocks)
        } else if str_equal(name, "getdata") {
            Some(Command::GetData)
        } else if str_equal(name, "tx") {
            Some(Command::Tx)
        } else if str_equal(name, "version") {
            Some(Command::Version)
        } else {
            None
        }
    }
}

/// `bytes` followed by zeros up to `CMD_LEN` bytes.
pub open spec fn zero_padded(bytes: Seq<u8>) -> Seq<u8> {
    Seq::new(
        CMD_LEN as nat,
        |i: int|
            if i < bytes.len() {
                bytes[i]
            } else {
                0u8
            },
    )
}

/// `bytes` without the zeros at its end.
pub open spec fn trim_zeros(bytes: Seq<u8>) -> Seq<u8>
    decreases bytes.len(),
{
    if bytes.len() > 0 && bytes.last() == 0 {
        trim_zeros(bytes.drop_last())
    } else {
        bytes
    }
}

/// The bytes of a command name, zero-padded to `CMD_LEN` bytes.
pub fn cmd_to_bytes(cmd: &str) -> (data: [u8; CMD_LEN])
    requires
        cmd.spec_bytes().len() <= CMD_LEN,
    ensures
        data@ == zero_padded(cmd.spec_bytes()),
{
    let bytes = cmd.as_bytes();
    let mut data: [u8; CMD_LEN] = [0u8; CMD_LEN];
    let mut i: usize = 0;
    while i < bytes.len()
        invariant
            i <= bytes@.len() <= CMD_LEN,
            bytes@ == cmd.spec_bytes(),
            forall|k: int| 0 <= k < i ==> data@[k] == bytes@[k],
            forall|k: int| i <= k < CMD_LEN ==> data@[k] == 0u8,
        decreases bytes@.len() - i,
    {
        data[i] = bytes[i];
        i += 1;
    }
    assert(data@ =~= zero_padded(cmd.spec_bytes()));
    data
}

/// Calls `String::from_utf8`. Claims what its documentation says: that it succeeds exactly
/// on valid UTF-8, and that the text returned has the bytes that were given.
#[verifier::external_body]
fn text_from_utf8(bytes: Vec<u8>) -> (text: Option<String>)
    ensures
        match text {
            Some(t) => vstd::utf8::valid_utf8(bytes@) && vstd::utf8::encode_utf8(t@) == bytes@,
            None => !vstd::utf8::valid_utf8(bytes@),
        },
{
    String::from_utf8(bytes).ok()
}

/// The command name in a tag of `CMD_LEN` bytes: the bytes before the zeros at its end, as
/// text. `BadUtf8` exactly when those bytes are not valid UTF-8.
pub fn bytes_to_cmd(bytes: &[u8; CMD_LEN]) -> (cmd: Result<String, ChainError>)
    ensures
        match cmd {
            Ok(name) => vstd::utf8::valid_utf8(trim_zeros(bytes@)) && vstd::utf8::encode_utf8(
                name@,
            ) == trim_zeros(bytes@),
            Err(e) => e == ChainError::BadUtf8 && !vstd::utf8::valid_utf8(trim_zeros(bytes@)),
        },
{
    let mut end: usize = CMD_LEN;
    assert(bytes@.take(CMD_LEN as int) =~= bytes@);
    while end > 0 && bytes[end - 1] == 0
        invariant
            end <= CMD_LEN,
            trim_zeros(bytes@) == trim_zeros(bytes@.take(end as int)),
        decreases end,
    {
        assert(bytes@.take(end as int).drop_last() =~= bytes@.take(end - 1));
        end -= 1;
    }
    let mut name: Vec<u8> = Vec::new();
    let mut i: usize = 0;
    while i < end
        invariant
            i <= end <= CMD_LEN,
            name@ == bytes@.take(i as int),
        decreases end - i,
    {
        name.push(bytes[i]);
        assert(bytes@.take(i + 1) =~= bytes@.take(i as int).push(bytes@[i as int]));
        i += 1;
    }
    assert(bytes@.take(CMD_LEN as int) =~= bytes@);
    match text_from_utf8(name) {
        Some(text) => Ok(text),
        None => Err(ChainError::BadUtf8),
    }
}

/// What `split_message` makes of the bytes of a message: the command that its tag names and
/// the bytes after the tag. `Corrupt` where the message is shorter than a tag or the tag
/// names no command, `BadUtf8` where the tag is no text.
pub open spec fn split_outcome(bytes: Seq<u8>) -> Result<(Command, Seq<u8>), ChainError> {
    if bytes.len() < CMD_LEN {
        Err(ChainError::Corrupt)
    } else {
        let tag = trim_zeros(bytes.take(CMD_LEN as int));
        if !vstd::utf8::valid_utf8(tag) {
            Err(ChainError::BadUtf8)
        } else {
            match command_named(vstd::utf8::decode_utf8(tag)) {
                Some(command) => Ok((command, bytes.skip(CMD_LEN as int))),
                None => Err(ChainError::Corrupt),
            }
        }
    }
}

/// Splits the bytes of a message into its command and its payload.
pub fn split_message(bytes: &[u8]) -> (parts: Result<(Command, Vec<u8>), ChainError>)
    ensures
        match parts {
            Ok((command, payload)) => split_outcome(bytes@) == Ok::<
                (Command, Seq<u8>),
                ChainError,
            >((command, payload@)),
            Err(e) => split_outcome(bytes@) == Err::<(Command, Seq<u8>), ChainError>(e),
        },
{
    if bytes.len() < CMD_LEN {
        return Err(ChainError::Corrupt);
    }
    let mut tag: [u8; CMD_LEN] = [0u8; CMD_LEN];
    let mut i: usize = 0;
    while i < CMD_LEN
        invariant
            i <= CMD_LEN <= bytes@.len(),
            forall|k: int| 0 <= k < i ==> tag@[k] == bytes@[k],
        decreases CMD_LEN - i,
    {
        tag[i] = bytes[i];
        i += 1;
    }
    assert(tag@ =~= bytes@.take(CMD_LEN as int));
    let name = match bytes_to_cmd(&tag) {
        Ok(name) => name,
        Err(e) => {
            return Err(e);
        },
    };
    proof {
        vstd::utf8::encode_utf8_decode_utf8(name@);
    }
    let command = match Command::from_name(name.as_str()) {
        Some(command) => command,
        None => {
            return Err(ChainError::Corrupt);
        },
    };
    let mut payload: Vec<u8> = Vec::new();
    let mut j: usize = CMD_LEN;
    while j < bytes.len()
        invariant
            CMD_LEN <= j <= bytes@.len(),
            payload@ == bytes@.subrange(CMD_LEN as int, j as int),
        decreases bytes@.len() - j,
    {
        payload.push(bytes[j]);
        assert(bytes@.subrange(CMD_LEN as int, j + 1) =~= bytes@.subrange(
            CMD_LEN as int,
            j as int,
        ).push(bytes@[j as int]));
        j += 1;
    }
    assert(bytes@.subrange(CMD_LEN as int, bytes@.len() as int) =~= bytes@.skip(CMD_LEN as int));
    Ok((command, payload))
}

/// The bytes of a message: the tag of `command` and then `payload`.
pub fn frame_message(command: Command, payload: &[u8]) -> (bytes: Vec<u8>)
    ensures
        bytes@ == zero_padded(vstd::utf8::encode_utf8(command_name(command))) + payload@,
{
    proof {
        reveal_strlit("addr");
        reveal_strlit("block");
        reveal_strlit("inv");
        reveal_strlit("getblocks");
        reveal_strlit("getdata");
        reveal_strlit("tx");
        reveal_strlit("version");
        lemma_command_names_fit(command);
    }
    let tag = cmd_to_bytes(command.name());
    let mut bytes: Vec<u8> = Vec::new();
    let mut i: usize = 0;
    while i < CMD_LEN
        invariant
            i <= CMD_LEN,
            bytes@ == tag@.take(i as int),
        decreases CMD_LEN - i,
    {
        bytes.push(tag[i]);
        assert(tag@.take(i + 1) =~= tag@.take(i as int).push(tag@[i as int]));
        i += 1;
    }
    assert(tag@.take(CMD_LEN as int) =~= tag@);
    let mut j: usize = 0;
    while j < payload.len()
        invariant
            j <= payload@.len(),
            bytes@ == tag@ + payload@.take(j as int),
        decreases payload@.len() - j,
    {
        bytes.push(payload[j]);
        assert(tag@ + payload@.take(j + 1) =~= (tag@ + payload@.take(j as int)).push(
            payload@[j as int],
        ));
        j += 1;
    }
    assert(payload@.take(payload@.len() as int) =~= payload@);
    bytes
}

/// The name of every command is plain ASCII of at most `CMD_LEN` characters, none of them
/// NUL.
pub proof fn lemma_command_names_fit(command: Command)
    ensures
        vstd::utf8::encode_utf8(command_name(command)).len() == command_name(command).len(),
        0 < command_name(command).len() <= CMD_LEN,
        forall|i: int|
            0 <= i < command_name(command).len() ==> (#[trigger] vstd::utf8::encode_utf8(
                command_name(command),
            )[i]) != 0,
{
    reveal_strlit("addr");
    reveal_strlit("block");
    reveal_strlit("inv");
    reveal_strlit("getblocks");
    reveal_strlit("getdata");
    reveal_strlit("tx");
    reveal_strlit("version");
    let name = command_name(command);
    assert(vstd::utf8::is_ascii_chars(name));
    vstd::utf8::is_ascii_chars_encode_utf8(name);
}

/// Trimming strips the zeros that follow bytes whose last is none.
pub proof fn lemma_trim_zeros_strips(bytes: Seq<u8>, zeros: nat)
    requires
        bytes.len() == 0 || bytes.last() != 0,
    ensures
        trim_zeros(bytes + Seq::new(zeros, |i: int| 0u8)) == bytes,
    decreases zeros,
{
    let padded = bytes + Seq::new(zeros, |i: int| 0u8);
    if zeros == 0 {
        assert(padded =~= bytes);
    } else {
        assert(padded.last() == 0u8);
        assert(padded.drop_last() =~= bytes + Seq::new((zeros - 1) as nat, |i: int| 0u8));
        lemma_trim_zeros_strips(bytes, (zeros - 1) as nat);
    }
}

/// Every command is the command that its name names.
pub proof fn lemma_command_named(command: Command)
    ensures
        command_named(command_name(command)) == Some(command),
{
    reveal_strlit("addr");
    reveal_strlit("block");
    reveal_strlit("inv");
    reveal_strlit("getblocks");
    reveal_strlit("getdata");
    reveal_strlit("tx");
    reveal_strlit("version");
    assert("addr"@.len() == 4);
    assert("block"@.len() == 5);
    assert("inv"@.len() == 3);
    assert("getblocks"@.len() == 9);
    assert("getdata"@.len() == 7);
    assert("tx"@.len() == 2);
    assert("version"@.len() == 7);
    assert("getdata"@[0] != "version"@[0]);
}

/// A message that is framed splits into the command and the payload that it was framed
/// from.
pub proof fn lemma_framed_message_splits(command: Command, payload: Seq<u8>)
    ensures
        split_outcome(zero_padded(vstd::utf8::encode_utf8(command_name(command))) + payload)
            == Ok::<(Command, Seq<u8>), ChainError>((command, payload)),
{
    let name = command_name(command);
    let encoded = vstd::utf8::encode_utf8(name);
    let tag = zero_padded(encoded);
    let bytes = tag + payload;
    lemma_command_names_fit(command);
    lemma_command_named(command);
    assert(encoded.last() == encoded[encoded.len() - 1]);
    lemma_trim_zeros_strips(encoded, (CMD_LEN - encoded.len()) as nat);
    assert(tag =~= encoded + Seq::new((CMD_LEN - encoded.len()) as nat, |i: int| 0u8));
    assert(bytes.take(CMD_LEN as int) =~= tag);
    assert(bytes.skip(CMD_LEN as int) =~= payload);
    vstd::utf8::encode_utf8_valid_utf8(name);
    vstd::utf8::encode_utf8_decode_utf8(name);
}

/// Once the choice among the waiting transactions has failed, it has failed for every
/// longer run of them.
pub proof fn lemma_verified_among_stays_failed(
    txs: Seq<TransactionView>,
    pending: Seq<TransactionView>,
    failed: int,
    upto: int,
)
    requires
        failed <= upto,
        verified_among(txs, pending, failed) is Err,
    ensures
        verified_among(txs, pending, upto) == verified_among(txs, pending, failed),
    decreases upto - failed,
{
    if failed < upto {
        lemma_verified_among_stays_failed(txs, pending, failed, upto - 1);
    }
}

/// Every transaction chosen among the waiting ones verifies on the chain.
pub proof fn lemma_chosen_verify(
    txs: Seq<TransactionView>,
    pending: Seq<TransactionView>,
    upto: int,
)
    requires
        0 <= upto <= pending.len(),
        verified_among(txs, pending, upto) is Ok,
    ensures
        forall|i: int|
            0 <= i < verified_among(txs, pending, upto).unwrap().len() ==> chain_verify_outcome(
                txs,
                #[trigger] verified_among(txs, pending, upto).unwrap()[i],
            ) == Ok::<bool, ChainError>(true),
    decreases upto,
{
    if upto > 0 {
        lemma_chosen_verify(txs, pending, upto - 1);
        let before = verified_among(txs, pending, upto - 1).unwrap();
        let now = verified_among(txs, pending, upto).unwrap();
        assert forall|i: int| 0 <= i < now.len() implies chain_verify_outcome(
            txs,
            #[trigger] now[i],
        ) == Ok::<bool, ChainError>(true) by {
            if i < before.len() {
                assert(now[i] == before[i]);
            }
        }
    }
}

/// Every transaction chosen among the waiting ones is one of them.
pub proof fn lemma_chosen_are_pending(
    txs: Seq<TransactionView>,
    pending: Seq<TransactionView>,
    upto: int,
)
    requires
        0 <= upto <= pending.len(),
        verified_among(txs, pending, upto) is Ok,
    ensures
        forall|i: int|
            0 <= i < verified_among(txs, pending, upto).unwrap().len() ==> exists|k: int|
                0 <= k < upto && #[trigger] pending[k] == (#[trigger] verified_among(
                    txs,
                    pending,
                    upto,
                ).unwrap()[i]),
    decreases upto,
{
    if upto > 0 {
        lemma_chosen_are_pending(txs, pending, upto - 1);
        let before = verified_among(txs, pending, upto - 1).unwrap();
        let now = verified_among(txs, pending, upto).unwrap();
        assert forall|i: int| 0 <= i < now.len() implies exists|k: int|
            0 <= k < upto && #[trigger] pending[k] == #[trigger] now[i] by {
            if i < before.len() {
                let k = choose|k: int| 0 <= k < upto - 1 && #[trigger] pending[k] == before[i];
                assert(pending[k] == now[i]);
            } else {
                assert(pending[upto - 1] == now[i]);
            }
        }
    }
}

/// A node of the network: its own address, the address it mines to, the peers it knows, the
/// chain with its index, the blocks it has yet to fetch, and the transactions that wait for
/// a block.
#[derive(Debug)]
pub struct Server {
    node_address: String,
    mining_address: String,
    known_nodes: Vec<String>,
    utxo: UTXOSet,
    blocks_in_transit: Vec<String>,
    mempool: Vec<Transaction>,
}

/// What a `Server` holds, as mathematical values.
pub struct ServerView {
    pub node_address: Seq<char>,
    pub mining_address: Seq<char>,
    pub known_nodes: Seq<Seq<char>>,
    pub chain: BlockchainView,
    pub utxos: Seq<EntryView>,
    pub blocks_in_transit: Seq<Seq<char>>,
    pub mempool: Seq<TransactionView>,
}

impl View for Server {
    type V = ServerView;

    closed spec fn view(&self) -> ServerView {
        ServerView {
            node_address: self.node_address@,
            mining_address: self.mining_address@,
            known_nodes: strings_view(self.known_nodes@),
            chain: self.utxo.blockchain@,
            utxos: self.utxo.utxos@,
            blocks_in_transit: strings_view(self.blocks_in_transit@),
            mempool: transactions_view(self.mempool@),
        }
    }
}

/// The messages to be sent after one more is addressed to `to`: a node sends nothing to
/// itself.
pub open spec fn posted(out: Seq<OutgoingView>, me: Seq<char>, to: Seq<char>, message: MessageView) -> Seq<
    OutgoingView,
> {
    if to == me {
        out
    } else {
        out.push(OutgoingView { to, message })
    }
}

/// The known peers after `addr` is learnt.
pub open spec fn with_node(nodes: Seq<Seq<char>>, addr: Seq<char>) -> Seq<Seq<char>> {
    if nodes.contains(addr) {
        nodes
    } else {
        nodes.push(addr)
    }
}

/// The known peers after the first `upto` of `learnt` are learnt.
pub open spec fn with_nodes(nodes: Seq<Seq<char>>, learnt: Seq<Seq<char>>, upto: int) -> Seq<
    Seq<char>,
>
    decreases upto,
{
    if upto <= 0 {
        nodes
    } else {
        with_node(with_nodes(nodes, learnt, upto - 1), learnt[upto - 1])
    }
}

/// Those of the first `upto` of `texts` that differ from `gone`, in their order.
pub open spec fn others(texts: Seq<Seq<char>>, gone: Seq<char>, upto: int) -> Seq<Seq<char>>
    decreases upto,
{
    if upto <= 0 {
        Seq::<Seq<char>>::empty()
    } else if texts[upto - 1] == gone {
        others(texts, gone, upto - 1)
    } else {
        others(texts, gone, upto - 1).push(texts[upto - 1])
    }
}

/// The waiting transactions after `tx` joins them: in the place of the one with its
/// identifier, or at the end.
pub open spec fn with_pending(pool: Seq<TransactionView>, tx: TransactionView) -> Seq<
    TransactionView,
> {
    match first_with_id(pool, tx.id, 0) {
        Some(k) => pool.update(k, tx),
        None => pool.push(tx),
    }
}

/// The messages to be sent after `message` is addressed to each of the first `upto` of
/// `nodes` but `skip`.
pub open spec fn spread(
    out: Seq<OutgoingView>,
    me: Seq<char>,
    nodes: Seq<Seq<char>>,
    skip: Seq<char>,
    message: MessageView,
    upto: int,
) -> Seq<OutgoingView>
    decreases upto,
{
    if upto <= 0 {
        out
    } else if nodes[upto - 1] == skip {
        spread(out, me, nodes, skip, message, upto - 1)
    } else {
        posted(spread(out, me, nodes, skip, message, upto - 1), me, nodes[upto - 1], message)
    }
}

/// The hashes of a sequence of blocks.
pub open spec fn hashes_of(blocks: Seq<BlockView>) -> Seq<Seq<char>> {
    Seq::new(blocks.len(), |i: int| blocks[i].hash)
}

/// The request for the hashes of all blocks.
pub open spec fn get_blocks_request(me: Seq<char>) -> MessageView {
    MessageView::GetBlocks { from: me }
}

/// The request for the item `id` of the kind `kind`.
pub open spec fn get_data_request(me: Seq<char>, kind: Seq<char>, id: Seq<char>) -> MessageView {
    MessageView::GetData { from: me, kind, id }
}

/// The announcement of the node's version and the height of its chain.
pub open spec fn version_notice(s: ServerView) -> MessageView {
    MessageView::Version {
        from: s.node_address,
        version: VERSION,
        best_height: s.chain.best_height() as i32,
    }
}

/// What the node sends in answer to a peer's version: a request for blocks where the peer
/// is ahead, its own version where the peer is behind, and always the peers it knows.
pub open spec fn version_replies(s: ServerView, from: Seq<char>, their_height: i32) -> Seq<
    OutgoingView,
> {
    let me = s.node_address;
    let none = Seq::<OutgoingView>::empty();
    let first = if s.chain.best_height() < their_height {
        posted(none, me, from, get_blocks_request(me))
    } else if s.chain.best_height() > their_height {
        posted(none, me, from, version_notice(s))
    } else {
        none
    };
    posted(first, me, from, MessageView::Address { nodes: s.known_nodes })
}

/// What the node sends when it starts: a request for blocks to every peer where its chain
/// is empty, and else its version to the seed node.
pub open spec fn bootstrap_messages(s: ServerView) -> Seq<OutgoingView> {
    let me = s.node_address;
    let none = Seq::<OutgoingView>::empty();
    if s.chain.best_height() == -1 {
        spread(none, me, s.known_nodes, me, get_blocks_request(me), s.known_nodes.len() as int)
    } else {
        posted(none, me, KNOWN_NODE1@, version_notice(s))
    }
}

/// The announcement of the transaction `id`.
pub open spec fn transaction_notice(me: Seq<char>, id: Seq<char>) -> MessageView {
    MessageView::Invite { from: me, kind: "tx"@, items: seq![id] }
}

/// The announcement of the block with the hash `hash`.
pub open spec fn block_notice(me: Seq<char>, hash: Seq<char>) -> MessageView {
    MessageView::Invite { from: me, kind: "block"@, items: seq![hash] }
}

/// The transactions among the first `upto` of `pending` that verify on a chain with the
/// transactions `txs`, in their order. The error of the first whose verification fails.
pub open spec fn verified_among(
    txs: Seq<TransactionView>,
    pending: Seq<TransactionView>,
    upto: int,
) -> Result<Seq<TransactionView>, ChainError>
    decreases upto,
{
    if upto <= 0 {
        Ok(Seq::<TransactionView>::empty())
    } else {
        match verified_among(txs, pending, upto - 1) {
            Err(e) => Err(e),
            Ok(chosen) => match chain_verify_outcome(txs, pending[upto - 1]) {
                Err(e) => Err(e),
                Ok(true) => Ok(chosen.push(pending[upto - 1])),
                Ok(false) => Ok(chosen),
            },
        }
    }
}

/// Those of the first `upto` of `pending` whose identifier none of `mined` has, in their
/// order.
pub open spec fn left_waiting(
    pending: Seq<TransactionView>,
    mined: Seq<TransactionView>,
    upto: int,
) -> Seq<TransactionView>
    decreases upto,
{
    if upto <= 0 {
        Seq::<TransactionView>::empty()
    } else if first_with_id(mined, pending[upto - 1].id, 0) is Some {
        left_waiting(pending, mined, upto - 1)
    } else {
        left_waiting(pending, mined, upto - 1).push(pending[upto - 1])
    }
}

/// What is queued after a round of mining: the announcement of the block to every peer.
pub open spec fn with_block_notices(out: Seq<OutgoingView>, s: ServerView, hash: Seq<char>) -> Seq<
    OutgoingView,
> {
    spread(
        out,
        s.node_address,
        s.known_nodes,
        s.node_address,
        block_notice(s.node_address, hash),
        s.known_nodes.len() as int,
    )
}

/// What making the coinbase of a round gives for the node `before` and the random bytes
/// `key`: the coinbase that pays the node's mining address, or the error of making it.
pub open spec fn reward_for(before: ServerView, key: Seq<u8>) -> Result<
    TransactionView,
    ChainError,
> {
    coinbase_outcome(before.mining_address, reward_memo(before.mining_address), key)
}

/// Whether a round of mining over the transactions `chosen` fails with `e`, where making
/// its coinbase gave `reward`: with the error of making the coinbase; else with
/// `MiningAborted` where the tip has the largest height there is; else with `Clock`, or
/// with the error of mining the block over `chosen` and the coinbase at some time.
pub open spec fn round_fails_with(
    before: ServerView,
    chosen: Seq<TransactionView>,
    reward: Result<TransactionView, ChainError>,
    e: ChainError,
) -> bool {
    match reward {
        Err(reason) => e == reason,
        Ok(coinbase) => if before.chain.best_height() == i32::MAX {
            e == ChainError::MiningAborted
        } else {
            e == ChainError::Clock || exists|timestamp: u128|
                #[trigger] mining_outcome(
                    chosen.push(coinbase),
                    before.chain.tip,
                    before.chain.next_height(),
                    timestamp,
                ) == Err::<BlockView, ChainError>(e)
        },
    }
}

/// Whether a round of mining over the transactions `chosen` fails with `e`, for some 32
/// bytes that the coinbase was made with.
pub open spec fn round_failed(before: ServerView, chosen: Seq<TransactionView>, e: ChainError) -> bool {
    exists|key: Seq<u8>|
        key.len() == KEY_LEN && round_fails_with(before, chosen, #[trigger] reward_for(before, key), e)
}

/// What a round of mining over `pending` gives on the node `before`. The error of the
/// first transaction whose verification fails. `false` where none of them verifies.
/// Otherwise `true`, unless making the coinbase or mining the block fails.
pub open spec fn round_owed(
    before: ServerView,
    pending: Seq<TransactionView>,
    round: Result<bool, ChainError>,
) -> bool {
    match verified_among(before.chain.transactions(), pending, pending.len() as int) {
        Err(e) => round == Err::<bool, ChainError>(e),
        Ok(chosen) => if chosen.len() == 0 {
            round == Ok::<bool, ChainError>(false)
        } else {
            match round {
                Ok(mined) => mined,
                Err(e) => round_failed(before, chosen, e),
            }
        },
    }
}

/// Whether one round of mining takes the node from `before` to `after` by the block
/// `block`: the block is mined on the tip over the transactions of `pending` that verify
/// and a coinbase that pays the node's mining address, and the index is rebuilt.
pub open spec fn round_mined(
    before: ServerView,
    after: ServerView,
    pending: Seq<TransactionView>,
    block: BlockView,
) -> bool {
    &&& verified_among(before.chain.transactions(), pending, pending.len() as int) matches Ok(
        chosen,
    ) && chosen.len() > 0 && block.transactions.len() == chosen.len() + 1
        && block.transactions.take(chosen.len() as int) == chosen
    &&& exists|key: Seq<u8>|
        key.len() == KEY_LEN && #[trigger] coinbase_outcome(
            before.mining_address,
            reward_memo(before.mining_address),
            key,
        ) == Ok::<TransactionView, ChainError>(block.transactions.last())
    &&& block.is_mined()
    &&& block.prev_block_hash == before.chain.tip
    &&& block.height == before.chain.best_height() + 1
    &&& after.chain == before.chain.extended_by(block)
    &&& crate::assoc::entries_map(after.utxos) == utxo_of(after.chain.spending_order())
    &&& crate::assoc::keys_distinct(after.utxos)
    &&& after == (ServerView { chain: after.chain, utxos: after.utxos, ..before })
}

/// Whether rounds of mining take the node from `before`, with `pending` to mine and `out`
/// queued, to `after` with `sent` queued; `first` says that no round has been run yet.
/// Without anything to mine, nothing waits any longer. Where nothing of `pending`
/// verifies, the node is left as it is. Otherwise a round mines a block, announces it, and
/// the rounds go on with what is left of `pending`. A round that fails ends the rounds and
/// leaves the node as it is; the first round must not fail.
pub open spec fn mining_run(
    before: ServerView,
    pending: Seq<TransactionView>,
    out: Seq<OutgoingView>,
    after: ServerView,
    sent: Seq<OutgoingView>,
    first: bool,
) -> bool
    decreases pending.len(),
{
    if pending.len() == 0 {
        after == (ServerView { mempool: Seq::<TransactionView>::empty(), ..before }) && sent
            == out
    } else {
        match verified_among(before.chain.transactions(), pending, pending.len() as int) {
            Ok(chosen) => if chosen.len() == 0 {
                after == before && sent == out
            } else {
                ||| exists|block: BlockView, mid: ServerView|
                    {
                        let left = left_waiting(pending, block.transactions, pending.len() as int);
                        &&& #[trigger] round_mined(before, mid, pending, block)
                        &&& left.len() < pending.len()
                        &&& mining_run(
                            mid,
                            left,
                            with_block_notices(out, before, block.hash),
                            after,
                            sent,
                            false,
                        )
                    }
                ||| !first && after == before && sent == out && exists|e: ChainError|
                    #[trigger] round_failed(before, chosen, e)
            },
            Err(_) => !first && after == before && sent == out,
        }
    }
}

/// Whether the first round of mining over `pending` fails with `e` on the node `before`:
/// with the error of the first transaction whose verification fails, or as `round_failed`
/// says for the transactions that verify.
pub open spec fn first_round_failed(
    before: ServerView,
    pending: Seq<TransactionView>,
    e: ChainError,
) -> bool {
    match verified_among(before.chain.transactions(), pending, pending.len() as int) {
        Err(reason) => e == reason,
        Ok(chosen) => chosen.len() > 0 && round_failed(before, chosen, e),
    }
}

/// Whether the node passes transactions on instead of mining them: the seed node does.
pub open spec fn relays(s: ServerView) -> bool {
    s.node_address == KNOWN_NODE1@
}

/// Whether the node mines the transactions that it receives.
pub open spec fn mines(s: ServerView) -> bool {
    !relays(s) && s.mining_address.len() > 0
}

/// What handling the peers that a peer knows does: the node learns them, and sends
/// nothing.
pub open spec fn address_handled(
    before: ServerView,
    after: ServerView,
    msg: Vec<String>,
    done: Result<Vec<Outgoing>, ChainError>,
) -> bool {
    &&& done matches Ok(out) && out@.len() == 0
    &&& after == (ServerView {
        known_nodes: with_nodes(before.known_nodes, strings_view(msg@), msg@.len() as int),
        ..before
    })
}

/// What handling a peer's version does: the node answers with `version_replies`, and
/// learns the peer.
pub open spec fn version_handled(
    before: ServerView,
    after: ServerView,
    msg: VersionMsg,
    done: Result<Vec<Outgoing>, ChainError>,
) -> bool {
    &&& done matches Ok(out) && outgoing_view(out@) == version_replies(
        before,
        msg.address_from@,
        msg.best_height,
    )
    &&& after == (ServerView {
        known_nodes: with_node(before.known_nodes, msg.address_from@),
        ..before
    })
}

/// What handling a request for the hashes of the node's blocks does: the node announces
/// the blocks of its chain, from the tip on, and is unchanged.
pub open spec fn get_blocks_handled(
    before: ServerView,
    after: ServerView,
    msg: GetBlocksMsg,
    done: Result<Vec<Outgoing>, ChainError>,
) -> bool {
    &&& after == before
    &&& done matches Ok(out) && outgoing_view(out@) == posted(
        Seq::<OutgoingView>::empty(),
        before.node_address,
        msg.address_from@,
        MessageView::Invite {
            from: before.node_address,
            kind: "block"@,
            items: hashes_of(before.chain.chain()),
        },
    )
}

/// What handling a block from a peer does: the chain takes the block. Where blocks are yet
/// to fetch, the node asks the peer for the first of them, which is then no longer to
/// fetch. Where none is, the index is rebuilt from the chain.
pub open spec fn block_handled(
    before: ServerView,
    after: ServerView,
    msg: BlockMsg,
    done: Result<Vec<Outgoing>, ChainError>,
) -> bool {
    &&& done is Ok
    &&& after.chain == before.chain.with_block(msg.block@)
    &&& after.node_address == before.node_address
    &&& after.mining_address == before.mining_address
    &&& after.known_nodes == before.known_nodes
    &&& after.mempool == before.mempool
    &&& before.blocks_in_transit.len() > 0 ==> {
        &&& outgoing_view(done.unwrap()@) == posted(
            Seq::<OutgoingView>::empty(),
            before.node_address,
            msg.address_from@,
            get_data_request(before.node_address, "block"@, before.blocks_in_transit[0]),
        )
        &&& after.blocks_in_transit == before.blocks_in_transit.drop_first()
        &&& after.utxos == before.utxos
    }
    &&& before.blocks_in_transit.len() == 0 ==> {
        &&& done.unwrap()@.len() == 0
        &&& after.blocks_in_transit == before.blocks_in_transit
        &&& crate::assoc::entries_map(after.utxos) == utxo_of(after.chain.spending_order())
    }
}

/// What handling an announcement does. Of blocks: the node asks the peer for the first, and
/// notes the others as yet to fetch. Of a transaction: the node asks the peer for it, unless
/// it waits here already. `Corrupt`, and nothing changed, exactly when an announcement of
/// blocks or of a transaction names nothing.
pub open spec fn invite_handled(
    before: ServerView,
    after: ServerView,
    msg: InviteMsg,
    done: Result<Vec<Outgoing>, ChainError>,
) -> bool {
    let me = before.node_address;
    let none = Seq::<OutgoingView>::empty();
    let items = strings_view(msg.items@);
    match done {
        Ok(out) => {
            if msg.kind@ == "block"@ {
                &&& items.len() > 0
                &&& outgoing_view(out@) == posted(
                    none,
                    me,
                    msg.address_from@,
                    get_data_request(me, "block"@, items[0]),
                )
                &&& after == (ServerView {
                    blocks_in_transit: others(items, items[0], items.len() as int),
                    ..before
                })
            } else if msg.kind@ == "tx"@ {
                &&& items.len() > 0
                &&& after == before
                &&& outgoing_view(out@) == (if first_with_id(before.mempool, items[0], 0) is Some
                    && items[0].len() > 0 {
                    none
                } else {
                    posted(none, me, msg.address_from@, get_data_request(me, "tx"@, items[0]))
                })
            } else {
                after == before && out@.len() == 0
            }
        },
        Err(e) => e == ChainError::Corrupt && after == before && (msg.kind@ == "block"@
            || msg.kind@ == "tx"@) && items.len() == 0,
    }
}

/// What handling a request for a block or for a waiting transaction does: the node sends
/// it, and is unchanged. `NotFound` exactly when the node has no such block or
/// transaction.
pub open spec fn get_data_handled(
    before: ServerView,
    after: ServerView,
    msg: GetDataMsg,
    done: Result<Vec<Outgoing>, ChainError>,
) -> bool {
    let me = before.node_address;
    let none = Seq::<OutgoingView>::empty();
    &&& after == before
    &&& match done {
        Ok(out) => {
            if msg.kind@ == "block"@ {
                stored(before.chain.blocks, msg.id@) matches Some(block) && outgoing_view(out@)
                    == posted(
                    none,
                    me,
                    msg.address_from@,
                    MessageView::Block { from: me, block },
                )
            } else if msg.kind@ == "tx"@ {
                first_with_id(before.mempool, msg.id@, 0) matches Some(k) && outgoing_view(out@)
                    == posted(
                    none,
                    me,
                    msg.address_from@,
                    MessageView::Transaction { from: me, transaction: before.mempool[k] },
                )
            } else {
                out@.len() == 0
            }
        },
        Err(e) => e == ChainError::NotFound && (if msg.kind@ == "block"@ {
            stored(before.chain.blocks, msg.id@) is None
        } else {
            msg.kind@ == "tx"@ && first_with_id(before.mempool, msg.id@, 0) is None
        }),
    }
}

/// What handling a transaction from a peer does. The transaction waits for a block. The
/// seed node announces it to the peers it knows, but for the one it came from. A node that
/// neither relays nor mines does no more. A node that mines runs rounds of mining over what
/// waits, as `mining_run` says. The handling fails exactly when the first round fails,
/// with that round's error, and then nothing but the waiting transaction has changed. A
/// later round that fails ends the rounds, and what the earlier rounds mined and
/// announced stands.
pub open spec fn transaction_handled(
    before: ServerView,
    after: ServerView,
    msg: TransactionMsg,
    done: Result<Vec<Outgoing>, ChainError>,
) -> bool {
    let waiting = with_pending(before.mempool, msg.transaction@);
    &&& after.node_address == before.node_address
    &&& after.mining_address == before.mining_address
    &&& after.known_nodes == before.known_nodes
    &&& after.blocks_in_transit == before.blocks_in_transit
    &&& relays(before) ==> (done matches Ok(out) && after == (ServerView {
        mempool: waiting,
        ..before
    }) && outgoing_view(out@) == spread(
        Seq::<OutgoingView>::empty(),
        before.node_address,
        before.known_nodes,
        msg.address_from@,
        transaction_notice(before.node_address, msg.transaction@.id),
        before.known_nodes.len() as int,
    ))
    &&& !relays(before) && !mines(before) ==> (done matches Ok(out) && out@.len() == 0 && after
        == (ServerView { mempool: waiting, ..before }))
    &&& mines(before) ==> match done {
        Ok(out) => {
            &&& after.mempool.len() == 0 || after.mempool == waiting
            &&& mining_run(
                ServerView { mempool: waiting, ..before },
                waiting,
                Seq::<OutgoingView>::empty(),
                after,
                outgoing_view(out@),
                true,
            )
        },
        Err(e) => after == (ServerView { mempool: waiting, ..before }) && first_round_failed(
            after,
            waiting,
            e,
        ),
    }
    &&& mines(before) ==> match verified_among(
        before.chain.transactions(),
        waiting,
        waiting.len() as int,
    ) {
        Err(e) => done matches Err(reason) && reason == e,
        Ok(chosen) => chosen.len() == 0 ==> done is Ok,
    }
}

/// What handling a message does: what handling a message of its kind does.
pub open spec fn message_handled(
    before: ServerView,
    after: ServerView,
    message: Message,
    done: Result<Vec<Outgoing>, ChainError>,
) -> bool {
    match message {
        Message::Address(msg) => address_handled(before, after, msg, done),
        Message::Version(msg) => version_handled(before, after, msg, done),
        Message::Transaction(msg) => transaction_handled(before, after, msg, done),
        Message::GetData(msg) => get_data_handled(before, after, msg, done),
        Message::GetBlocks(msg) => get_blocks_handled(before, after, msg, done),
        Message::Invite(msg) => invite_handled(before, after, msg, done),
        Message::Block(msg) => block_handled(before, after, msg, done),
    }
}

/// A copy of a list of texts.
pub fn clone_strings(texts: &Vec<String>) -> (copy: Vec<String>)
    ensures
        strings_view(copy@) == strings_view(texts@),
{
    let mut copy: Vec<String> = Vec::new();
    let mut i: usize = 0;
    while i < texts.len()
        invariant
            i <= texts@.len(),
            copy@.len() == i,
            forall|k: int| 0 <= k < i ==> (#[trigger] copy@[k])@ == texts@[k]@,
        decreases texts@.len() - i,
    {
        copy.push(texts[i].clone());
        i += 1;
    }
    assert(strings_view(copy@) =~= strings_view(texts@));
    copy
}

/// Whether `texts` holds `wanted`.
pub fn contains_text(texts: &Vec<String>, wanted: &str) -> (found: bool)
    ensures
        found == strings_view(texts@).contains(wanted@),
{
    let mut i: usize = 0;
    while i < texts.len()
        invariant
            i <= texts@.len(),
            forall|k: int| 0 <= k < i ==> strings_view(texts@)[k] != wanted@,
        decreases texts@.len() - i,
    {
        if str_equal(texts[i].as_str(), wanted) {
            assert(strings_view(texts@)[i as int] == wanted@);
            return true;
        }
        i += 1;
    }
    false
}

impl Server {
    /// A node that listens on `port` of the local host and mines to `miner_address`; it
    /// does not mine where that is empty. It knows the seed node, and nothing waits.
    pub fn new(port: &str, miner_address: &str, utxo: UTXOSet) -> (made: Result<
        Server,
        ChainError,
    >)
        ensures
            made matches Ok(server) && server@ == (ServerView {
                node_address: "localhost:"@ + port@,
                mining_address: miner_address@,
                known_nodes: seq![KNOWN_NODE1@],
                chain: utxo.blockchain@,
                utxos: utxo.utxos@,
                blocks_in_transit: Seq::<Seq<char>>::empty(),
                mempool: Seq::<TransactionView>::empty(),
            }),
    {
        let mut node_address = String::from_str("localhost:");
        node_address.append(port);
        let known_nodes = vec![String::from_str(KNOWN_NODE1)];
        assert(strings_view(known_nodes@) =~= seq![KNOWN_NODE1@]);
        let server = Server {
            node_address,
            mining_address: miner_address.to_owned(),
            known_nodes,
            utxo,
            blocks_in_transit: Vec::new(),
            mempool: Vec::new(),
        };
        assert(server@.blocks_in_transit =~= Seq::<Seq<char>>::empty());
        assert(server@.mempool =~= Seq::<TransactionView>::empty());
        Ok(server)
    }

    /// The node's own address.
    pub fn get_node_address(&self) -> (address: String)
        ensures
            address@ == self@.node_address,
    {
        self.node_address.clone()
    }

    /// The address that the node mines to; empty where it does not mine.
    pub fn get_mining_address(&self) -> (address: String)
        ensures
            address@ == self@.mining_address,
    {
        self.mining_address.clone()
    }

    /// The chain with its index.
    pub fn get_utxo(&self) -> (utxo: &UTXOSet)
        ensures
            utxo.blockchain@ == self@.chain,
            utxo.utxos@ == self@.utxos,
    {
        &self.utxo
    }

    /// The peers that the node knows.
    pub fn get_known_nodes(&self) -> (nodes: Vec<String>)
        ensures
            strings_view(nodes@) == self@.known_nodes,
    {
        clone_strings(&self.known_nodes)
    }

    /// Whether the node knows the peer `addr`.
    pub fn node_is_known(&self, addr: &str) -> (known: bool)
        ensures
            known == self@.known_nodes.contains(addr@),
    {
        contains_text(&self.known_nodes, addr)
    }

    /// Learns the peer `addr`.
    pub fn add_nodes(&mut self, addr: &str)
        ensures
            final(self)@ == (ServerView {
                known_nodes: with_node(old(self)@.known_nodes, addr@),
                ..old(self)@
            }),
    {
        if !contains_text(&self.known_nodes, addr) {
            let ghost before = strings_view(self.known_nodes@);
            self.known_nodes.push(addr.to_owned());
            assert(strings_view(self.known_nodes@) =~= before.push(addr@));
        }
    }

    /// Forgets the peer `addr`, as after a failed connection.
    pub fn remove_node(&mut self, addr: &str) -> (done: Result<(), ChainError>)
        ensures
            done is Ok,
            final(self)@ == (ServerView {
                known_nodes: others(
                    old(self)@.known_nodes,
                    addr@,
                    old(self)@.known_nodes.len() as int,
                ),
                ..old(self)@
            }),
    {
        let ghost before = strings_view(self.known_nodes@);
        let mut kept: Vec<String> = Vec::new();
        let mut i: usize = 0;
        while i < self.known_nodes.len()
            invariant
                i <= self.known_nodes@.len(),
                before == strings_view(self.known_nodes@),
                *self == *old(self),
                strings_view(kept@) == others(before, addr@, i as int),
            decreases self.known_nodes@.len() - i,
        {
            if !str_equal(self.known_nodes[i].as_str(), addr) {
                let ghost sofar = strings_view(kept@);
                kept.push(self.known_nodes[i].clone());
                assert(strings_view(kept@) =~= sofar.push(before[i as int]));
            }
            i += 1;
        }
        self.known_nodes = kept;
        Ok(())
    }

    /// The blocks that the node has yet to fetch.
    pub fn get_in_transit(&self) -> (hashes: Vec<String>)
        ensures
            strings_view(hashes@) == self@.blocks_in_transit,
    {
        clone_strings(&self.blocks_in_transit)
    }

    /// Sets the blocks that the node has yet to fetch.
    pub fn replace_in_transit(&mut self, hashs: Vec<String>)
        ensures
            final(self)@ == (ServerView {
                blocks_in_transit: strings_view(hashs@),
                ..old(self)@
            }),
    {
        self.blocks_in_transit = hashs;
    }

    /// The transactions that wait for a block.
    pub fn get_mempool(&self) -> (pool: Vec<Transaction>)
        ensures
            transactions_view(pool@) == self@.mempool,
    {
        clone_transactions(&self.mempool)
    }

    /// The waiting transaction that `id` identifies.
    pub fn get_mempool_tx(&self, id: &str) -> (found: Option<Transaction>)
        ensures
            match found {
                Some(tx) => first_with_id(self@.mempool, id@, 0) matches Some(k)
                    && self@.mempool[k] == tx@,
                None => first_with_id(self@.mempool, id@, 0) is None,
            },
    {
        match crate::transaction::find_by_id(&self.mempool, id) {
            Some(k) => Some(self.mempool[k].clone()),
            None => None,
        }
    }

    /// Lets `tx` wait for a block, in the place of a waiting transaction with its
    /// identifier.
    pub fn insert_mempool(&mut self, tx: Transaction)
        ensures
            final(self)@ == (ServerView {
                mempool: with_pending(old(self)@.mempool, tx@),
                ..old(self)@
            }),
    {
        let ghost before = transactions_view(self.mempool@);
        match crate::transaction::find_by_id(&self.mempool, tx.id.as_str()) {
            Some(k) => {
                self.mempool.set(k, tx);
                assert(transactions_view(self.mempool@) =~= before.update(k as int, tx@));
            },
            None => {
                self.mempool.push(tx);
                assert(transactions_view(self.mempool@) =~= before.push(tx@));
            },
        }
    }

    /// Lets no transaction wait any longer.
    pub fn clear_mempool(&mut self)
        ensures
            final(self)@ == (ServerView {
                mempool: Seq::<TransactionView>::empty(),
                ..old(self)@
            }),
    {
        self.mempool = Vec::new();
        assert(transactions_view(self.mempool@) =~= Seq::<TransactionView>::empty());
    }

    /// The height of the node's chain; -1 for an empty chain.
    pub fn get_best_height(&self) -> (height: Result<i32, ChainError>)
        ensures
            height matches Ok(h) && h == self@.chain.best_height(),
    {
        self.utxo.blockchain.get_best_height()
    }

    /// The hashes of the blocks of the node's chain, from the tip on.
    pub fn get_block_hashes(&self) -> (hashes: Vec<String>)
        ensures
            strings_view(hashes@) == hashes_of(self@.chain.chain()),
    {
        let hashes = self.utxo.blockchain.get_block_hashes();
        assert(strings_view(hashes@) =~= hashes_of(self@.chain.chain()));
        hashes
    }

    /// The block of the node's store with the hash `block_hash`; `NotFound` exactly when
    /// there is none.
    pub fn get_block(&self, block_hash: &str) -> (found: Result<Block, ChainError>)
        ensures
            match found {
                Ok(block) => stored(self@.chain.blocks, block_hash@) == Some(block@),
                Err(e) => e == ChainError::NotFound && stored(self@.chain.blocks, block_hash@)
                    is None,
            },
    {
        self.utxo.blockchain.get_block(block_hash)
    }

    /// Takes a block from a peer into the chain.
    pub fn add_block(&mut self, block: Block) -> (done: Result<(), ChainError>)
        ensures
            done is Ok,
            final(self)@ == (ServerView {
                chain: old(self)@.chain.with_block(block@),
                ..old(self)@
            }),
    {
        self.utxo.blockchain.add_block(block)
    }

    /// Rebuilds the index of unspent outputs from the chain.
    pub fn utxo_reindex(&mut self) -> (done: Result<(), ChainError>)
        ensures
            done is Ok,
            crate::assoc::entries_map(final(self)@.utxos) == utxo_of(
                old(self)@.chain.spending_order(),
            ),
            crate::assoc::keys_distinct(final(self)@.utxos),
            final(self)@ == (ServerView { utxos: final(self)@.utxos, ..old(self)@ }),
    {
        self.utxo.reindex()
    }

    /// Addresses `message` to `addr`: queues it, unless `addr` is the node itself.
    pub fn send_data(&self, out: &mut Vec<Outgoing>, addr: &str, message: Message)
        ensures
            outgoing_view(final(out)@) == posted(
                outgoing_view(old(out)@),
                self@.node_address,
                addr@,
                message@,
            ),
    {
        if str_equal(addr, self.node_address.as_str()) {
            return ;
        }
        let ghost before = outgoing_view(out@);
        let outgoing = Outgoing { to: addr.to_owned(), message };
        out.push(outgoing);
        assert(outgoing_view(out@) =~= before.push(outgoing@));
    }

    /// Queues a request to `addr` for the hashes of its blocks.
    pub fn send_get_blocks(&self, out: &mut Vec<Outgoing>, addr: &str)
        ensures
            outgoing_view(final(out)@) == posted(
                outgoing_view(old(out)@),
                self@.node_address,
                addr@,
                get_blocks_request(self@.node_address),
            ),
    {
        let message = Message::GetBlocks(GetBlocksMsg { address_from: self.node_address.clone() });
        self.send_data(out, addr, message)
    }

    /// Queues a request to `addr` for the item `id` of the kind `kind`.
    pub fn send_get_data(&self, out: &mut Vec<Outgoing>, addr: &str, kind: &str, id: &str)
        ensures
            outgoing_view(final(out)@) == posted(
                outgoing_view(old(out)@),
                self@.node_address,
                addr@,
                get_data_request(self@.node_address, kind@, id@),
            ),
    {
        let message = Message::GetData(
            GetDataMsg {
                address_from: self.node_address.clone(),
                kind: kind.to_owned(),
                id: id.to_owned(),
            },
        );
        self.send_data(out, addr, message)
    }

    /// Queues `block` for `addr`.
    pub fn send_block(&self, out: &mut Vec<Outgoing>, addr: &str, block: &Block)
        ensures
            outgoing_view(final(out)@) == posted(
                outgoing_view(old(out)@),
                self@.node_address,
                addr@,
                MessageView::Block { from: self@.node_address, block: block@ },
            ),
    {
        let message = Message::Block(
            BlockMsg { address_from: self.node_address.clone(), block: block.clone() },
        );
        self.send_data(out, addr, message)
    }

    /// Queues `tx` for `addr`.
    pub fn send_tx(&self, out: &mut Vec<Outgoing>, addr: &str, tx: &Transaction)
        ensures
            outgoing_view(final(out)@) == posted(
                outgoing_view(old(out)@),
                self@.node_address,
                addr@,
                MessageView::Transaction { from: self@.node_address, transaction: tx@ },
            ),
    {
        let message = Message::Transaction(
            TransactionMsg { address_from: self.node_address.clone(), transaction: tx.clone() },
        );
        self.send_data(out, addr, message)
    }

    /// Queues for `addr` the announcement of `items` of the kind `kind`.
    pub fn send_inv(&self, out: &mut Vec<Outgoing>, addr: &str, kind: &str, items: Vec<String>)
        ensures
            outgoing_view(final(out)@) == posted(
                outgoing_view(old(out)@),
                self@.node_address,
                addr@,
                MessageView::Invite {
                    from: self@.node_address,
                    kind: kind@,
                    items: strings_view(items@),
                },
            ),
    {
        let message = Message::Invite(
            InviteMsg { address_from: self.node_address.clone(), kind: kind.to_owned(), items },
        );
        self.send_data(out, addr, message)
    }

    /// Queues for `addr` the node's version and the height of its chain.
    pub fn send_version(&self, out: &mut Vec<Outgoing>, addr: &str)
        ensures
            outgoing_view(final(out)@) == posted(
                outgoing_view(old(out)@),
                self@.node_address,
                addr@,
                version_notice(self@),
            ),
    {
        let best_height = match self.get_best_height() {
            Ok(h) => h,
            Err(_) => -1,
        };
        let message = Message::Version(
            VersionMsg { address_from: self.node_address.clone(), version: VERSION, best_height },
        );
        self.send_data(out, addr, message)
    }

    /// Queues for `addr` the peers that the node knows.
    pub fn send_addr(&self, out: &mut Vec<Outgoing>, addr: &str)
        ensures
            outgoing_view(final(out)@) == posted(
                outgoing_view(old(out)@),
                self@.node_address,
                addr@,
                MessageView::Address { nodes: self@.known_nodes },
            ),
    {
        let message = Message::Address(self.get_known_nodes());
        self.send_data(out, addr, message)
    }

    /// Queues a request for the hashes of their blocks to all the peers that the node knows.
    pub fn request_blocks(&self, out: &mut Vec<Outgoing>)
        ensures
            outgoing_view(final(out)@) == spread(
                outgoing_view(old(out)@),
                self@.node_address,
                self@.known_nodes,
                self@.node_address,
                get_blocks_request(self@.node_address),
                self@.known_nodes.len() as int,
            ),
    {
        let ghost start = outgoing_view(out@);
        let mut i: usize = 0;
        while i < self.known_nodes.len()
            invariant
                i <= self.known_nodes@.len(),
                outgoing_view(out@) == spread(
                    start,
                    self@.node_address,
                    self@.known_nodes,
                    self@.node_address,
                    get_blocks_request(self@.node_address),
                    i as int,
                ),
            decreases self.known_nodes@.len() - i,
        {
            self.send_get_blocks(out, self.known_nodes[i].as_str());
            i += 1;
        }
    }

    /// What the node sends when it starts.
    pub fn bootstrap(&self) -> (out: Vec<Outgoing>)
        ensures
            outgoing_view(out@) == bootstrap_messages(self@),
    {
        let mut out: Vec<Outgoing> = Vec::new();
        assert(outgoing_view(out@) =~= Seq::<OutgoingView>::empty());
        let best_height = match self.get_best_height() {
            Ok(h) => h,
            Err(_) => -1,
        };
        if best_height == -1 {
            self.request_blocks(&mut out);
        } else {
            self.send_version(&mut out, KNOWN_NODE1);
        }
        out
    }

    /// Learns the peers that a peer knows.
    pub fn handle_address(&mut self, msg: Vec<String>) -> (done: Result<Vec<Outgoing>, ChainError>)
        ensures
            address_handled(old(self)@, final(self)@, msg, done),
    {
        let ghost before = self@;
        let mut i: usize = 0;
        while i < msg.len()
            invariant
                i <= msg@.len(),
                self@ == (ServerView {
                    known_nodes: with_nodes(before.known_nodes, strings_view(msg@), i as int),
                    ..before
                }),
            decreases msg@.len() - i,
        {
            self.add_nodes(msg[i].as_str());
            i += 1;
        }
        Ok(Vec::new())
    }

    /// Answers a peer's version: asks for its blocks where it is ahead, tells it the node's
    /// own version where it is behind, tells it the peers that the node knows, and learns
    /// the peer.
    pub fn handle_version(&mut self, msg: VersionMsg) -> (done: Result<Vec<Outgoing>, ChainError>)
        ensures
            version_handled(old(self)@, final(self)@, msg, done),
    {
        let mut out: Vec<Outgoing> = Vec::new();
        assert(outgoing_view(out@) =~= Seq::<OutgoingView>::empty());
        let my_best_height = match self.get_best_height() {
            Ok(h) => h,
            Err(_) => -1,
        };
        if my_best_height < msg.best_height {
            self.send_get_blocks(&mut out, msg.address_from.as_str());
        } else if my_best_height > msg.best_height {
            self.send_version(&mut out, msg.address_from.as_str());
        }
        self.send_addr(&mut out, msg.address_from.as_str());
        if !self.node_is_known(msg.address_from.as_str()) {
            self.add_nodes(msg.address_from.as_str());
        }
        Ok(out)
    }

    /// Answers a request for the hashes of the node's blocks with their announcement.
    pub fn handle_get_blocks(&mut self, msg: GetBlocksMsg) -> (done: Result<
        Vec<Outgoing>,
        ChainError,
    >)
        ensures
            get_blocks_handled(old(self)@, final(self)@, msg, done),
    {
        let mut out: Vec<Outgoing> = Vec::new();
        assert(outgoing_view(out@) =~= Seq::<OutgoingView>::empty());
        let block_hashes = self.get_block_hashes();
        self.send_inv(&mut out, msg.address_from.as_str(), "block", block_hashes);
        Ok(out)
    }

    /// Takes a block from a peer into the chain. Then asks the peer for the first of the
    /// blocks yet to fetch, which is no longer to fetch; where none is, rebuilds the index
    /// instead.
    pub fn handle_block(&mut self, msg: BlockMsg) -> (done: Result<Vec<Outgoing>, ChainError>)
        ensures
            block_handled(old(self)@, final(self)@, msg, done),
    {
        let mut out: Vec<Outgoing> = Vec::new();
        assert(outgoing_view(out@) =~= Seq::<OutgoingView>::empty());
        let from = msg.address_from;
        let _ = self.add_block(msg.block);
        if self.blocks_in_transit.len() > 0 {
            let ghost before = strings_view(self.blocks_in_transit@);
            let block_hash = self.blocks_in_transit.remove(0);
            assert(strings_view(self.blocks_in_transit@) =~= before.drop_first());
            self.send_get_data(&mut out, from.as_str(), "block", block_hash.as_str());
        } else {
            let _ = self.utxo_reindex();
        }
        Ok(out)
    }

    /// Answers an announcement. Of blocks: asks the peer for the first, and notes the others
    /// as yet to fetch. Of a transaction: asks the peer for it, unless it waits here
    /// already. `Corrupt`, and nothing changed, exactly when an announcement of blocks or of
    /// a transaction names nothing.
    pub fn handle_invite(&mut self, msg: InviteMsg) -> (done: Result<Vec<Outgoing>, ChainError>)
        ensures
            invite_handled(old(self)@, final(self)@, msg, done),
    {
        let mut out: Vec<Outgoing> = Vec::new();
        assert(outgoing_view(out@) =~= Seq::<OutgoingView>::empty());
        let ghost items = strings_view(msg.items@);
        if str_equal(msg.kind.as_str(), "block") {
            if msg.items.len() == 0 {
                return Err(ChainError::Corrupt);
            }
            let block_hash = &msg.items[0];
            assert(block_hash@ == items[0]);
            self.send_get_data(&mut out, msg.address_from.as_str(), "block", block_hash.as_str());
            let mut new_in_transit: Vec<String> = Vec::new();
            let mut i: usize = 0;
            while i < msg.items.len()
                invariant
                    i <= msg.items@.len(),
                    items == strings_view(msg.items@),
                    block_hash@ == items[0],
                    strings_view(new_in_transit@) == others(items, items[0], i as int),
                decreases msg.items@.len() - i,
            {
                if !str_equal(msg.items[i].as_str(), block_hash.as_str()) {
                    let ghost sofar = strings_view(new_in_transit@);
                    new_in_transit.push(msg.items[i].clone());
                    assert(strings_view(new_in_transit@) =~= sofar.push(items[i as int]));
                }
                i += 1;
            }
            self.replace_in_transit(new_in_transit);
        } else if str_equal(msg.kind.as_str(), "tx") {
            if msg.items.len() == 0 {
                return Err(ChainError::Corrupt);
            }
            let tx_id = &msg.items[0];
            assert(tx_id@ == items[0]);
            match self.get_mempool_tx(tx_id.as_str()) {
                Some(tx) => {
                    proof {
                        crate::blockchain::lemma_first_with_id(self@.mempool, tx_id@, 0);
                    }
                    if tx.id.as_str().is_empty() {
                        self.send_get_data(
                            &mut out,
                            msg.address_from.as_str(),
                            "tx",
                            tx_id.as_str(),
                        );
                    }
                },
                None => {
                    self.send_get_data(&mut out, msg.address_from.as_str(), "tx", tx_id.as_str());
                },
            }
        }
        Ok(out)
    }

    /// Answers a request for a block or for a waiting transaction by sending it.
    /// `NotFound` exactly when the node has no such block or transaction.
    pub fn handle_get_data(&mut self, msg: GetDataMsg) -> (done: Result<Vec<Outgoing>, ChainError>)
        ensures
            get_data_handled(old(self)@, final(self)@, msg, done),
    {
        let mut out: Vec<Outgoing> = Vec::new();
        assert(outgoing_view(out@) =~= Seq::<OutgoingView>::empty());
        if str_equal(msg.kind.as_str(), "block") {
            let block = match self.get_block(msg.id.as_str()) {
                Ok(block) => block,
                Err(e) => {
                    return Err(e);
                },
            };
            self.send_block(&mut out, msg.address_from.as_str(), &block);
        } else if str_equal(msg.kind.as_str(), "tx") {
            let tx = match self.get_mempool_tx(msg.id.as_str()) {
                Some(tx) => tx,
                None => {
                    return Err(ChainError::NotFound);
                },
            };
            self.send_tx(&mut out, msg.address_from.as_str(), &tx);
        }
        Ok(out)
    }
    /// The transactions of `pending` that verify on the chain, in their order. The error of
    /// the first whose verification fails.
    fn verifiable(&self, pending: &Vec<Transaction>) -> (chosen: Result<
        Vec<Transaction>,
        ChainError,
    >)
        ensures
            match chosen {
                Ok(txs) => verified_among(
                    self@.chain.transactions(),
                    transactions_view(pending@),
                    pending@.len() as int,
                ) == Ok::<Seq<TransactionView>, ChainError>(transactions_view(txs@)),
                Err(e) => verified_among(
                    self@.chain.transactions(),
                    transactions_view(pending@),
                    pending@.len() as int,
                ) == Err::<Seq<TransactionView>, ChainError>(e),
            },
    {
        let ghost chain_txs = self@.chain.transactions();
        let ghost views = transactions_view(pending@);
        let mut txs: Vec<Transaction> = Vec::new();
        let mut k: usize = 0;
        assert(transactions_view(txs@) =~= Seq::<TransactionView>::empty());
        while k < pending.len()
            invariant
                k <= pending@.len(),
                chain_txs == self@.chain.transactions(),
                views == transactions_view(pending@),
                verified_among(chain_txs, views, k as int) == Ok::<
                    Seq<TransactionView>,
                    ChainError,
                >(transactions_view(txs@)),
            decreases pending@.len() - k,
        {
            match self.utxo.blockchain.verify_transaction(&pending[k]) {
                Ok(true) => {
                    let ghost sofar = transactions_view(txs@);
                    txs.push(pending[k].clone());
                    assert(transactions_view(txs@) =~= sofar.push(views[k as int]));
                },
                Ok(false) => {},
                Err(e) => {
                    proof {
                        assert(verified_among(chain_txs, views, k + 1) == Err::<
                            Seq<TransactionView>,
                            ChainError,
                        >(e));
                        lemma_verified_among_stays_failed(
                            chain_txs,
                            views,
                            k + 1,
                            views.len() as int,
                        );
                    }
                    return Err(e);
                },
            }
            k += 1;
        }
        Ok(txs)
    }

    /// One round of mining: a block over the transactions of `pending` that verify and a
    /// coinbase for the node's mining address, the index rebuilt, and the block announced
    /// to the peers. `false`, and nothing done, exactly when no transaction of `pending`
    /// verifies. The transactions that went into the block leave `pending`. The error of
    /// the first transaction whose verification fails; otherwise an error only where making
    /// the coinbase or mining the block fails, as `round_failed` says. On an error the
    /// node, `pending` and `out` are unchanged.
    pub fn mine_round(&mut self, pending: &mut Vec<Transaction>, out: &mut Vec<Outgoing>) -> (round: Result<
        bool,
        ChainError,
    >)
        ensures
            round_owed(old(self)@, transactions_view(old(pending)@), round),
            match round {
                Ok(true) => exists|block: BlockView|
                    {
                        &&& #[trigger] round_mined(
                            old(self)@,
                            final(self)@,
                            transactions_view(old(pending)@),
                            block,
                        )
                        &&& transactions_view(final(pending)@) == left_waiting(
                            transactions_view(old(pending)@),
                            block.transactions,
                            old(pending)@.len() as int,
                        )
                        &&& final(pending)@.len() < old(pending)@.len()
                        &&& outgoing_view(final(out)@) == with_block_notices(
                            outgoing_view(old(out)@),
                            old(self)@,
                            block.hash,
                        )
                    },
                Ok(false) => verified_among(
                    old(self)@.chain.transactions(),
                    transactions_view(old(pending)@),
                    old(pending)@.len() as int,
                ) == Ok::<Seq<TransactionView>, ChainError>(Seq::<TransactionView>::empty())
                    && final(self)@ == old(self)@ && final(out)@ == old(out)@ && final(pending)@
                    == old(pending)@,
                Err(_) => final(self)@ == old(self)@ && final(out)@ == old(out)@ && final(pending)@
                    == old(pending)@,
            },
    {
        let ghost before = self@;
        let ghost waiting = transactions_view(pending@);
        let mut txs = match self.verifiable(pending) {
            Ok(txs) => txs,
            Err(e) => {
                return Err(e);
            },
        };
        if txs.len() == 0 {
            assert(transactions_view(txs@) =~= Seq::<TransactionView>::empty());
            return Ok(false);
        }
        let ghost chosen = transactions_view(txs@);
        let made = Transaction::new_coinbase(self.mining_address.clone(), String::new());
        let ghost key = choose|key: Seq<u8>|
            key.len() == KEY_LEN && crate::transaction::yields(
                made,
                coinbase_outcome(
                    before.mining_address,
                    reward_memo(before.mining_address),
                    key,
                ),
            );
        let cbtx = match made {
            Ok(cbtx) => cbtx,
            Err(e) => {
                assert(round_fails_with(before, chosen, reward_for(before, key), e));
                return Err(e);
            },
        };
        let ghost reward = cbtx@;
        assert(reward_for(before, key) == Ok::<TransactionView, ChainError>(reward));
        txs.push(cbtx);
        let ghost candidates = transactions_view(txs@);
        assert(candidates =~= chosen.push(reward));
        assert(candidates.take(chosen.len() as int) =~= chosen);
        proof {
            lemma_chosen_are_pending(before.chain.transactions(), waiting, waiting.len() as int);
            let found = verified_among(
                before.chain.transactions(),
                waiting,
                waiting.len() as int,
            ).unwrap();
            assert(found == chosen);
            assert(exists|k: int| 0 <= k < waiting.len() && #[trigger] waiting[k] == found[0]);
        }
        let ghost at = choose|k: int| 0 <= k < waiting.len() && #[trigger] waiting[k] == chosen[0];
        let mut kept: Vec<Transaction> = Vec::new();
        let mut k: usize = 0;
        assert(transactions_view(kept@) =~= Seq::<TransactionView>::empty());
        while k < pending.len()
            invariant
                k <= pending@.len(),
                waiting == transactions_view(pending@),
                candidates == transactions_view(txs@),
                0 <= at < waiting.len(),
                candidates.len() > 0,
                candidates[0] == waiting[at],
                transactions_view(kept@) == left_waiting(waiting, candidates, k as int),
                kept@.len() <= k,
                at < k ==> kept@.len() < k,
            decreases pending@.len() - k,
        {
            if crate::transaction::find_by_id(&txs, pending[k].id.as_str()).is_none() {
                proof {
                    crate::blockchain::lemma_first_with_id(candidates, waiting[k as int].id, 0);
                    assert(candidates[0].id != waiting[k as int].id);
                }
                let ghost sofar = transactions_view(kept@);
                kept.push(pending[k].clone());
                assert(transactions_view(kept@) =~= sofar.push(waiting[k as int]));
            }
            k += 1;
        }
        let ghost sent = outgoing_view(out@);
        let mined = self.utxo.blockchain.mine_block(txs);
        let ghost stamp = choose|timestamp: u128|
            block_mined_as(
                mined,
                before.chain,
                self@.chain,
                mine_block_outcome(before.chain, candidates, timestamp),
            );
        proof {
            lemma_chosen_verify(before.chain.transactions(), waiting, waiting.len() as int);
            assert forall|i: int| 0 <= i < candidates.len() implies chain_verify_outcome(
                before.chain.transactions(),
                #[trigger] candidates[i],
            ) == Ok::<bool, ChainError>(true) by {
                if i < chosen.len() {
                    assert(candidates[i] == chosen[i]);
                } else {
                    assert(candidates[i] == reward);
                    assert(reward.is_coinbase());
                }
            }
            lemma_none_rejected(before.chain.transactions(), candidates, 0);
        }
        let new_block = match mined {
            Ok(block) => block,
            Err(e) => {
                proof {
                    if before.chain.best_height() < i32::MAX && e != ChainError::Clock {
                        assert(mining_outcome(
                            candidates,
                            before.chain.tip,
                            before.chain.next_height(),
                            stamp,
                        ) == Err::<BlockView, ChainError>(e));
                    }
                    assert(round_fails_with(before, chosen, reward_for(before, key), e));
                }
                return Err(e);
            },
        };
        assert(mine_block_outcome(before.chain, candidates, stamp) == Ok::<
            (BlockView, BlockchainView),
            ChainError,
        >((new_block@, self@.chain)));
        *pending = kept;
        let _ = self.utxo_reindex();
        let hash = new_block.get_hash();
        let mut i: usize = 0;
        while i < self.known_nodes.len()
            invariant
                i <= self.known_nodes@.len(),
                hash@ == new_block@.hash,
                self@.node_address == before.node_address,
                self@.known_nodes == before.known_nodes,
                outgoing_view(out@) == spread(
                    sent,
                    before.node_address,
                    before.known_nodes,
                    before.node_address,
                    block_notice(before.node_address, hash@),
                    i as int,
                ),
            decreases self.known_nodes@.len() - i,
        {
            let items = vec![hash.clone()];
            assert(strings_view(items@) =~= seq![hash@]);
            self.send_inv(out, self.known_nodes[i].as_str(), "block", items);
            i += 1;
        }
        proof {
            assert(candidates.last() == reward);
            assert(round_mined(before, self@, waiting, new_block@));
        }
        Ok(true)
    }

    /// Takes a transaction from a peer, which then waits for a block. The seed node
    /// announces it to the peers it knows, but for the one it came from. A node with a
    /// mining address mines: round after round, a block over the waiting transactions that
    /// verify, until none of those that are left verifies; where none is left, nothing waits
    /// any longer.
    pub fn handle_transaction(&mut self, msg: TransactionMsg) -> (done: Result<
        Vec<Outgoing>,
        ChainError,
    >)
        ensures
            transaction_handled(old(self)@, final(self)@, msg, done),
    {
        let mut out: Vec<Outgoing> = Vec::new();
        assert(outgoing_view(out@) =~= Seq::<OutgoingView>::empty());
        let ghost start = self@;
        let id = msg.transaction.id.clone();
        let from = msg.address_from;
        self.insert_mempool(msg.transaction);
        let ghost waiting = self@.mempool;
        let ghost begun = self@;
        if str_equal(self.node_address.as_str(), KNOWN_NODE1) {
            let mut i: usize = 0;
            while i < self.known_nodes.len()
                invariant
                    i <= self.known_nodes@.len(),
                    id@ == msg.transaction@.id,
                    start == old(self)@,
                    relays(start),
                    waiting == with_pending(start.mempool, msg.transaction@),
                    self@ == (ServerView { mempool: waiting, ..start }),
                    outgoing_view(out@) == spread(
                        Seq::<OutgoingView>::empty(),
                        start.node_address,
                        start.known_nodes,
                        from@,
                        transaction_notice(start.node_address, id@),
                        i as int,
                    ),
                decreases self.known_nodes@.len() - i,
            {
                if !str_equal(self.known_nodes[i].as_str(), from.as_str()) {
                    let items = vec![id.clone()];
                    assert(strings_view(items@) =~= seq![id@]);
                    self.send_inv(&mut out, self.known_nodes[i].as_str(), "tx", items);
                }
                i += 1;
            }
            return Ok(out);
        }
        if !self.mining_address.as_str().is_empty() {
            let mut pending = self.get_mempool();
            let ghost none = Seq::<OutgoingView>::empty();
            let mut first: bool = true;
            while pending.len() > 0
                invariant
                    start == old(self)@,
                    mines(start),
                    waiting == with_pending(start.mempool, msg.transaction@),
                    begun == (ServerView { mempool: waiting, ..start }),
                    none == Seq::<OutgoingView>::empty(),
                    self@.node_address == start.node_address,
                    self@.mining_address == start.mining_address,
                    self@.known_nodes == start.known_nodes,
                    self@.blocks_in_transit == start.blocks_in_transit,
                    self@.mempool == waiting,
                    first ==> self@ == begun && transactions_view(pending@) == waiting
                        && outgoing_view(out@) == none,
                    forall|after: ServerView, sent: Seq<OutgoingView>|
                        #[trigger] mining_run(
                            self@,
                            transactions_view(pending@),
                            outgoing_view(out@),
                            after,
                            sent,
                            first,
                        ) ==> mining_run(begun, waiting, none, after, sent, true),
                decreases pending@.len(),
            {
                let ghost here = self@;
                let ghost left = transactions_view(pending@);
                let ghost queued = outgoing_view(out@);
                let ghost was_first = first;
                match self.mine_round(&mut pending, &mut out) {
                    Ok(true) => {
                        proof {
                            let block = choose|block: BlockView|
                                {
                                    &&& #[trigger] round_mined(here, self@, left, block)
                                    &&& transactions_view(pending@) == left_waiting(
                                        left,
                                        block.transactions,
                                        left.len() as int,
                                    )
                                    &&& pending@.len() < left.len()
                                    &&& outgoing_view(out@) == with_block_notices(
                                        queued,
                                        here,
                                        block.hash,
                                    )
                                };
                            assert forall|after: ServerView, sent: Seq<OutgoingView>|
                                #[trigger] mining_run(
                                    self@,
                                    transactions_view(pending@),
                                    outgoing_view(out@),
                                    after,
                                    sent,
                                    false,
                                ) implies mining_run(begun, waiting, none, after, sent, true) by {
                                assert(round_mined(here, self@, left, block));
                                assert(mining_run(here, left, queued, after, sent, was_first));
                            }
                        }
                        first = false;
                    },
                    Ok(false) => {
                        assert(mining_run(
                            here,
                            left,
                            queued,
                            self@,
                            outgoing_view(out@),
                            was_first,
                        ));
                        return Ok(out);
                    },
                    Err(e) => {
                        if !first {
                            proof {
                                let found = verified_among(
                                    here.chain.transactions(),
                                    left,
                                    left.len() as int,
                                );
                                if found is Ok {
                                    assert(round_failed(here, found.unwrap(), e));
                                }
                                assert(mining_run(
                                    here,
                                    left,
                                    queued,
                                    self@,
                                    outgoing_view(out@),
                                    false,
                                ));
                            }
                            return Ok(out);
                        }
                        return Err(e);
                    },
                }
            }
            let ghost ended = self@;
            self.clear_mempool();
            assert(mining_run(
                ended,
                transactions_view(pending@),
                outgoing_view(out@),
                self@,
                outgoing_view(out@),
                first,
            ));
        }
        Ok(out)
    }

    /// Handles one message from a peer, and gives the messages to send in answer.
    pub fn handle_connection(&mut self, message: Message) -> (done: Result<
        Vec<Outgoing>,
        ChainError,
    >)
        ensures
            message_handled(old(self)@, final(self)@, message, done),
    {
        match message {
            Message::Address(data) => self.handle_address(data),
            Message::Block(data) => self.handle_block(data),
            Message::Invite(data) => self.handle_invite(data),
            Message::GetBlocks(data) => self.handle_get_blocks(data),
            Message::GetData(data) => self.handle_get_data(data),
            Message::Transaction(data) => self.handle_transaction(data),
            Message::Version(data) => self.handle_version(data),
        }
    }
}

} // verus!
