use crate::block::{mined_as, mining_outcome, Block, BlockView};
use crate::error::ChainError;
use crate::primitives::{str_equal, KEY_LEN, SIGNATURE_LEN};
use crate::transaction::{
    coinbase_outcome, first_with_id, keys_agree, lemma_signed_transaction_verifies, sign_outcome,
    signed, transactions_view, verify_outcome, Transaction, TransactionView,
};
use vstd::prelude::*;

verus! {

/// The chain of blocks: a store of blocks by hash, and the hash of the tip.
#[derive(Debug)]
pub struct Blockchain {
    tip: String,
    blocks: Vec<Block>,
}

/// What a `Blockchain` holds, as mathematical values.
pub struct BlockchainView {
    pub tip: Seq<char>,
    pub blocks: Seq<BlockView>,
}

/// A cursor over the chain, from the tip towards the genesis block.
pub struct BlockchainIterator<'a> {
    tip: String,
    left: usize,
    bc: &'a Blockchain,
}

/// The views of a sequence of blocks.
pub open spec fn blocks_view(blocks: Seq<Block>) -> Seq<BlockView> {
    blocks.map_values(|block: Block| block@)
}

/// The position of the first block at or after `from` whose hash is `hash`.
pub open spec fn position_of_hash(store: Seq<BlockView>, hash: Seq<char>, from: int) -> Option<int>
    decreases store.len() - from,
{
    if from < 0 || from >= store.len() {
        None
    } else if store[from].hash == hash {
        Some(from)
    } else {
        position_of_hash(store, hash, from + 1)
    }
}

/// The block stored under `hash`.
pub open spec fn stored(store: Seq<BlockView>, hash: Seq<char>) -> Option<BlockView> {
    match position_of_hash(store, hash, 0) {
        Some(k) => Some(store[k]),
        None => None,
    }
}

/// Whether no two blocks of the store have the same hash.
pub open spec fn hashes_distinct(store: Seq<BlockView>) -> bool {
    forall|i: int, j: int|
        0 <= i < j < store.len() ==> (#[trigger] store[i]).hash != (#[trigger] store[j]).hash
}

/// The store after `block` is put under its hash: in the place of the block that was there,
/// or at the end.
pub open spec fn store_put(store: Seq<BlockView>, block: BlockView) -> Seq<BlockView> {
    match position_of_hash(store, block.hash, 0) {
        Some(k) => store.update(k, block),
        None => store.push(block),
    }
}

/// The blocks met from `hash` backwards along the previous hashes, at most `fuel` of them:
/// the walk ends at an empty hash and at a hash under which nothing is stored.
pub open spec fn chain_from(store: Seq<BlockView>, hash: Seq<char>, fuel: nat) -> Seq<BlockView>
    decreases fuel,
{
    if fuel == 0 || hash.len() == 0 {
        Seq::<BlockView>::empty()
    } else {
        match stored(store, hash) {
            Some(block) => seq![block] + chain_from(
                store,
                block.prev_block_hash,
                (fuel - 1) as nat,
            ),
            None => Seq::<BlockView>::empty(),
        }
    }
}

/// The transactions of `blocks`, block after block.
pub open spec fn transactions_of(blocks: Seq<BlockView>) -> Seq<TransactionView>
    decreases blocks.len(),
{
    if blocks.len() == 0 {
        Seq::<TransactionView>::empty()
    } else {
        transactions_of(blocks.drop_last()) + blocks.last().transactions
    }
}

/// Whether the block stored under `hash` has the height `height` and stands on blocks of
/// the heights below it, one after the other, down to a block of height 0 that has no
/// previous hash.
pub open spec fn descends(store: Seq<BlockView>, hash: Seq<char>, height: int) -> bool
    decreases height,
{
    if height < 0 || hash.len() == 0 {
        false
    } else {
        match stored(store, hash) {
            Some(block) => block.height == height && if height == 0 {
                block.prev_block_hash.len() == 0
            } else {
                descends(store, block.prev_block_hash, height - 1)
            },
            None => false,
        }
    }
}

/// A position found in the second of two sequences, as a position in their concatenation.
pub open spec fn shifted(found: Option<int>, by: int) -> Option<int> {
    match found {
        Some(k) => Some(k + by),
        None => None,
    }
}

/// A search that starts in the second of two sequences finds what a search in the second
/// alone finds.
proof fn lemma_first_with_id_in_tail(
    a: Seq<TransactionView>,
    b: Seq<TransactionView>,
    id: Seq<char>,
    from: int,
)
    requires
        0 <= from <= b.len(),
    ensures
        first_with_id(a + b, id, a.len() + from) == shifted(first_with_id(b, id, from), a.len() as int),
    decreases b.len() - from,
{
    if from < b.len() {
        assert((a + b)[a.len() + from] == b[from]);
        if b[from].id != id {
            lemma_first_with_id_in_tail(a, b, id, from + 1);
        }
    }
}

/// The first transaction with an identifier in a concatenation is the first in the first
/// part, or else the first in the second part.
pub proof fn lemma_first_with_id_concat(
    a: Seq<TransactionView>,
    b: Seq<TransactionView>,
    id: Seq<char>,
    from: int,
)
    requires
        0 <= from <= a.len(),
    ensures
        first_with_id(a + b, id, from) == match first_with_id(a, id, from) {
            Some(k) => Some(k),
            None => shifted(first_with_id(b, id, 0), a.len() as int),
        },
    decreases a.len() - from,
{
    if from < a.len() {
        assert((a + b)[from] == a[from]);
        if a[from].id != id {
            lemma_first_with_id_concat(a, b, id, from + 1);
        }
    } else {
        lemma_first_with_id_in_tail(a, b, id, 0);
    }
}

/// A position that `first_with_id` gives lies in the sequence and holds the identifier.
pub proof fn lemma_first_with_id(txs: Seq<TransactionView>, id: Seq<char>, from: int)
    requires
        0 <= from,
    ensures
        match first_with_id(txs, id, from) {
            Some(k) => from <= k < txs.len() && txs[k].id == id,
            None => forall|i: int| from <= i < txs.len() ==> (#[trigger] txs[i]).id != id,
        },
    decreases txs.len() - from,
{
    if from < txs.len() && txs[from].id != id {
        lemma_first_with_id(txs, id, from + 1);
    }
}

/// The transactions of the first `n + 1` blocks are those of the first `n` and then those
/// of the next block.
pub proof fn lemma_transactions_of_step(blocks: Seq<BlockView>, n: int)
    requires
        0 <= n < blocks.len(),
    ensures
        transactions_of(blocks.take(n + 1)) == transactions_of(blocks.take(n))
            + blocks[n].transactions,
{
    assert(blocks.take(n + 1).drop_last() =~= blocks.take(n));
}

/// The first transaction of the chain that `id` identifies.
pub open spec fn found_transaction(txs: Seq<TransactionView>, id: Seq<char>) -> Option<
    TransactionView,
> {
    match first_with_id(txs, id, 0) {
        Some(k) => Some(txs[k]),
        None => None,
    }
}

/// Whether the chain's transactions hold one for the reference of each input of `tx`.
pub open spec fn references_found(txs: Seq<TransactionView>, tx: TransactionView) -> bool {
    forall|i: int|
        0 <= i < tx.vin.len() ==> (#[trigger] found_transaction(txs, tx.vin[i].txid)) is Some
}

/// The transactions that the inputs of `tx` refer to, one for each input and in their
/// order.
pub open spec fn referenced_transactions(txs: Seq<TransactionView>, tx: TransactionView) -> Seq<
    TransactionView,
> {
    Seq::new(tx.vin.len(), |i: int| found_transaction(txs, tx.vin[i].txid).unwrap())
}

/// What signing `tx` on a chain with the transactions `txs` gives. A coinbase is left as it
/// is. Otherwise `NotFound` where an input refers to a transaction that the chain lacks, and
/// else what signing against the transactions referred to gives.
pub open spec fn chain_sign_outcome(
    txs: Seq<TransactionView>,
    tx: TransactionView,
    secret_key: Seq<u8>,
) -> Result<TransactionView, ChainError> {
    if tx.is_coinbase() {
        Ok(tx)
    } else if !references_found(txs, tx) {
        Err(ChainError::NotFound)
    } else {
        sign_outcome(tx, referenced_transactions(txs, tx), secret_key)
    }
}

/// The verdict on `tx` on a chain with the transactions `txs`. A coinbase verifies.
/// Otherwise `NotFound` where an input refers to a transaction that the chain lacks, and
/// else the verdict against the transactions referred to.
pub open spec fn chain_verify_outcome(txs: Seq<TransactionView>, tx: TransactionView) -> Result<
    bool,
    ChainError,
> {
    if tx.is_coinbase() {
        Ok(true)
    } else if !references_found(txs, tx) {
        Err(ChainError::NotFound)
    } else {
        verify_outcome(tx, referenced_transactions(txs, tx))
    }
}

/// Why the first of `candidates` from `from` on that does not verify on the chain is turned
/// down: the error of its verification, or `InvalidTx` where it is found invalid. `None`
/// where all verify.
pub open spec fn first_rejection(
    txs: Seq<TransactionView>,
    candidates: Seq<TransactionView>,
    from: int,
) -> Option<ChainError>
    decreases candidates.len() - from,
{
    if from < 0 || from >= candidates.len() {
        None
    } else {
        match chain_verify_outcome(txs, candidates[from]) {
            Err(e) => Some(e),
            Ok(false) => Some(ChainError::InvalidTx),
            Ok(true) => first_rejection(txs, candidates, from + 1),
        }
    }
}

/// Transactions that all verify are none of them turned down.
pub proof fn lemma_none_rejected(
    txs: Seq<TransactionView>,
    candidates: Seq<TransactionView>,
    from: int,
)
    requires
        0 <= from,
        forall|i: int|
            from <= i < candidates.len() ==> chain_verify_outcome(txs, #[trigger] candidates[i])
                == Ok::<bool, ChainError>(true),
    ensures
        first_rejection(txs, candidates, from) is None,
    decreases candidates.len() - from,
{
    if from < candidates.len() {
        assert(chain_verify_outcome(txs, candidates[from]) == Ok::<bool, ChainError>(true));
        lemma_none_rejected(txs, candidates, from + 1);
    }
}

/// The text that the genesis coinbase carries as its memo.
pub open spec fn genesis_memo() -> Seq<char> {
    "GENESIS_COINBASE"@
}

/// What mining `candidates` on `chain` at time `timestamp` gives: the new block and the
/// chain with it as its tip. The error that turns the first unverified candidate down;
/// `MiningAborted` where the tip has the largest height there is; else the error of mining.
pub open spec fn mine_block_outcome(
    chain: BlockchainView,
    candidates: Seq<TransactionView>,
    timestamp: u128,
) -> Result<(BlockView, BlockchainView), ChainError> {
    match first_rejection(chain.transactions(), candidates, 0) {
        Some(reason) => Err(reason),
        None => if chain.best_height() == i32::MAX {
            Err(ChainError::MiningAborted)
        } else {
            match mining_outcome(candidates, chain.tip, chain.next_height(), timestamp) {
                Ok(block) => Ok((block, chain.extended_by(block))),
                Err(e) => Err(e),
            }
        },
    }
}

/// Whether `mine_block`, which left the chain as `after`, did what `outcome` says.
pub open spec fn block_mined_as(
    mined: Result<Block, ChainError>,
    before: BlockchainView,
    after: BlockchainView,
    outcome: Result<(BlockView, BlockchainView), ChainError>,
) -> bool {
    match mined {
        Ok(block) => outcome == Ok::<(BlockView, BlockchainView), ChainError>((block@, after)),
        Err(e) => outcome == Err::<(BlockView, BlockchainView), ChainError>(e) && after == before,
    }
}

/// The chain that `create_blockchain` makes for `address` at time `timestamp`: a single
/// block, mined over the coinbase that pays `address` and carries the genesis memo.
pub open spec fn genesis_outcome(address: Seq<char>, timestamp: u128) -> Result<
    BlockchainView,
    ChainError,
> {
    match coinbase_outcome(address, genesis_memo(), Seq::new(KEY_LEN as nat, |i: int| 0u8)) {
        Ok(coinbase) => match mining_outcome(seq![coinbase], Seq::<char>::empty(), 0, timestamp) {
            Ok(block) => Ok(BlockchainView { tip: block.hash, blocks: seq![block] }),
            Err(e) => Err(e),
        },
        Err(e) => Err(e),
    }
}

/// Whether a result of `create_blockchain` and the outcome that its contract names agree.
pub open spec fn created_as(
    created: Result<Blockchain, ChainError>,
    outcome: Result<BlockchainView, ChainError>,
) -> bool {
    match created {
        Ok(chain) => outcome == Ok::<BlockchainView, ChainError>(chain@),
        Err(e) => outcome == Err::<BlockchainView, ChainError>(e),
    }
}

/// A sequence from its last to its first.
pub open spec fn reversed<A>(s: Seq<A>) -> Seq<A> {
    Seq::new(s.len(), |i: int| s[s.len() - 1 - i])
}

/// The transactions of `blocks`, block after block, those of each block from its last to
/// its first.
pub open spec fn spending_order_of(blocks: Seq<BlockView>) -> Seq<TransactionView>
    decreases blocks.len(),
{
    if blocks.len() == 0 {
        Seq::<TransactionView>::empty()
    } else {
        spending_order_of(blocks.drop_last()) + reversed(blocks.last().transactions)
    }
}

/// The transactions of the first `n + 1` blocks from the latest to the earliest are those
/// of the first `n`, and then those of the next block from its last to its first.
pub proof fn lemma_spending_order_step(blocks: Seq<BlockView>, n: int)
    requires
        0 <= n < blocks.len(),
    ensures
        spending_order_of(blocks.take(n + 1)) == spending_order_of(blocks.take(n)) + reversed(
            blocks[n].transactions,
        ),
{
    assert(blocks.take(n + 1).drop_last() =~= blocks.take(n));
}

impl BlockchainView {
    /// No two blocks share a hash, and the tip, unless it is empty, is stored.
    pub open spec fn wf(self) -> bool {
        &&& hashes_distinct(self.blocks)
        &&& self.tip.len() == 0 || stored(self.blocks, self.tip) is Some
    }

    /// The height of the tip, -1 where there is none.
    pub open spec fn best_height(self) -> int {
        if self.tip.len() == 0 {
            -1
        } else {
            match stored(self.blocks, self.tip) {
                Some(block) => block.height as int,
                None => -1,
            }
        }
    }

    /// Whether the tip stands on a block of each height below its own, down to a genesis
    /// block.
    pub open spec fn linked(self) -> bool {
        descends(self.blocks, self.tip, self.best_height())
    }

    /// The height of a block mined on the tip.
    pub open spec fn next_height(self) -> i32 {
        (self.best_height() + 1) as i32
    }

    /// The blocks from the tip to the genesis block. A walk visits no more blocks than the
    /// store holds.
    pub open spec fn chain(self) -> Seq<BlockView> {
        chain_from(self.blocks, self.tip, self.blocks.len())
    }

    /// The transactions of the chain, from the tip's first to the genesis block's last.
    pub open spec fn transactions(self) -> Seq<TransactionView> {
        transactions_of(self.chain())
    }

    /// The transactions of the chain from the latest to the earliest: block after block from
    /// the tip, those of each block from its last to its first.
    pub open spec fn spending_order(self) -> Seq<TransactionView> {
        spending_order_of(self.chain())
    }

    /// The chain after `block` came in from a peer: unchanged where its hash is stored
    /// already; else with the block stored, and as the tip where it is higher than the tip.
    /// A block without a hash is stored and never becomes the tip: an empty tip stands for a
    /// chain that has none.
    pub open spec fn with_block(self, block: BlockView) -> BlockchainView {
        if stored(self.blocks, block.hash) is Some {
            self
        } else {
            BlockchainView {
                tip: if block.height > self.best_height() && block.hash.len() > 0 {
                    block.hash
                } else {
                    self.tip
                },
                blocks: self.blocks.push(block),
            }
        }
    }

    /// The chain after `block` was mined on it: the block stored under its hash, and as the
    /// tip.
    pub open spec fn extended_by(self, block: BlockView) -> BlockchainView {
        BlockchainView { tip: block.hash, blocks: store_put(self.blocks, block) }
    }
}

impl View for Blockchain {
    type V = BlockchainView;

    closed spec fn view(&self) -> BlockchainView {
        BlockchainView { tip: self.tip@, blocks: blocks_view(self.blocks@) }
    }
}

/// `position_of_hash` finds a stored hash, and then the first block with it.
pub proof fn lemma_position_of_hash(store: Seq<BlockView>, hash: Seq<char>, from: int)
    requires
        0 <= from,
    ensures
        match position_of_hash(store, hash, from) {
            Some(k) => from <= k < store.len() && store[k].hash == hash && forall|i: int|
                from <= i < k ==> (#[trigger] store[i]).hash != hash,
            None => forall|i: int| from <= i < store.len() ==> (#[trigger] store[i]).hash != hash,
        },
    decreases store.len() - from,
{
    if from < store.len() && store[from].hash != hash {
        lemma_position_of_hash(store, hash, from + 1);
    }
}

/// Putting a block into a store of distinct hashes leaves the hashes distinct, and the
/// block stored under its hash.
pub proof fn lemma_store_put(store: Seq<BlockView>, block: BlockView)
    requires
        hashes_distinct(store),
    ensures
        hashes_distinct(store_put(store, block)),
        stored(store_put(store, block), block.hash) == Some(block),
        forall|hash: Seq<char>|
            hash != block.hash ==> #[trigger] stored(store_put(store, block), hash) == stored(
                store,
                hash,
            ),
{
    let after = store_put(store, block);
    lemma_position_of_hash(store, block.hash, 0);
    lemma_position_of_hash(after, block.hash, 0);
    assert(hashes_distinct(after)) by {
        assert forall|i: int, j: int| 0 <= i < j < after.len() implies (#[trigger] after[i]).hash
            != (#[trigger] after[j]).hash by {
            match position_of_hash(store, block.hash, 0) {
                Some(k) => {
                    assert(store[i].hash != store[j].hash);
                },
                None => {
                    if j < store.len() {
                        assert(store[i].hash != store[j].hash);
                    } else {
                        assert(store[i].hash != block.hash);
                    }
                },
            }
        }
    }
    assert forall|hash: Seq<char>| hash != block.hash implies #[trigger] stored(after, hash)
        == stored(store, hash) by {
        lemma_position_of_hash(store, hash, 0);
        lemma_position_of_hash(after, hash, 0);
        match position_of_hash(store, hash, 0) {
            Some(k) => {
                assert(after[k].hash == hash);
                match position_of_hash(after, hash, 0) {
                    Some(m) => {
                        if m < k {
                            assert(store[m].hash != hash);
                        }
                        if k < m {
                            assert(after[k].hash != hash);
                        }
                    },
                    None => {},
                }
            },
            None => {
                match position_of_hash(after, hash, 0) {
                    Some(m) => {
                        if m < store.len() {
                            assert(store[m].hash != hash);
                        }
                    },
                    None => {},
                }
            },
        }
    }
    match position_of_hash(after, block.hash, 0) {
        Some(m) => {
            match position_of_hash(store, block.hash, 0) {
                Some(k) => {
                    assert(after[k].hash == block.hash);
                    if m < k {
                        assert(store[m].hash != block.hash);
                    }
                    if k < m {
                        assert(after[k].hash != block.hash);
                    }
                },
                None => {
                    if m < store.len() {
                        assert(store[m].hash != block.hash);
                    }
                },
            }
        },
        None => {
            match position_of_hash(store, block.hash, 0) {
                Some(k) => {
                    assert(after[k].hash == block.hash);
                },
                None => {
                    assert(after[store.len() as int].hash == block.hash);
                },
            }
        },
    }
}

impl Blockchain {
    /// Every chain is well formed.
    #[verifier::type_invariant]
    pub open spec fn inv(self) -> bool {
        self@.wf()
    }

    /// The position in the store of the block with hash `hash`.
    fn position_of(&self, hash: &str) -> (found: Option<usize>)
        ensures
            match found {
                Some(k) => position_of_hash(self@.blocks, hash@, 0) == Some(k as int) && k
                    < self.blocks@.len() && self.blocks@[k as int]@ == stored(
                    self@.blocks,
                    hash@,
                ).unwrap(),
                None => position_of_hash(self@.blocks, hash@, 0) is None,
            },
    {
        let mut i: usize = 0;
        while i < self.blocks.len()
            invariant
                i <= self.blocks@.len(),
                position_of_hash(self@.blocks, hash@, 0) == position_of_hash(
                    self@.blocks,
                    hash@,
                    i as int,
                ),
            decreases self.blocks@.len() - i,
        {
            let this = self.blocks[i].get_hash();
            if str_equal(this.as_str(), hash) {
                return Some(i);
            }
            i += 1;
        }
        None
    }

    /// A chain with no blocks and no tip.
    pub fn empty() -> (chain: Blockchain)
        ensures
            chain@.tip.len() == 0,
            chain@.blocks.len() == 0,
            chain@.wf(),
    {
        Blockchain { tip: String::new(), blocks: Vec::new() }
    }

    /// The chain with `blocks` in its store and `tip` as its tip, as they were read from a
    /// store. `Corrupt` exactly when two of the blocks share a hash, or when `tip` is not
    /// empty and none of the blocks has it as its hash.
    pub fn new(tip: String, blocks: Vec<Block>) -> (opened: Result<Blockchain, ChainError>)
        ensures
            match opened {
                Ok(chain) => chain@ == (BlockchainView { tip: tip@, blocks: blocks_view(blocks@) })
                    && chain@.wf(),
                Err(e) => e == ChainError::Corrupt && !(BlockchainView {
                    tip: tip@,
                    blocks: blocks_view(blocks@),
                }).wf(),
            },
    {
        let ghost store = blocks_view(blocks@);
        let mut j: usize = 0;
        while j < blocks.len()
            invariant
                j <= blocks@.len(),
                store == blocks_view(blocks@),
                forall|a: int, b: int|
                    0 <= a < b < j ==> (#[trigger] store[a]).hash != (#[trigger] store[b]).hash,
            decreases blocks@.len() - j,
        {
            let hash_j = blocks[j].get_hash();
            let mut i: usize = 0;
            while i < j
                invariant
                    i <= j < blocks@.len(),
                    store == blocks_view(blocks@),
                    hash_j@ == store[j as int].hash,
                    forall|a: int| 0 <= a < i ==> (#[trigger] store[a]).hash != hash_j@,
                decreases j - i,
            {
                let hash_i = blocks[i].get_hash();
                if str_equal(hash_i.as_str(), hash_j.as_str()) {
                    assert(store[i as int].hash == store[j as int].hash);
                    return Err(ChainError::Corrupt);
                }
                i += 1;
            }
            j += 1;
        }
        assert(hashes_distinct(store));
        let chain = Blockchain { tip: String::new(), blocks };
        if tip.as_str().is_empty() {
            let chain = Blockchain { tip, blocks: chain.blocks };
            return Ok(chain);
        }
        match chain.position_of(tip.as_str()) {
            Some(_) => {
                let chain = Blockchain { tip, blocks: chain.blocks };
                Ok(chain)
            },
            None => Err(ChainError::Corrupt),
        }
    }

    /// The height of the tip; -1 for a chain without one.
    pub fn get_best_height(&self) -> (height: Result<i32, ChainError>)
        ensures
            height matches Ok(h) && h == self@.best_height(),
    {
        if self.tip.as_str().is_empty() {
            return Ok(-1);
        }
        match self.position_of(self.tip.as_str()) {
            Some(k) => Ok(self.blocks[k].get_height()),
            None => Ok(-1),
        }
    }

    /// The block stored under `hash`; `NotFound` exactly when there is none.
    pub fn get_block(&self, hash: &str) -> (found: Result<Block, ChainError>)
        ensures
            match found {
                Ok(block) => stored(self@.blocks, hash@) == Some(block@),
                Err(e) => e == ChainError::NotFound && stored(self@.blocks, hash@) is None,
            },
    {
        match self.position_of(hash) {
            Some(k) => Ok(self.blocks[k].clone()),
            None => Err(ChainError::NotFound),
        }
    }

    /// The hash of the tip; empty for a chain without one.
    pub fn get_tip(&self) -> (tip: String)
        ensures
            tip@ == self@.tip,
    {
        self.tip.clone()
    }

    /// The stored blocks, in the order in which they were put.
    pub fn get_blocks(&self) -> (blocks: &Vec<Block>)
        ensures
            blocks_view(blocks@) == self@.blocks,
    {
        &self.blocks
    }

    /// The positions in the store of the blocks of the chain, from the tip on.
    fn walk(&self) -> (path: Vec<usize>)
        ensures
            path@.len() == self@.chain().len(),
            forall|i: int|
                0 <= i < path@.len() ==> (#[trigger] path@[i]) < self.blocks@.len()
                    && self.blocks@[path@[i] as int]@ == self@.chain()[i],
    {
        let ghost store = self@.blocks;
        let mut path: Vec<usize> = Vec::new();
        let mut hash = self.tip.clone();
        let mut fuel: usize = self.blocks.len();
        while fuel > 0
            invariant
                store == self@.blocks,
                self@.chain().len() == path@.len() + chain_from(store, hash@, fuel as nat).len(),
                forall|i: int|
                    0 <= i < path@.len() ==> (#[trigger] path@[i]) < self.blocks@.len()
                        && self.blocks@[path@[i] as int]@ == self@.chain()[i],
                forall|i: int|
                    0 <= i < chain_from(store, hash@, fuel as nat).len() ==> self@.chain()[path@.len()
                        + i] == #[trigger] chain_from(store, hash@, fuel as nat)[i],
            decreases fuel,
        {
            if hash.as_str().is_empty() {
                return path;
            }
            match self.position_of(hash.as_str()) {
                Some(k) => {
                    let ghost rest = chain_from(store, hash@, fuel as nat);
                    let ghost next = chain_from(
                        store,
                        store[k as int].prev_block_hash,
                        (fuel - 1) as nat,
                    );
                    assert(rest == seq![store[k as int]] + next);
                    assert(rest[0] == store[k as int]);
                    assert forall|i: int| 0 <= i < next.len() implies self@.chain()[path@.len() + 1
                        + i] == #[trigger] next[i] by {
                        assert(rest[i + 1] == next[i]);
                    }
                    path.push(k);
                    hash = self.blocks[k].get_prev_hash();
                    fuel -= 1;
                },
                None => {
                    return path;
                },
            }
        }
        path
    }

    /// The hashes of the blocks of the chain, from the tip on.
    pub fn get_block_hashes(&self) -> (hashes: Vec<String>)
        ensures
            hashes@.len() == self@.chain().len(),
            forall|i: int| 0 <= i < hashes@.len() ==> (#[trigger] hashes@[i])@ == self@.chain()[i].hash,
    {
        let path = self.walk();
        let mut hashes: Vec<String> = Vec::new();
        let mut i: usize = 0;
        while i < path.len()
            invariant
                i <= path@.len(),
                path@.len() == self@.chain().len(),
                forall|k: int|
                    0 <= k < path@.len() ==> (#[trigger] path@[k]) < self.blocks@.len()
                        && self.blocks@[path@[k] as int]@ == self@.chain()[k],
                hashes@.len() == i,
                forall|k: int| 0 <= k < i ==> (#[trigger] hashes@[k])@ == self@.chain()[k].hash,
            decreases path@.len() - i,
        {
            hashes.push(self.blocks[path[i]].get_hash());
            i += 1;
        }
        hashes
    }

    /// The blocks of the chain, from the tip on.
    pub fn get_chain(&self) -> (chain: Vec<Block>)
        ensures
            blocks_view(chain@) == self@.chain(),
    {
        let path = self.walk();
        let mut chain: Vec<Block> = Vec::new();
        let mut i: usize = 0;
        while i < path.len()
            invariant
                i <= path@.len(),
                path@.len() == self@.chain().len(),
                forall|k: int|
                    0 <= k < path@.len() ==> (#[trigger] path@[k]) < self.blocks@.len()
                        && self.blocks@[path@[k] as int]@ == self@.chain()[k],
                chain@.len() == i,
                forall|k: int| 0 <= k < i ==> (#[trigger] chain@[k])@ == self@.chain()[k],
            decreases path@.len() - i,
        {
            chain.push(self.blocks[path[i]].clone());
            i += 1;
        }
        assert(blocks_view(chain@) =~= self@.chain());
        chain
    }

    /// A cursor at the tip.
    pub fn iter(&self) -> (cursor: BlockchainIterator<'_>)
        ensures
            cursor.remaining() == self@.chain(),
            cursor.chain() == self@,
    {
        BlockchainIterator { tip: self.tip.clone(), left: self.blocks.len(), bc: self }
    }

    /// The first transaction of the chain, from the tip's first on, that `id` identifies;
    /// `NotFound` exactly when there is none.
    pub fn find_transaction(&self, id: &str) -> (found: Result<Transaction, ChainError>)
        ensures
            match found {
                Ok(tx) => found_transaction(self@.transactions(), id@) == Some(tx@),
                Err(e) => e == ChainError::NotFound && found_transaction(
                    self@.transactions(),
                    id@,
                ) is None,
            },
    {
        let path = self.walk();
        let ghost chain = self@.chain();
        let mut i: usize = 0;
        while i < path.len()
            invariant
                i <= path@.len(),
                chain == self@.chain(),
                path@.len() == chain.len(),
                forall|k: int|
                    0 <= k < path@.len() ==> (#[trigger] path@[k]) < self.blocks@.len()
                        && self.blocks@[path@[k] as int]@ == chain[k],
                first_with_id(transactions_of(chain.take(i as int)), id@, 0) is None,
            decreases path@.len() - i,
        {
            let block = &self.blocks[path[i]];
            let txs = block.get_transactions();
            proof {
                lemma_transactions_of_step(chain, i as int);
                lemma_first_with_id_concat(
                    transactions_of(chain.take(i as int)),
                    chain[i as int].transactions,
                    id@,
                    0,
                );
            }
            match crate::transaction::find_by_id(txs, id) {
                Some(j) => {
                    let tx = txs[j].clone();
                    proof {
                        let before = transactions_of(chain.take(i as int));
                        let upto = transactions_of(chain.take(i + 1));
                        assert(first_with_id(upto, id@, 0) == Some(before.len() + j));
                        assert(upto[before.len() + j] == chain[i as int].transactions[j as int]);
                        assert(chain =~= chain.take(i + 1) + chain.skip(i + 1));
                        lemma_transactions_of_concat(chain.take(i + 1), chain.skip(i + 1));
                        lemma_first_with_id(upto, id@, 0);
                        lemma_first_with_id_concat(
                            upto,
                            transactions_of(chain.skip(i + 1)),
                            id@,
                            0,
                        );
                    }
                    return Ok(tx);
                },
                None => {},
            }
            i += 1;
        }
        assert(chain.take(path@.len() as int) =~= chain);
        Err(ChainError::NotFound)
    }

    /// The transactions that the inputs of `tx` refer to, one for each input and in their
    /// order; `NotFound` exactly when the chain lacks one of them.
    pub fn get_prev_tx_map(&self, tx: &Transaction) -> (prev: Result<Vec<Transaction>, ChainError>)
        ensures
            match prev {
                Ok(found) => references_found(self@.transactions(), tx@) && transactions_view(
                    found@,
                ) == referenced_transactions(self@.transactions(), tx@),
                Err(e) => e == ChainError::NotFound && !references_found(
                    self@.transactions(),
                    tx@,
                ),
            },
    {
        let ghost txs = self@.transactions();
        let mut found: Vec<Transaction> = Vec::new();
        let mut i: usize = 0;
        while i < tx.vin.len()
            invariant
                i <= tx.vin@.len(),
                txs == self@.transactions(),
                found@.len() == i,
                forall|k: int|
                    0 <= k < i ==> (#[trigger] found_transaction(txs, tx@.vin[k].txid)) is Some,
                forall|k: int|
                    0 <= k < i ==> (#[trigger] found@[k])@ == found_transaction(
                        txs,
                        tx@.vin[k].txid,
                    ).unwrap(),
            decreases tx.vin@.len() - i,
        {
            match self.find_transaction(tx.vin[i].txid.as_str()) {
                Ok(prev_tx) => {
                    found.push(prev_tx);
                },
                Err(e) => {
                    assert(found_transaction(txs, tx@.vin[i as int].txid) is None);
                    return Err(e);
                },
            }
            i += 1;
        }
        assert(transactions_view(found@) =~= referenced_transactions(txs, tx@));
        Ok(found)
    }

    /// Signs `tx` with `private_key`, against the transactions of the chain that its inputs
    /// refer to. On an error `tx` is unchanged.
    pub fn sign_transaction(&self, tx: &mut Transaction, private_key: &[u8]) -> (done: Result<
        (),
        ChainError,
    >)
        requires
            private_key@.len() == SIGNATURE_LEN,
        ensures
            match done {
                Ok(_) => chain_sign_outcome(self@.transactions(), old(tx)@, private_key@) == Ok::<
                    TransactionView,
                    ChainError,
                >(final(tx)@),
                Err(e) => chain_sign_outcome(self@.transactions(), old(tx)@, private_key@)
                    == Err::<TransactionView, ChainError>(e) && final(tx)@ == old(tx)@,
            },
    {
        if tx.is_coinbase() {
            return Ok(());
        }
        let prev_txs = match self.get_prev_tx_map(tx) {
            Ok(prev_txs) => prev_txs,
            Err(e) => {
                return Err(e);
            },
        };
        tx.sign(private_key, &prev_txs)
    }

    /// Verifies `tx` against the transactions of the chain that its inputs refer to.
    pub fn verify_transaction(&self, tx: &Transaction) -> (verdict: Result<bool, ChainError>)
        ensures
            verdict == chain_verify_outcome(self@.transactions(), tx@),
    {
        if tx.is_coinbase() {
            return Ok(true);
        }
        let prev_txs = match self.get_prev_tx_map(tx) {
            Ok(prev_txs) => prev_txs,
            Err(e) => {
                return Err(e);
            },
        };
        tx.verify(&prev_txs)
    }

    /// Why the first of `transactions` that does not verify is turned down.
    fn reject(&self, transactions: &Vec<Transaction>) -> (reason: Option<ChainError>)
        ensures
            reason == first_rejection(self@.transactions(), transactions_view(transactions@), 0),
    {
        let ghost txs = self@.transactions();
        let ghost candidates = transactions_view(transactions@);
        let mut i: usize = 0;
        while i < transactions.len()
            invariant
                i <= transactions@.len(),
                txs == self@.transactions(),
                candidates == transactions_view(transactions@),
                first_rejection(txs, candidates, 0) == first_rejection(txs, candidates, i as int),
            decreases transactions@.len() - i,
        {
            match self.verify_transaction(&transactions[i]) {
                Ok(true) => {},
                Ok(false) => {
                    return Some(ChainError::InvalidTx);
                },
                Err(e) => {
                    return Some(e);
                },
            }
            i += 1;
        }
        None
    }

    /// Verifies `transactions`, mines a block over them on top of the tip, and makes it the
    /// tip. On an error the chain is unchanged. `Clock` where the system clock is set before
    /// the epoch, which is found only after all of `transactions` have verified and the tip
    /// has left room for a height; otherwise what `mine_block_outcome` says for the time
    /// that was read.
    pub fn mine_block(&mut self, transactions: Vec<Transaction>) -> (mined: Result<
        Block,
        ChainError,
    >)
        ensures
            final(self)@.wf(),
            mined matches Ok(block) ==> block@.is_mined() && block@.hash.len()
                == crate::primitives::HASH_HEX_LEN,
            mined matches Ok(block) ==> (old(self)@.linked() && stored(
                old(self)@.blocks,
                block@.hash,
            ) is None ==> final(self)@.linked()),
            (mined matches Err(e) && e == ChainError::Clock && final(self)@ == old(self)@
                && first_rejection(
                old(self)@.transactions(),
                transactions_view(transactions@),
                0,
            ) is None && old(self)@.best_height() < i32::MAX) || exists|timestamp: u128|
                block_mined_as(
                    mined,
                    old(self)@,
                    final(self)@,
                    mine_block_outcome(old(self)@, transactions_view(transactions@), timestamp),
                ),
    {
        proof {
            use_type_invariant(&*self);
        }
        let ghost before = self@;
        let ghost candidates = transactions_view(transactions@);
        match self.reject(&transactions) {
            Some(reason) => {
                assert(block_mined_as(
                    Err(reason),
                    before,
                    before,
                    mine_block_outcome(before, candidates, 0),
                ));
                return Err(reason);
            },
            None => {},
        }
        let best = match self.get_best_height() {
            Ok(h) => h,
            Err(_) => -1,
        };
        if best == i32::MAX {
            assert(block_mined_as(
                Err(ChainError::MiningAborted),
                before,
                before,
                mine_block_outcome(before, candidates, 0),
            ));
            return Err(ChainError::MiningAborted);
        }
        let made = Block::new(transactions, self.tip.clone(), best + 1);
        let ghost stamp = choose|timestamp: u128|
            mined_as(made, mining_outcome(candidates, before.tip, before.next_height(), timestamp));
        let new_block = match made {
            Ok(block) => block,
            Err(e) => {
                if e != ChainError::Clock {
                    assert(block_mined_as(
                        Err(e),
                        before,
                        before,
                        mine_block_outcome(before, candidates, stamp),
                    ));
                }
                return Err(e);
            },
        };
        let stored_block = new_block.clone();
        proof {
            lemma_store_put(before.blocks, new_block@);
            lemma_position_of_hash(before.blocks, new_block@.hash, 0);
        }
        let tip = new_block.get_hash();
        let place = self.position_of(tip.as_str());
        let mut blocks = take_blocks(self);
        match place {
            Some(k) => {
                blocks.set(k, stored_block);
                assert(blocks_view(blocks@) =~= store_put(before.blocks, new_block@));
            },
            None => {
                blocks.push(stored_block);
                assert(blocks_view(blocks@) =~= store_put(before.blocks, new_block@));
            },
        }
        *self = Blockchain { tip, blocks };
        proof {
            if before.linked() && stored(before.blocks, new_block@.hash) is None {
                lemma_mined_block_keeps_linked(before, new_block@);
            }
        }
        assert(block_mined_as(
            Ok(new_block),
            before,
            self@,
            mine_block_outcome(before, candidates, stamp),
        ));
        Ok(new_block)
    }

    /// A new chain whose genesis block pays the subsidy to `address`. The error of making
    /// the coinbase comes first: `Corrupt` for an address that is no Base58 address. Then
    /// `Clock` where the system clock is set before the epoch; otherwise what
    /// `genesis_outcome` says for the time that was read.
    pub fn create_blockchain(address: String) -> (created: Result<Blockchain, ChainError>)
        ensures
            created matches Ok(chain) ==> chain@.wf() && chain@.linked() && chain@.blocks.len()
                == 1 && chain@.blocks[0].is_mined(),
            (created matches Err(e) && e == ChainError::Clock && coinbase_outcome(
                address@,
                genesis_memo(),
                Seq::new(KEY_LEN as nat, |i: int| 0u8),
            ) is Ok) || exists|timestamp: u128|
                created_as(created, genesis_outcome(address@, timestamp)),
    {
        proof {
            reveal_strlit("GENESIS_COINBASE");
        }
        let memo = String::from_str("GENESIS_COINBASE");
        let cbtx = match Transaction::new_coinbase(address, memo) {
            Ok(cbtx) => cbtx,
            Err(e) => {
                assert(created_as(Err(e), genesis_outcome(address@, 0)));
                return Err(e);
            },
        };
        let ghost coinbase = cbtx@;
        let made = Block::new_genesis_block(cbtx);
        let ghost stamp = choose|timestamp: u128|
            mined_as(made, mining_outcome(seq![coinbase], Seq::<char>::empty(), 0, timestamp));
        let genesis = match made {
            Ok(genesis) => genesis,
            Err(e) => {
                if e != ChainError::Clock {
                    assert(created_as(Err(e), genesis_outcome(address@, stamp)));
                }
                return Err(e);
            },
        };
        let tip = genesis.get_hash();
        let ghost view = genesis@;
        let blocks = vec![genesis];
        proof {
            assert(blocks_view(blocks@) =~= seq![view]);
            let store = blocks_view(blocks@);
            assert(position_of_hash(store, view.hash, 0) == Some(0int));
        }
        let chain = Blockchain { tip, blocks };
        assert(created_as(Ok(chain), genesis_outcome(address@, stamp)));
        Ok(chain)
    }

    /// The transactions of the chain, from the latest to the earliest.
    fn spending_transactions(&self) -> (txs: Vec<&Transaction>)
        ensures
            txs@.map_values(|tx: &Transaction| tx@) == self@.spending_order(),
    {
        let path = self.walk();
        let ghost chain = self@.chain();
        let mut all: Vec<&Transaction> = Vec::new();
        let mut i: usize = 0;
        while i < path.len()
            invariant
                i <= path@.len(),
                chain == self@.chain(),
                path@.len() == chain.len(),
                forall|k: int|
                    0 <= k < path@.len() ==> (#[trigger] path@[k]) < self.blocks@.len()
                        && self.blocks@[path@[k] as int]@ == chain[k],
                all@.map_values(|tx: &Transaction| tx@) == spending_order_of(
                    chain.take(i as int),
                ),
            decreases path@.len() - i,
        {
            let txs = self.blocks[path[i]].get_transactions();
            let ghost before = all@.map_values(|tx: &Transaction| tx@);
            let ghost turned = reversed(transactions_view(txs@));
            proof {
                lemma_spending_order_step(chain, i as int);
            }
            let count: usize = txs.len();
            let mut t: usize = 0;
            while t < count
                invariant
                    t <= count,
                    count == txs@.len(),
                    turned == reversed(transactions_view(txs@)),
                    all@.map_values(|tx: &Transaction| tx@) == before + turned.take(t as int),
                decreases count - t,
            {
                let ghost sofar = all@;
                all.push(&txs[count - 1 - t]);
                assert(all@.map_values(|tx: &Transaction| tx@) =~= sofar.map_values(
                    |tx: &Transaction| tx@,
                ).push(txs@[count - 1 - t]@));
                assert(turned.take(t + 1) =~= turned.take(t as int).push(txs@[count - 1 - t]@));
                assert(all@.map_values(|tx: &Transaction| tx@) =~= before + turned.take(t + 1));
                t += 1;
            }
            assert(turned.take(count as int) =~= turned);
            i += 1;
        }
        assert(chain.take(path@.len() as int) =~= chain);
        all
    }

    /// The unspent outputs of the chain, by transaction identifier: one entry for each
    /// transaction that has any, in no stated order. An output is unspent where no input of
    /// a later transaction, no coinbase, refers to it; each comes with its number.
    #[allow(non_snake_case)]
    pub fn find_UTXO(&self) -> (entries: Vec<(String, crate::utxoset::UnspentOutputs)>)
        ensures
            crate::assoc::keys_distinct(crate::utxoset::entries_view(entries@)),
            crate::assoc::entries_map(crate::utxoset::entries_view(entries@))
                == crate::utxoset::utxo_of(self@.spending_order()),
            crate::utxoset::entries_total(
                crate::utxoset::entries_view(entries@),
                entries@.len() as int,
            ) == crate::utxoset::unspent_total(
                self@.spending_order(),
                self@.spending_order().len() as int,
            ),
    {
        let all = self.spending_transactions();
        crate::utxoset::unspent_of(&all)
    }

    /// Takes a block that came from a peer. A block whose hash is stored already changes
    /// nothing. Any other is stored, and becomes the tip where it is higher than the tip and
    /// has a hash.
    pub fn add_block(&mut self, block: Block) -> (done: Result<(), ChainError>)
        ensures
            done is Ok,
            final(self)@ == old(self)@.with_block(block@),
            final(self)@.wf(),
    {
        proof {
            use_type_invariant(&*self);
        }
        let hash = block.get_hash();
        if self.position_of(hash.as_str()).is_some() {
            return Ok(());
        }
        let last_height = match self.get_best_height() {
            Ok(h) => h,
            Err(_) => -1,
        };
        let higher = block.get_height() > last_height && !hash.as_str().is_empty();
        let ghost before = self@;
        proof {
            lemma_position_of_hash(before.blocks, block@.hash, 0);
            lemma_store_put(before.blocks, block@);
            assert(store_put(before.blocks, block@) == before.blocks.push(block@));
            if before.tip.len() > 0 {
                assert(before.tip != block@.hash);
            }
            assert(blocks_view(self.blocks@.push(block)) =~= before.blocks.push(block@));
        }
        let tip = if higher {
            hash
        } else {
            self.tip.clone()
        };
        let mut blocks = take_blocks(self);
        blocks.push(block);
        *self = Blockchain { tip, blocks };
        Ok(())
    }
}

/// A transaction that is signed on a chain with a secret key verifies on that chain, when
/// each input carries a public key for which that secret key signs.
pub proof fn lemma_signed_on_chain_verifies(
    txs: Seq<TransactionView>,
    tx: TransactionView,
    secret_key: Seq<u8>,
    public_key: Seq<u8>,
)
    requires
        chain_sign_outcome(txs, tx, secret_key) is Ok,
        forall|i: int| 0 <= i < tx.vin.len() ==> (#[trigger] tx.vin[i]).pub_key == public_key,
    ensures
        keys_agree(secret_key, public_key) ==> chain_verify_outcome(
            txs,
            chain_sign_outcome(txs, tx, secret_key).unwrap(),
        ) == Ok::<bool, ChainError>(true),
{
    if !tx.is_coinbase() {
        let prev = referenced_transactions(txs, tx);
        let done = signed(tx, prev, secret_key);
        assert(chain_sign_outcome(txs, tx, secret_key) == Ok::<TransactionView, ChainError>(done));
        assert(!done.is_coinbase());
        assert(references_found(txs, done)) by {
            assert forall|i: int| 0 <= i < done.vin.len() implies (#[trigger] found_transaction(
                txs,
                done.vin[i].txid,
            )) is Some by {
                assert(found_transaction(txs, tx.vin[i].txid) is Some);
            }
        }
        assert(referenced_transactions(txs, done) =~= prev);
        lemma_signed_transaction_verifies(tx, prev, secret_key, public_key);
    }
}

/// A block is stored at the place of its hash, and nowhere else.
pub proof fn lemma_stored_at(store: Seq<BlockView>, at: int)
    requires
        hashes_distinct(store),
        0 <= at < store.len(),
    ensures
        position_of_hash(store, store[at].hash, 0) == Some(at),
        stored(store, store[at].hash) == Some(store[at]),
{
    lemma_position_of_hash(store, store[at].hash, 0);
    let found = position_of_hash(store, store[at].hash, 0);
    if found is Some && found.unwrap() < at {
        assert(store[found.unwrap()].hash != store[at].hash);
    }
}

/// Taking a block out of the store leaves every other block stored under its hash.
pub proof fn lemma_stored_after_remove(store: Seq<BlockView>, at: int, hash: Seq<char>)
    requires
        hashes_distinct(store),
        0 <= at < store.len(),
        hash != store[at].hash,
    ensures
        hashes_distinct(store.remove(at)),
        stored(store.remove(at), hash) == stored(store, hash),
{
    let after = store.remove(at);
    assert(hashes_distinct(after)) by {
        assert forall|i: int, j: int| 0 <= i < j < after.len() implies (#[trigger] after[i]).hash
            != (#[trigger] after[j]).hash by {
            let a = if i < at {
                i
            } else {
                i + 1
            };
            let b = if j < at {
                j
            } else {
                j + 1
            };
            assert(store[a].hash != store[b].hash);
        }
    }
    lemma_position_of_hash(store, hash, 0);
    lemma_position_of_hash(after, hash, 0);
    match position_of_hash(store, hash, 0) {
        Some(m) => {
            let a = if m < at {
                m
            } else {
                m - 1
            };
            assert(after[a] == store[m]);
            lemma_stored_at(after, a);
        },
        None => {
            match position_of_hash(after, hash, 0) {
                Some(m) => {
                    let a = if m < at {
                        m
                    } else {
                        m + 1
                    };
                    assert(after[m] == store[a]);
                    assert(store[a].hash != hash);
                },
                None => {},
            }
        },
    }
}

/// A descent does not pass through a block that is higher than its start.
proof fn lemma_descends_without(store: Seq<BlockView>, at: int, hash: Seq<char>, height: int)
    requires
        hashes_distinct(store),
        0 <= at < store.len(),
        descends(store, hash, height),
        store[at].height > height,
    ensures
        descends(store.remove(at), hash, height),
    decreases height,
{
    let block = stored(store, hash).unwrap();
    lemma_stored_at(store, at);
    assert(hash != store[at].hash);
    lemma_stored_after_remove(store, at, hash);
    if height > 0 {
        lemma_descends_without(store, at, block.prev_block_hash, height - 1);
    }
}

/// A store holds at least as many blocks as a descent through it passes.
pub proof fn lemma_descent_fits(store: Seq<BlockView>, hash: Seq<char>, height: int)
    requires
        hashes_distinct(store),
        descends(store, hash, height),
    ensures
        height + 1 <= store.len(),
    decreases height,
{
    lemma_position_of_hash(store, hash, 0);
    let at = position_of_hash(store, hash, 0).unwrap();
    if height > 0 {
        let block = store[at];
        lemma_descends_without(store, at, block.prev_block_hash, height - 1);
        lemma_stored_at(store, at);
        lemma_stored_after_remove(store, at, block.prev_block_hash);
        lemma_descent_fits(store.remove(at), block.prev_block_hash, height - 1);
    }
}

/// A walk with fuel enough along a descent visits one block of each height, from the
/// height of its start down to 0, and ends at a block without a previous hash.
pub proof fn lemma_walk_along_descent(
    store: Seq<BlockView>,
    hash: Seq<char>,
    height: int,
    fuel: nat,
)
    requires
        descends(store, hash, height),
        fuel >= height + 1,
    ensures
        chain_from(store, hash, fuel).len() == height + 1,
        forall|i: int|
            0 <= i <= height ==> (#[trigger] chain_from(store, hash, fuel)[i]).height == height
                - i,
        chain_from(store, hash, fuel)[height].prev_block_hash.len() == 0,
    decreases height,
{
    let block = stored(store, hash).unwrap();
    let walk = chain_from(store, hash, fuel);
    let rest = chain_from(store, block.prev_block_hash, (fuel - 1) as nat);
    assert(walk == seq![block] + rest);
    if height == 0 {
        assert(rest.len() == 0);
    } else {
        lemma_walk_along_descent(store, block.prev_block_hash, height - 1, (fuel - 1) as nat);
        assert forall|i: int| 0 <= i <= height implies (#[trigger] walk[i]).height == height
            - i by {
            if i > 0 {
                assert(walk[i] == rest[i - 1]);
            }
        }
        assert(walk[height] == rest[height - 1]);
    }
}

/// On a linked chain, the walk from the tip to the genesis block meets heights that fall
/// by one from block to block, and ends at height 0 with no previous hash.
pub proof fn lemma_linked_chain_descends(chain: BlockchainView)
    requires
        chain.wf(),
        chain.linked(),
    ensures
        chain.chain().len() == chain.best_height() + 1,
        forall|i: int|
            0 <= i < chain.chain().len() ==> (#[trigger] chain.chain()[i]).height
                == chain.best_height() - i,
        forall|i: int, j: int|
            0 <= i < j < chain.chain().len() ==> (#[trigger] chain.chain()[i]).height > (
            #[trigger] chain.chain()[j]).height,
        chain.chain().last().height == 0,
        chain.chain().last().prev_block_hash.len() == 0,
{
    lemma_descent_fits(chain.blocks, chain.tip, chain.best_height());
    lemma_walk_along_descent(chain.blocks, chain.tip, chain.best_height(), chain.blocks.len());
}

/// A descent stays one when a block with a hash that is not yet stored joins the store.
pub proof fn lemma_descends_with(
    store: Seq<BlockView>,
    block: BlockView,
    hash: Seq<char>,
    height: int,
)
    requires
        hashes_distinct(store),
        stored(store, block.hash) is None,
        descends(store, hash, height),
    ensures
        descends(store.push(block), hash, height),
    decreases height,
{
    lemma_position_of_hash(store, block.hash, 0);
    lemma_store_put(store, block);
    assert(store_put(store, block) == store.push(block));
    assert(hash != block.hash);
    if height > 0 {
        lemma_descends_with(
            store,
            block,
            stored(store, hash).unwrap().prev_block_hash,
            height - 1,
        );
    }
}

/// A linked chain stays linked when a block is mined on its tip, where the hash of the
/// block is not stored already.
pub proof fn lemma_mined_block_keeps_linked(chain: BlockchainView, block: BlockView)
    requires
        chain.wf(),
        chain.linked(),
        block.prev_block_hash == chain.tip,
        block.height == chain.best_height() + 1,
        block.hash.len() > 0,
        stored(chain.blocks, block.hash) is None,
    ensures
        chain.extended_by(block).wf(),
        chain.extended_by(block).linked(),
{
    lemma_position_of_hash(chain.blocks, block.hash, 0);
    lemma_store_put(chain.blocks, block);
    assert(store_put(chain.blocks, block) == chain.blocks.push(block));
    lemma_descends_with(chain.blocks, block, chain.tip, chain.best_height());
}

/// Whether `block` stands on blocks of the store of each height below its own, down to a
/// genesis block: on the main chain or on a side branch.
pub open spec fn stands_on(store: Seq<BlockView>, block: BlockView) -> bool {
    &&& block.hash.len() > 0
    &&& block.height >= 0
    &&& if block.height == 0 {
        block.prev_block_hash.len() == 0
    } else {
        descends(store, block.prev_block_hash, block.height - 1)
    }
}

/// A linked chain stays linked when a block comes in from a peer, where the block is no
/// higher than the tip, or stands on stored blocks down to a genesis block: be it on the
/// tip or on a side branch that is then the longer one.
pub proof fn lemma_added_block_keeps_linked(chain: BlockchainView, block: BlockView)
    requires
        chain.wf(),
        chain.linked(),
        block.height <= chain.best_height() || stands_on(chain.blocks, block),
    ensures
        chain.with_block(block).wf(),
        chain.with_block(block).linked(),
{
    if stored(chain.blocks, block.hash) is None {
        lemma_position_of_hash(chain.blocks, block.hash, 0);
        lemma_store_put(chain.blocks, block);
        assert(store_put(chain.blocks, block) == chain.blocks.push(block));
        lemma_descends_with(chain.blocks, block, chain.tip, chain.best_height());
        if block.height > chain.best_height() && block.hash.len() > 0 {
            if block.height > 0 {
                lemma_descends_with(
                    chain.blocks,
                    block,
                    block.prev_block_hash,
                    block.height - 1,
                );
            }
        } else {
            assert(chain.tip != block.hash);
        }
    }
}

/// A chain whose tip stands on stored blocks down to a genesis block is linked, in
/// whatever order its blocks came in.
pub proof fn lemma_chain_on_descent_is_linked(chain: BlockchainView)
    requires
        chain.wf(),
        chain.tip.len() > 0,
        stands_on(chain.blocks, stored(chain.blocks, chain.tip).unwrap()),
    ensures
        chain.linked(),
{
    lemma_position_of_hash(chain.blocks, chain.tip, 0);
}

/// The transactions of two runs of blocks, one after the other.
pub proof fn lemma_transactions_of_concat(a: Seq<BlockView>, b: Seq<BlockView>)
    ensures
        transactions_of(a + b) == transactions_of(a) + transactions_of(b),
    decreases b.len(),
{
    if b.len() == 0 {
        assert(a + b =~= a);
        assert(transactions_of(a) + transactions_of(b) =~= transactions_of(a));
    } else {
        assert((a + b).drop_last() =~= a + b.drop_last());
        lemma_transactions_of_concat(a, b.drop_last());
        assert(transactions_of(a + b) =~= transactions_of(a) + transactions_of(b));
    }
}

impl<'a> BlockchainIterator<'a> {
    /// The blocks that the cursor has yet to give.
    pub closed spec fn remaining(&self) -> Seq<BlockView> {
        chain_from(self.bc@.blocks, self.tip@, self.left as nat)
    }

    /// The chain that the cursor walks.
    pub closed spec fn chain(&self) -> BlockchainView {
        self.bc@
    }

    /// The next block towards the genesis block; `None` at the end of the chain.
    pub fn next(&mut self) -> (block: Option<Block>)
        ensures
            final(self).chain() == old(self).chain(),
            match block {
                Some(b) => old(self).remaining() == seq![b@] + final(self).remaining(),
                None => old(self).remaining().len() == 0 && final(self).remaining().len() == 0,
            },
    {
        if self.left == 0 || self.tip.as_str().is_empty() {
            return None;
        }
        match self.bc.position_of(self.tip.as_str()) {
            Some(k) => {
                let block = self.bc.blocks[k].clone();
                self.tip = block.get_prev_hash();
                self.left = self.left - 1;
                Some(block)
            },
            None => None,
        }
    }
}

/// The blocks of a chain, which is left empty.
fn take_blocks(chain: &mut Blockchain) -> (blocks: Vec<Block>)
    ensures
        blocks@ == old(chain).blocks@,
{
    let mut rest = Blockchain::empty();
    std::mem::swap(chain, &mut rest);
    rest.blocks
}

} // verus!
