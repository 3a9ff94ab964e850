use crate::config::TARGET_HEXS;
use crate::error::ChainError;
use crate::primitives::{
    hashable, hex_of, now_ms, sha256, sha256_digest, sha256_hex, HASH_HEX_LEN, SHA256_LEN,
};
use crate::transaction::{clone_transactions, transactions_view, Transaction, TransactionView};
use vstd::prelude::*;
use vstd::string::StrSliceExecFns;

verus! {

/// A mined block: transactions, the hash of the block before it, and the nonce that gives
/// its own hash the required leading zeros.
#[derive(Debug)]
pub struct Block {
    timestamp: u128,
    transactions: Vec<Transaction>,
    prev_block_hash: String,
    hash: String,
    height: i32,
    nonce: i32,
}

/// What a `Block` holds, as mathematical values.
pub struct BlockView {
    pub timestamp: u128,
    pub transactions: Seq<TransactionView>,
    pub prev_block_hash: Seq<char>,
    pub hash: Seq<char>,
    pub height: i32,
    pub nonce: i32,
}

impl View for Block {
    type V = BlockView;

    closed spec fn view(&self) -> BlockView {
        BlockView {
            timestamp: self.timestamp,
            transactions: transactions_view(self.transactions@),
            prev_block_hash: self.prev_block_hash@,
            hash: self.hash@,
            height: self.height,
            nonce: self.nonce,
        }
    }
}

/// The bytes that `bincode` writes for the tuple that a block's hash is taken of; `None`
/// where it reports an error.
pub uninterp spec fn header_image(
    prev_block_hash: Seq<char>,
    merkle_root: Seq<u8>,
    timestamp: u128,
    target: usize,
    nonce: i32,
) -> Option<Seq<u8>>;

/// Calls `bincode::serialize` on the tuple of the previous hash, the Merkle root, the
/// timestamp, the target and the nonce. Claims that it succeeds exactly where the named
/// image exists, and that the bytes returned are that image.
#[verifier::external_body]
fn serialize_header(
    prev_block_hash: &str,
    merkle_root: &Vec<u8>,
    timestamp: u128,
    target: usize,
    nonce: i32,
) -> (image: Result<Vec<u8>, Box<bincode::ErrorKind>>)
    ensures
        match image {
            Ok(bytes) => header_image(prev_block_hash@, merkle_root@, timestamp, target, nonce)
                == Some(bytes@),
            Err(_) => header_image(prev_block_hash@, merkle_root@, timestamp, target, nonce)
                is None,
        },
{
    bincode::serialize(&(prev_block_hash, merkle_root, timestamp, target, nonce))
}

/// The parent of two nodes of the Merkle tree: the SHA-256 of the left followed by the
/// right.
pub open spec fn merkle_parent(left: Seq<u8>, right: Seq<u8>) -> Seq<u8> {
    sha256_digest(left + right)
}

/// The level above `level`: the parents of its nodes taken in pairs, the last node paired
/// with itself where their number is odd.
pub open spec fn merkle_level_up(level: Seq<Seq<u8>>) -> Seq<Seq<u8>> {
    Seq::new(
        ((level.len() + 1) / 2) as nat,
        |i: int|
            merkle_parent(
                level[2 * i],
                if 2 * i + 1 < level.len() {
                    level[2 * i + 1]
                } else {
                    level[2 * i]
                },
            ),
    )
}

/// The root above `level`: its only node, or the root above the next level. No bytes at all
/// for no nodes.
pub open spec fn merkle_fold(level: Seq<Seq<u8>>) -> Seq<u8>
    decreases level.len(),
{
    if level.len() == 0 {
        Seq::<u8>::empty()
    } else if level.len() == 1 {
        level[0]
    } else {
        merkle_fold(merkle_level_up(level))
    }
}

/// The leaves of the Merkle tree of `txs`: the SHA-256 of the bytes of each identifier.
pub open spec fn merkle_leaves(txs: Seq<TransactionView>) -> Seq<Seq<u8>> {
    Seq::new(txs.len(), |i: int| sha256_digest(vstd::utf8::encode_utf8(txs[i].id)))
}

/// The Merkle root of `txs`.
pub open spec fn merkle_root(txs: Seq<TransactionView>) -> Seq<u8> {
    merkle_fold(merkle_leaves(txs))
}

/// Whether every identifier in `txs` can be hashed.
pub open spec fn leaves_hashable(txs: Seq<TransactionView>) -> bool {
    forall|i: int| 0 <= i < txs.len() ==> hashable(vstd::utf8::encode_utf8((#[trigger] txs[i]).id))
}

/// Whether a hash in hexadecimal meets the target: it begins with `TARGET_HEXS` zeros.
pub open spec fn meets_target(hash: Seq<char>) -> bool {
    &&& hash.len() >= TARGET_HEXS
    &&& forall|i: int| 0 <= i < TARGET_HEXS ==> hash[i] == '0'
}

/// The hash of a block with the given header fields: the SHA-256, in hexadecimal, of the
/// header's image. `None` where the image does not exist or is too long to hash.
pub open spec fn header_hash(
    prev_block_hash: Seq<char>,
    merkle_root: Seq<u8>,
    timestamp: u128,
    nonce: i32,
) -> Option<Seq<char>> {
    match header_image(prev_block_hash, merkle_root, timestamp, TARGET_HEXS, nonce) {
        Some(image) => if hashable(image) {
            Some(hex_of(sha256_digest(image)))
        } else {
            None
        },
        None => None,
    }
}

/// The search for a nonce from `from` upwards: the first nonce whose header hash meets the
/// target. `Corrupt` where a header before it has no hash, `MiningAborted` where no nonce up
/// to the largest does.
pub open spec fn nonce_search(
    prev_block_hash: Seq<char>,
    merkle_root: Seq<u8>,
    timestamp: u128,
    from: int,
) -> Result<i32, ChainError>
    decreases i32::MAX - from + 1,
{
    if from < 0 || from > i32::MAX {
        Err(ChainError::MiningAborted)
    } else {
        match header_hash(prev_block_hash, merkle_root, timestamp, from as i32) {
            None => Err(ChainError::Corrupt),
            Some(hash) => if meets_target(hash) {
                Ok(from as i32)
            } else {
                nonce_search(prev_block_hash, merkle_root, timestamp, from + 1)
            },
        }
    }
}

impl BlockView {
    /// The proof-of-work predicate: the block's hash is the hash of its header, and meets the
    /// target.
    pub open spec fn is_mined(self) -> bool {
        &&& leaves_hashable(self.transactions)
        &&& header_hash(
            self.prev_block_hash,
            merkle_root(self.transactions),
            self.timestamp,
            self.nonce,
        ) == Some(self.hash)
        &&& meets_target(self.hash)
    }
}

/// What mining gives for the transactions, previous hash, height and timestamp: the block
/// with the first nonce that meets the target. `Corrupt` where an identifier cannot be
/// hashed, and otherwise where the search for a nonce fails, with its error.
pub open spec fn mining_outcome(
    txs: Seq<TransactionView>,
    prev_block_hash: Seq<char>,
    height: i32,
    timestamp: u128,
) -> Result<BlockView, ChainError> {
    if !leaves_hashable(txs) {
        Err(ChainError::Corrupt)
    } else {
        match nonce_search(prev_block_hash, merkle_root(txs), timestamp, 0) {
            Ok(nonce) => Ok(
                BlockView {
                    timestamp,
                    transactions: txs,
                    prev_block_hash,
                    hash: header_hash(prev_block_hash, merkle_root(txs), timestamp, nonce).unwrap(),
                    height,
                    nonce,
                },
            ),
            Err(e) => Err(e),
        }
    }
}

/// Whether a result of mining and the outcome that its contract names agree.
pub open spec fn mined_as(made: Result<Block, ChainError>, outcome: Result<BlockView, ChainError>) -> bool {
    match made {
        Ok(block) => outcome == Ok::<BlockView, ChainError>(block@),
        Err(e) => outcome == Err::<BlockView, ChainError>(e),
    }
}

/// A nonce that the search returns gives a header hash that meets the target, and no nonce
/// before it does.
pub proof fn lemma_nonce_search_finds_first(
    prev_block_hash: Seq<char>,
    merkle_root: Seq<u8>,
    timestamp: u128,
    from: int,
)
    requires
        0 <= from,
        nonce_search(prev_block_hash, merkle_root, timestamp, from) is Ok,
    ensures
        ({
            let nonce = nonce_search(prev_block_hash, merkle_root, timestamp, from).unwrap();
            &&& from <= nonce
            &&& header_hash(prev_block_hash, merkle_root, timestamp, nonce) is Some
            &&& meets_target(header_hash(prev_block_hash, merkle_root, timestamp, nonce).unwrap())
            &&& forall|n: int|
                from <= n < nonce ==> !meets_target(
                    (#[trigger] header_hash(
                        prev_block_hash,
                        merkle_root,
                        timestamp,
                        n as i32,
                    )).unwrap(),
                )
        }),
    decreases i32::MAX - from + 1,
{
    if from <= i32::MAX {
        match header_hash(prev_block_hash, merkle_root, timestamp, from as i32) {
            None => {},
            Some(hash) => {
                if !meets_target(hash) {
                    lemma_nonce_search_finds_first(
                        prev_block_hash,
                        merkle_root,
                        timestamp,
                        from + 1,
                    );
                }
            },
        }
    }
}

/// Every block that mining gives satisfies the proof-of-work predicate.
pub proof fn lemma_mined_block_meets_target(
    txs: Seq<TransactionView>,
    prev_block_hash: Seq<char>,
    height: i32,
    timestamp: u128,
)
    requires
        mining_outcome(txs, prev_block_hash, height, timestamp) is Ok,
    ensures
        mining_outcome(txs, prev_block_hash, height, timestamp).unwrap().is_mined(),
{
    lemma_nonce_search_finds_first(prev_block_hash, merkle_root(txs), timestamp, 0);
}

/// Whether `hash` begins with `TARGET_HEXS` zeros.
pub fn hash_meets_target(hash: &str) -> (meets: bool)
    ensures
        meets == meets_target(hash@),
{
    if hash.unicode_len() < TARGET_HEXS {
        return false;
    }
    let mut i: usize = 0;
    while i < TARGET_HEXS
        invariant
            i <= TARGET_HEXS,
            hash@.len() >= TARGET_HEXS,
            forall|k: int| 0 <= k < i ==> hash@[k] == '0',
        decreases TARGET_HEXS - i,
    {
        if hash.get_char(i) != '0' {
            return false;
        }
        i += 1;
    }
    true
}

/// The level of the Merkle tree above `level`.
fn merkle_level_above(level: &Vec<Vec<u8>>) -> (above: Vec<Vec<u8>>)
    requires
        forall|i: int| 0 <= i < level@.len() ==> (#[trigger] level@[i])@.len() == SHA256_LEN,
    ensures
        above@.map_values(|node: Vec<u8>| node@) == merkle_level_up(
            level@.map_values(|node: Vec<u8>| node@),
        ),
        above@.len() == (level@.len() + 1) / 2,
        forall|i: int| 0 <= i < above@.len() ==> (#[trigger] above@[i])@.len() == SHA256_LEN,
{
    let ghost nodes = level@.map_values(|node: Vec<u8>| node@);
    let mut above: Vec<Vec<u8>> = Vec::new();
    let count: usize = level.len();
    let pairs: usize = count / 2 + count % 2;
    let mut k: usize = 0;
    while k < pairs
        invariant
            k <= pairs,
            count == level@.len(),
            pairs == (level@.len() + 1) / 2,
            nodes == level@.map_values(|node: Vec<u8>| node@),
            forall|n: int| 0 <= n < level@.len() ==> (#[trigger] level@[n])@.len() == SHA256_LEN,
            above@.len() == k,
            forall|n: int| 0 <= n < above@.len() ==> (#[trigger] above@[n])@.len() == SHA256_LEN,
            forall|n: int|
                0 <= n < above@.len() ==> (#[trigger] above@[n])@ == merkle_level_up(nodes)[n],
        decreases pairs - k,
    {
        assert(2 * k + 2 <= level@.len() + 1);
        let i: usize = 2 * k;
        let mut joined: Vec<u8> = Vec::new();
        let left = &level[i];
        let right = if i + 1 < level.len() {
            &level[i + 1]
        } else {
            &level[i]
        };
        let mut j: usize = 0;
        while j < left.len()
            invariant
                j <= left@.len(),
                joined@ == left@.take(j as int),
            decreases left@.len() - j,
        {
            joined.push(left[j]);
            assert(left@.take(j + 1) =~= left@.take(j as int).push(left@[j as int]));
            j += 1;
        }
        assert(left@.take(left@.len() as int) =~= left@);
        let mut j: usize = 0;
        while j < right.len()
            invariant
                j <= right@.len(),
                joined@ == left@ + right@.take(j as int),
            decreases right@.len() - j,
        {
            joined.push(right[j]);
            assert(left@ + right@.take(j + 1) =~= (left@ + right@.take(j as int)).push(
                right@[j as int],
            ));
            j += 1;
        }
        assert(right@.take(right@.len() as int) =~= right@);
        assert(joined@.len() == 2 * SHA256_LEN);
        let parent = match sha256(joined.as_slice()) {
            Some(parent) => parent,
            None => Vec::new(),
        };
        assert(parent@ == merkle_level_up(nodes)[k as int]);
        above.push(parent);
        k += 1;
    }
    assert(above@.map_values(|node: Vec<u8>| node@) =~= merkle_level_up(nodes));
    above
}

/// The Merkle root of `txs`; `None` exactly when an identifier cannot be hashed. The root of
/// at least one transaction has 32 bytes.
pub fn merkle_root_of(txs: &Vec<Transaction>) -> (root: Option<Vec<u8>>)
    ensures
        root is Some <==> leaves_hashable(transactions_view(txs@)),
        root matches Some(r) ==> r@ == merkle_root(transactions_view(txs@)) && (txs@.len() > 0
            ==> r@.len() == SHA256_LEN),
{
    let ghost views = transactions_view(txs@);
    let mut level: Vec<Vec<u8>> = Vec::new();
    let mut i: usize = 0;
    while i < txs.len()
        invariant
            i <= txs@.len(),
            views == transactions_view(txs@),
            level@.len() == i,
            forall|k: int| 0 <= k < i ==> hashable(vstd::utf8::encode_utf8((#[trigger] views[k]).id)),
            forall|k: int| 0 <= k < i ==> (#[trigger] level@[k])@ == merkle_leaves(views)[k],
            forall|k: int| 0 <= k < i ==> (#[trigger] level@[k])@.len() == SHA256_LEN,
        decreases txs@.len() - i,
    {
        match sha256(txs[i].id.as_str().as_bytes()) {
            Some(leaf) => {
                level.push(leaf);
            },
            None => {
                assert(!hashable(vstd::utf8::encode_utf8(views[i as int].id)));
                return None;
            },
        }
        i += 1;
    }
    assert(level@.map_values(|node: Vec<u8>| node@) =~= merkle_leaves(views));
    while level.len() > 1
        invariant
            merkle_fold(level@.map_values(|node: Vec<u8>| node@)) == merkle_root(views),
            forall|k: int| 0 <= k < level@.len() ==> (#[trigger] level@[k])@.len() == SHA256_LEN,
            txs@.len() > 0 ==> level@.len() > 0,
        decreases level@.len(),
    {
        level = merkle_level_above(&level);
    }
    if level.len() == 0 {
        Some(Vec::new())
    } else {
        let root = level.remove(0);
        Some(root)
    }
}

impl Clone for Block {
    fn clone(&self) -> (copy: Self)
        ensures
            copy@ == self@,
    {
        Block {
            timestamp: self.timestamp,
            transactions: clone_transactions(&self.transactions),
            prev_block_hash: self.prev_block_hash.clone(),
            hash: self.hash.clone(),
            height: self.height,
            nonce: self.nonce,
        }
    }
}

impl Block {
    /// A block with the given fields, as they were read from a store or from a peer. Nothing
    /// is checked: whether it is mined is for the caller to ask.
    pub fn from_parts(
        timestamp: u128,
        transactions: Vec<Transaction>,
        prev_block_hash: String,
        hash: String,
        height: i32,
        nonce: i32,
    ) -> (block: Block)
        ensures
            block@ == (BlockView {
                timestamp,
                transactions: transactions_view(transactions@),
                prev_block_hash: prev_block_hash@,
                hash: hash@,
                height,
                nonce,
            }),
    {
        Block { timestamp, transactions, prev_block_hash, hash, height, nonce }
    }

    /// Mines a block over `data` with the given timestamp: tries the nonces from 0 upwards
    /// and keeps the first whose header hash meets the target.
    pub fn mine(data: Vec<Transaction>, prev_block_hash: String, height: i32, timestamp: u128) -> (made:
        Result<Block, ChainError>)
        ensures
            mined_as(
                made,
                mining_outcome(transactions_view(data@), prev_block_hash@, height, timestamp),
            ),
            made matches Ok(block) ==> block@.is_mined() && block@.hash.len() == HASH_HEX_LEN,
    {
        let mut block = Block {
            timestamp,
            transactions: data,
            prev_block_hash,
            hash: String::new(),
            height,
            nonce: 0,
        };
        match block.run_proof_of_work() {
            Ok(_) => {
                proof {
                    lemma_mined_block_meets_target(
                        block@.transactions,
                        block@.prev_block_hash,
                        height,
                        timestamp,
                    );
                }
                Ok(block)
            },
            Err(e) => Err(e),
        }
    }

    /// Mines a block over `data`, stamped with the current time. `Clock` where the system
    /// clock is set before the epoch; otherwise what mining gives for the time that was read.
    pub fn new(data: Vec<Transaction>, prev_block_hash: String, height: i32) -> (made: Result<
        Block,
        ChainError,
    >)
        ensures
            made matches Ok(block) ==> block@.is_mined() && block@.hash.len() == HASH_HEX_LEN,
            (made matches Err(e) && e == ChainError::Clock) || exists|timestamp: u128|
                mined_as(
                    made,
                    mining_outcome(transactions_view(data@), prev_block_hash@, height, timestamp),
                ),
    {
        let timestamp = match now_ms() {
            Ok(timestamp) => timestamp,
            Err(e) => {
                return Err(e);
            },
        };
        Block::mine(data, prev_block_hash, height, timestamp)
    }

    /// Mines the first block of a chain over a single coinbase: height 0 and no previous
    /// hash.
    pub fn new_genesis_block(coinbase: Transaction) -> (made: Result<Block, ChainError>)
        ensures
            made matches Ok(block) ==> block@.is_mined() && block@.hash.len() == HASH_HEX_LEN,
            (made matches Err(e) && e == ChainError::Clock) || exists|timestamp: u128|
                mined_as(
                    made,
                    mining_outcome(seq![coinbase@], Seq::<char>::empty(), 0, timestamp),
                ),
    {
        let data = vec![coinbase];
        assert(transactions_view(data@) =~= seq![coinbase@]);
        Block::new(data, String::new(), 0)
    }

    /// The height of the block in its chain.
    pub fn get_height(&self) -> (height: i32)
        ensures
            height == self@.height,
    {
        self.height
    }

    /// The hash of the block.
    pub fn get_hash(&self) -> (hash: String)
        ensures
            hash@ == self@.hash,
    {
        self.hash.clone()
    }

    /// The hash of the block before this one; empty for a genesis block.
    pub fn get_prev_hash(&self) -> (hash: String)
        ensures
            hash@ == self@.prev_block_hash,
    {
        self.prev_block_hash.clone()
    }

    /// The transactions of the block, in their order.
    pub fn get_transactions(&self) -> (txs: &Vec<Transaction>)
        ensures
            transactions_view(txs@) == self@.transactions,
    {
        &self.transactions
    }

    /// The time at which the block was mined, in milliseconds since the Unix epoch.
    pub fn get_timestamp(&self) -> (timestamp: u128)
        ensures
            timestamp == self@.timestamp,
    {
        self.timestamp
    }

    /// The nonce that mining found.
    pub fn get_nonce(&self) -> (nonce: i32)
        ensures
            nonce == self@.nonce,
    {
        self.nonce
    }

    /// The Merkle root of the block's transactions; `Corrupt` exactly when an identifier
    /// cannot be hashed.
    pub fn hash_transactions(&self) -> (root: Result<Vec<u8>, ChainError>)
        ensures
            match root {
                Ok(r) => leaves_hashable(self@.transactions) && r@ == merkle_root(
                    self@.transactions,
                ),
                Err(e) => e == ChainError::Corrupt && !leaves_hashable(self@.transactions),
            },
    {
        match merkle_root_of(&self.transactions) {
            Some(root) => Ok(root),
            None => Err(ChainError::Corrupt),
        }
    }

    /// The hash of the block's header as it stands; `Corrupt` exactly when there is none.
    fn hash_header(&self, root: &Vec<u8>) -> (hash: Result<String, ChainError>)
        ensures
            match hash {
                Ok(text) => header_hash(
                    self@.prev_block_hash,
                    root@,
                    self@.timestamp,
                    self@.nonce,
                ) == Some(text@) && text@.len() == HASH_HEX_LEN,
                Err(e) => e == ChainError::Corrupt && header_hash(
                    self@.prev_block_hash,
                    root@,
                    self@.timestamp,
                    self@.nonce,
                ) is None,
            },
    {
        match serialize_header(
            self.prev_block_hash.as_str(),
            root,
            self.timestamp,
            TARGET_HEXS,
            self.nonce,
        ) {
            Ok(image) => match sha256_hex(image.as_slice()) {
                Some(text) => Ok(text),
                None => Err(ChainError::Corrupt),
            },
            Err(_) => Err(ChainError::Corrupt),
        }
    }

    /// The hash that the block should carry: the hash of its header as it stands. `Corrupt`
    /// exactly when an identifier cannot be hashed or the header has no hash.
    pub fn compute_hash(&self) -> (hash: Result<String, ChainError>)
        ensures
            match hash {
                Ok(text) => leaves_hashable(self@.transactions) && header_hash(
                    self@.prev_block_hash,
                    merkle_root(self@.transactions),
                    self@.timestamp,
                    self@.nonce,
                ) == Some(text@) && text@.len() == HASH_HEX_LEN,
                Err(e) => e == ChainError::Corrupt && (!leaves_hashable(self@.transactions)
                    || header_hash(
                    self@.prev_block_hash,
                    merkle_root(self@.transactions),
                    self@.timestamp,
                    self@.nonce,
                ) is None),
            },
    {
        let root = match self.hash_transactions() {
            Ok(root) => root,
            Err(e) => {
                return Err(e);
            },
        };
        self.hash_header(&root)
    }

    /// Whether the block satisfies the proof-of-work predicate: its hash is the hash of its
    /// header and meets the target.
    pub fn validate(&self) -> (valid: Result<bool, ChainError>)
        ensures
            match valid {
                Ok(v) => v == self@.is_mined(),
                Err(e) => e == ChainError::Corrupt && !self@.is_mined(),
            },
    {
        let root = match self.hash_transactions() {
            Ok(root) => root,
            Err(e) => {
                return Err(e);
            },
        };
        match self.hash_header(&root) {
            Ok(text) => Ok(
                crate::primitives::str_equal(text.as_str(), self.hash.as_str())
                    && hash_meets_target(self.hash.as_str()),
            ),
            Err(e) => Err(e),
        }
    }

    /// Searches for the nonce, from the block's own nonce upwards, and sets the hash.
    fn run_proof_of_work(&mut self) -> (done: Result<(), ChainError>)
        requires
            old(self).nonce == 0,
        ensures
            final(self)@.timestamp == old(self)@.timestamp,
            final(self)@.transactions == old(self)@.transactions,
            final(self)@.prev_block_hash == old(self)@.prev_block_hash,
            final(self)@.height == old(self)@.height,
            done is Ok ==> final(self)@.hash.len() == HASH_HEX_LEN,
            match done {
                Ok(_) => mining_outcome(
                    old(self)@.transactions,
                    old(self)@.prev_block_hash,
                    old(self)@.height,
                    old(self)@.timestamp,
                ) == Ok::<BlockView, ChainError>(final(self)@),
                Err(e) => mining_outcome(
                    old(self)@.transactions,
                    old(self)@.prev_block_hash,
                    old(self)@.height,
                    old(self)@.timestamp,
                ) == Err::<BlockView, ChainError>(e),
            },
    {
        let root = match self.hash_transactions() {
            Ok(root) => root,
            Err(e) => {
                return Err(e);
            },
        };
        let ghost start = self@;
        loop
            invariant
                start == old(self)@,
                self@.timestamp == start.timestamp,
                self@.transactions == start.transactions,
                self@.prev_block_hash == start.prev_block_hash,
                self@.height == start.height,
                self@.nonce >= 0,
                root@ == merkle_root(start.transactions),
                leaves_hashable(start.transactions),
                nonce_search(start.prev_block_hash, root@, start.timestamp, 0) == nonce_search(
                    start.prev_block_hash,
                    root@,
                    start.timestamp,
                    self@.nonce as int,
                ),
            decreases i32::MAX - self@.nonce,
        {
            let hash = match self.hash_header(&root) {
                Ok(hash) => hash,
                Err(e) => {
                    return Err(e);
                },
            };
            if hash_meets_target(hash.as_str()) {
                self.hash = hash;
                return Ok(());
            }
            if self.nonce == i32::MAX {
                assert(nonce_search(
                    start.prev_block_hash,
                    root@,
                    start.timestamp,
                    i32::MAX as int + 1,
                ) == Err::<i32, ChainError>(ChainError::MiningAborted));
                return Err(ChainError::MiningAborted);
            }
            self.nonce = self.nonce + 1;
        }
    }
}

} // verus!
