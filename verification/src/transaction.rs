use crate::config::SUBSIDY;
use crate::error::ChainError;
use crate::primitives::{
    address_decode, base58_address_body, bytes_equal, copy_bytes, ed25519_signature,
    hash_of_pub_key, hashable, hex_of, pub_key_hash, random_key, sha256_digest, sha256_hex,
    sign_message, signature_valid, str_equal, verify_message, HASH_HEX_LEN, KEY_LEN,
    SIGNATURE_LEN,
};
use crate::blockchain::{chain_sign_outcome, chain_verify_outcome, lemma_signed_on_chain_verifies};
use crate::utxoset::{choose_spendable, EntryView, UTXOSet};
use crate::wallets::{Wallet, WalletView};
use vstd::prelude::*;
use vstd::string::StringSliceAdditionalSpecFns;

verus! {

/// A transaction input: a reference to an output of an earlier transaction, with the
/// spender's public key and signature.
#[derive(Debug)]
pub struct TXInput {
    pub txid: String,
    pub vout: i32,
    pub signature: Vec<u8>,
    pub pub_key: Vec<u8>,
}

/// What a `TXInput` holds, as mathematical values.
pub struct TXInputView {
    pub txid: Seq<char>,
    pub vout: i32,
    pub signature: Seq<u8>,
    pub pub_key: Seq<u8>,
}

/// A transaction output: an amount locked to the hash of a public key.
#[derive(Debug)]
pub struct TXOutput {
    pub value: i32,
    pub pub_key_hash: Vec<u8>,
}

/// What a `TXOutput` holds, as mathematical values.
pub struct TXOutputView {
    pub value: i32,
    pub pub_key_hash: Seq<u8>,
}

/// A list of outputs: those locked to one key that an index holds, in the order in which it
/// holds them.
#[derive(Debug)]
pub struct TXOutputs {
    pub outputs: Vec<TXOutput>,
}

/// A transfer of value from earlier outputs to new ones.
#[derive(Debug)]
pub struct Transaction {
    pub id: String,
    pub vin: Vec<TXInput>,
    pub vout: Vec<TXOutput>,
}

/// What a `Transaction` holds, as mathematical values.
pub struct TransactionView {
    pub id: Seq<char>,
    pub vin: Seq<TXInputView>,
    pub vout: Seq<TXOutputView>,
}

impl View for TXInput {
    type V = TXInputView;

    open spec fn view(&self) -> TXInputView {
        TXInputView {
            txid: self.txid@,
            vout: self.vout,
            signature: self.signature@,
            pub_key: self.pub_key@,
        }
    }
}

impl View for TXOutput {
    type V = TXOutputView;

    open spec fn view(&self) -> TXOutputView {
        TXOutputView { value: self.value, pub_key_hash: self.pub_key_hash@ }
    }
}

impl View for TXOutputs {
    type V = Seq<TXOutputView>;

    open spec fn view(&self) -> Seq<TXOutputView> {
        outputs_view(self.outputs@)
    }
}

impl View for Transaction {
    type V = TransactionView;

    open spec fn view(&self) -> TransactionView {
        TransactionView {
            id: self.id@,
            vin: inputs_view(self.vin@),
            vout: outputs_view(self.vout@),
        }
    }
}

/// The views of a sequence of inputs.
pub open spec fn inputs_view(inputs: Seq<TXInput>) -> Seq<TXInputView> {
    inputs.map_values(|input: TXInput| input@)
}

/// The views of a sequence of outputs.
pub open spec fn outputs_view(outputs: Seq<TXOutput>) -> Seq<TXOutputView> {
    outputs.map_values(|output: TXOutput| output@)
}

/// The views of a sequence of transactions.
pub open spec fn transactions_view(txs: Seq<Transaction>) -> Seq<TransactionView> {
    txs.map_values(|tx: Transaction| tx@)
}

/// The bytes that `bincode` writes for a transaction with the given identifier, inputs and
/// outputs; `None` where it reports an error.
pub uninterp spec fn transaction_image(
    id: Seq<char>,
    vin: Seq<TXInputView>,
    vout: Seq<TXOutputView>,
) -> Option<Seq<u8>>;

/// `bincode::ErrorKind`, taken as it is.
#[verifier::external_type_specification]
#[verifier::external_body]
pub struct ExBincodeErrorKind(bincode::ErrorKind);

/// Calls `bincode::serialize` on the tuple of an identifier, the inputs and the outputs, each
/// input and output a tuple of its fields in their order. Claims that it succeeds exactly
/// where the named image exists, and that the bytes returned are that image.
#[verifier::external_body]
fn serialize_transaction(id: &str, vin: &Vec<TXInput>, vout: &Vec<TXOutput>) -> (image: Result<
    Vec<u8>,
    Box<bincode::ErrorKind>,
>)
    ensures
        match image {
            Ok(bytes) => transaction_image(id@, inputs_view(vin@), outputs_view(vout@)) == Some(
                bytes@,
            ),
            Err(_) => transaction_image(id@, inputs_view(vin@), outputs_view(vout@)) is None,
        },
{
    let inputs: Vec<(&String, i32, &Vec<u8>, &Vec<u8>)> = vin.iter().map(
        |i| (&i.txid, i.vout, &i.signature, &i.pub_key),
    ).collect();
    let outputs: Vec<(i32, &Vec<u8>)> = vout.iter().map(|o| (o.value, &o.pub_key_hash)).collect();
    bincode::serialize(&(id, inputs, outputs))
}

/// The identifier that a transaction with these inputs and outputs is given: the SHA-256, in
/// hexadecimal, of its image with the identifier left empty. `None` where the image does not
/// exist or is too long to hash.
pub open spec fn transaction_hash(vin: Seq<TXInputView>, vout: Seq<TXOutputView>) -> Option<
    Seq<char>,
> {
    match transaction_image(Seq::<char>::empty(), vin, vout) {
        Some(image) => if hashable(image) {
            Some(hex_of(sha256_digest(image)))
        } else {
            None
        },
        None => None,
    }
}

impl TransactionView {
    /// Whether this is a coinbase: one input, with an empty reference and index -1.
    pub open spec fn is_coinbase(self) -> bool {
        &&& self.vin.len() == 1
        &&& self.vin[0].txid.len() == 0
        &&& self.vin[0].vout == -1
    }

    /// The transaction with every signature and public key emptied.
    pub open spec fn trimmed(self) -> TransactionView {
        TransactionView {
            id: self.id,
            vin: Seq::new(
                self.vin.len(),
                |i: int|
                    TXInputView {
                        txid: self.vin[i].txid,
                        vout: self.vin[i].vout,
                        signature: Seq::<u8>::empty(),
                        pub_key: Seq::<u8>::empty(),
                    },
            ),
            vout: self.vout,
        }
    }

    /// What is hashed to sign input `index`: the trimmed transaction, with the hash that locks
    /// the output that the input spends in the place of that input's public key.
    pub open spec fn signing_form(self, index: int, lock: Seq<u8>) -> TransactionView {
        TransactionView {
            id: self.id,
            vin: self.trimmed().vin.update(
                index,
                TXInputView {
                    txid: self.vin[index].txid,
                    vout: self.vin[index].vout,
                    signature: Seq::<u8>::empty(),
                    pub_key: lock,
                },
            ),
            vout: self.vout,
        }
    }
}

/// The position of the first transaction at or after `from` that `id` identifies.
pub open spec fn first_with_id(txs: Seq<TransactionView>, id: Seq<char>, from: int) -> Option<int>
    decreases txs.len() - from,
{
    if from < 0 || from >= txs.len() {
        None
    } else if txs[from].id == id {
        Some(from)
    } else {
        first_with_id(txs, id, from + 1)
    }
}

/// The hash that locks the output that `input` spends, looked up in `prev`. `None` where
/// `prev` holds no transaction that the input's reference identifies, where the reference is
/// empty, or where that transaction has no output at the input's index.
pub open spec fn spent_lock(prev: Seq<TransactionView>, input: TXInputView) -> Option<Seq<u8>> {
    match first_with_id(prev, input.txid, 0) {
        Some(k) => if input.txid.len() > 0 && 0 <= input.vout < prev[k].vout.len() {
            Some(prev[k].vout[input.vout as int].pub_key_hash)
        } else {
            None
        },
        None => None,
    }
}

/// Whether `prev` holds the output that each input of `tx` spends.
pub open spec fn all_spent_known(tx: TransactionView, prev: Seq<TransactionView>) -> bool {
    forall|i: int| 0 <= i < tx.vin.len() ==> (#[trigger] spent_lock(prev, tx.vin[i])) is Some
}

/// The text whose bytes are signed for input `index` of `tx`: the hash of the signing form
/// of `tx` for that input.
pub open spec fn signing_digest(tx: TransactionView, prev: Seq<TransactionView>, index: int) -> Option<
    Seq<char>,
> {
    match spent_lock(prev, tx.vin[index]) {
        Some(lock) => {
            let form = tx.signing_form(index, lock);
            transaction_hash(form.vin, form.vout)
        },
        None => None,
    }
}

/// Whether every input of `tx` has a signing digest.
pub open spec fn all_digests_exist(tx: TransactionView, prev: Seq<TransactionView>) -> bool {
    forall|i: int| 0 <= i < tx.vin.len() ==> (#[trigger] signing_digest(tx, prev, i)) is Some
}

/// The signature that `Transaction::sign` puts on input `index`.
pub open spec fn input_signature(
    tx: TransactionView,
    prev: Seq<TransactionView>,
    secret_key: Seq<u8>,
    index: int,
) -> Seq<u8> {
    ed25519_signature(vstd::utf8::encode_utf8(signing_digest(tx, prev, index).unwrap()), secret_key)
}

/// `tx` with each input signed by `secret_key`.
pub open spec fn signed(tx: TransactionView, prev: Seq<TransactionView>, secret_key: Seq<u8>) -> TransactionView {
    TransactionView {
        id: tx.id,
        vin: Seq::new(
            tx.vin.len(),
            |i: int|
                TXInputView {
                    txid: tx.vin[i].txid,
                    vout: tx.vin[i].vout,
                    signature: input_signature(tx, prev, secret_key, i),
                    pub_key: tx.vin[i].pub_key,
                },
        ),
        vout: tx.vout,
    }
}

/// What `Transaction::sign` does to `tx`. A coinbase is left as it is. Otherwise
/// `MissingPrev` where `prev` lacks an output that is spent, `Corrupt` where an input has no
/// signing digest, and else the signed transaction.
pub open spec fn sign_outcome(tx: TransactionView, prev: Seq<TransactionView>, secret_key: Seq<u8>) -> Result<
    TransactionView,
    ChainError,
> {
    if tx.is_coinbase() {
        Ok(tx)
    } else if !all_spent_known(tx, prev) {
        Err(ChainError::MissingPrev)
    } else if !all_digests_exist(tx, prev) {
        Err(ChainError::Corrupt)
    } else {
        Ok(signed(tx, prev, secret_key))
    }
}

/// Whether the signature on input `index` of `tx` is valid for the key in that input.
pub open spec fn input_verifies(tx: TransactionView, prev: Seq<TransactionView>, index: int) -> bool {
    signature_valid(
        vstd::utf8::encode_utf8(signing_digest(tx, prev, index).unwrap()),
        tx.vin[index].pub_key,
        tx.vin[index].signature,
    )
}

/// The verdict on the inputs of `tx` from `from` on, taken in order: `Corrupt` at the first
/// that has no signing digest, `false` at the first whose signature is not valid, `true`
/// where there is neither.
pub open spec fn inputs_verify_from(tx: TransactionView, prev: Seq<TransactionView>, from: int) -> Result<
    bool,
    ChainError,
>
    decreases tx.vin.len() - from,
{
    if from < 0 || from >= tx.vin.len() {
        Ok(true)
    } else if signing_digest(tx, prev, from) is None {
        Err(ChainError::Corrupt)
    } else if !input_verifies(tx, prev, from) {
        Ok(false)
    } else {
        inputs_verify_from(tx, prev, from + 1)
    }
}

/// What `Transaction::verify` answers for `tx`. A coinbase verifies. Otherwise `MissingPrev`
/// where `prev` lacks an output that is spent, and else the verdict on the inputs.
pub open spec fn verify_outcome(tx: TransactionView, prev: Seq<TransactionView>) -> Result<
    bool,
    ChainError,
> {
    if tx.is_coinbase() {
        Ok(true)
    } else if !all_spent_known(tx, prev) {
        Err(ChainError::MissingPrev)
    } else {
        inputs_verify_from(tx, prev, 0)
    }
}

/// Whether every signature made with `secret_key` is valid for `public_key`.
pub open spec fn keys_agree(secret_key: Seq<u8>, public_key: Seq<u8>) -> bool {
    forall|message: Seq<u8>|
        signature_valid(
            message,
            public_key,
            #[trigger] ed25519_signature(message, secret_key),
        )
}

/// A transaction that is signed with a secret key verifies, against the same previous
/// transactions, when each input carries a public key for which that secret key signs.
pub proof fn lemma_signed_transaction_verifies(
    tx: TransactionView,
    prev: Seq<TransactionView>,
    secret_key: Seq<u8>,
    public_key: Seq<u8>,
)
    requires
        sign_outcome(tx, prev, secret_key) is Ok,
        forall|i: int| 0 <= i < tx.vin.len() ==> (#[trigger] tx.vin[i]).pub_key == public_key,
    ensures
        keys_agree(secret_key, public_key) ==> verify_outcome(
            sign_outcome(tx, prev, secret_key).unwrap(),
            prev,
        ) == Ok::<bool, ChainError>(true),
{
    if keys_agree(secret_key, public_key) && !tx.is_coinbase() {
        let done = signed(tx, prev, secret_key);
        assert(!done.is_coinbase());
        assert forall|i: int| 0 <= i < tx.vin.len() implies signing_digest(done, prev, i)
            == signing_digest(tx, prev, i) by {
            lemma_signing_digest_ignores_signatures(tx, prev, secret_key, i);
        }
        assert(all_spent_known(done, prev)) by {
            assert forall|i: int| 0 <= i < done.vin.len() implies (#[trigger] spent_lock(
                prev,
                done.vin[i],
            )) is Some by {
                assert(spent_lock(prev, tx.vin[i]) is Some);
            }
        }
        lemma_signed_inputs_verify(tx, prev, secret_key, public_key, 0);
    }
}

/// The signing digest of an input does not depend on the signatures that the transaction
/// carries.
proof fn lemma_signing_digest_ignores_signatures(
    tx: TransactionView,
    prev: Seq<TransactionView>,
    secret_key: Seq<u8>,
    index: int,
)
    requires
        0 <= index < tx.vin.len(),
    ensures
        signing_digest(signed(tx, prev, secret_key), prev, index) == signing_digest(
            tx,
            prev,
            index,
        ),
{
    let done = signed(tx, prev, secret_key);
    match spent_lock(prev, tx.vin[index]) {
        Some(lock) => {
            assert(done.trimmed().vin =~= tx.trimmed().vin);
            assert(done.signing_form(index, lock).vin =~= tx.signing_form(index, lock).vin);
        },
        None => {},
    }
}

/// From any input on, the inputs of a transaction that was signed with a secret key verify
/// for a public key with which that key agrees.
proof fn lemma_signed_inputs_verify(
    tx: TransactionView,
    prev: Seq<TransactionView>,
    secret_key: Seq<u8>,
    public_key: Seq<u8>,
    from: int,
)
    requires
        0 <= from <= tx.vin.len(),
        all_digests_exist(tx, prev),
        keys_agree(secret_key, public_key),
        forall|i: int| 0 <= i < tx.vin.len() ==> (#[trigger] tx.vin[i]).pub_key == public_key,
        forall|i: int|
            0 <= i < tx.vin.len() ==> signing_digest(signed(tx, prev, secret_key), prev, i)
                == signing_digest(tx, prev, i),
    ensures
        inputs_verify_from(signed(tx, prev, secret_key), prev, from) == Ok::<bool, ChainError>(
            true,
        ),
    decreases tx.vin.len() - from,
{
    if from < tx.vin.len() {
        let done = signed(tx, prev, secret_key);
        assert(signing_digest(tx, prev, from) is Some);
        assert(tx.vin[from].pub_key == public_key);
        assert(input_verifies(done, prev, from));
        lemma_signed_inputs_verify(tx, prev, secret_key, public_key, from + 1);
    }
}

/// The inputs that spend the outputs chosen in the first `upto` of `groups`, in their
/// order: each refers to a chosen output and carries `public_key` and no signature.
pub open spec fn inputs_spending(groups: Seq<(Seq<char>, Seq<i32>)>, public_key: Seq<u8>, upto: int) -> Seq<
    TXInputView,
>
    decreases upto,
{
    if upto <= 0 {
        Seq::<TXInputView>::empty()
    } else {
        inputs_spending(groups, public_key, upto - 1) + Seq::new(
            groups[upto - 1].1.len(),
            |i: int|
                TXInputView {
                    txid: groups[upto - 1].0,
                    vout: groups[upto - 1].1[i],
                    signature: Seq::<u8>::empty(),
                    pub_key: public_key,
                },
        )
    }
}

/// The outputs of a payment of `amount` out of `total`: the amount to the recipient, and
/// what is left over, where anything is, back to the payer.
pub open spec fn payment_outputs(amount: i32, total: int, to_lock: Seq<u8>, change_lock: Seq<u8>) -> Seq<
    TXOutputView,
> {
    if total > amount {
        seq![
            TXOutputView { value: amount, pub_key_hash: to_lock },
            TXOutputView { value: (total - amount) as i32, pub_key_hash: change_lock },
        ]
    } else {
        seq![TXOutputView { value: amount, pub_key_hash: to_lock }]
    }
}

/// What `Transaction::new_UTXO` gives for a wallet, a recipient and an amount, on an index
/// with the entries `entries` over a chain with the transactions `chain_txs`. `Corrupt`
/// where the wallet's keys have the wrong sizes, where choosing the outputs leaves the range
/// of `i32` or what is left over does, where `to` is no Base58 address, and where the
/// payment cannot be hashed; `InsufficientFunds` where the outputs chosen add up to less
/// than `amount`; else what signing the payment on the chain gives.
pub open spec fn payment_outcome(
    wallet: WalletView,
    to: Seq<char>,
    amount: i32,
    entries: Seq<EntryView>,
    chain_txs: Seq<TransactionView>,
) -> Result<TransactionView, ChainError> {
    if !hashable(wallet.public_key) || wallet.secret_key.len() != SIGNATURE_LEN {
        Err(ChainError::Corrupt)
    } else {
        let lock = pub_key_hash(wallet.public_key);
        match choose_spendable(entries, lock, amount as int, entries.len() as int) {
            None => Err(ChainError::Corrupt),
            Some((total, groups)) => if total < amount {
                Err(ChainError::InsufficientFunds)
            } else if total - amount > i32::MAX {
                Err(ChainError::Corrupt)
            } else {
                match base58_address_body(to) {
                    None => Err(ChainError::Corrupt),
                    Some(to_lock) => {
                        let vin = inputs_spending(groups, wallet.public_key, groups.len() as int);
                        let vout = payment_outputs(amount, total, to_lock, lock);
                        match transaction_hash(vin, vout) {
                            None => Err(ChainError::Corrupt),
                            Some(id) => chain_sign_outcome(
                                chain_txs,
                                TransactionView { id, vin, vout },
                                wallet.secret_key,
                            ),
                        }
                    },
                }
            },
        }
    }
}

/// Every input that spends chosen outputs carries the payer's public key.
proof fn lemma_inputs_spending_carry_key(
    groups: Seq<(Seq<char>, Seq<i32>)>,
    public_key: Seq<u8>,
    upto: int,
)
    requires
        0 <= upto <= groups.len(),
    ensures
        forall|i: int|
            0 <= i < inputs_spending(groups, public_key, upto).len() ==> (#[trigger] inputs_spending(
                groups,
                public_key,
                upto,
            )[i]).pub_key == public_key,
    decreases upto,
{
    if upto > 0 {
        lemma_inputs_spending_carry_key(groups, public_key, upto - 1);
        let before = inputs_spending(groups, public_key, upto - 1);
        let all = inputs_spending(groups, public_key, upto);
        assert forall|i: int| 0 <= i < all.len() implies (#[trigger] all[i]).pub_key
            == public_key by {
            if i < before.len() {
                assert(all[i] == before[i]);
            }
        }
    }
}

/// A payment that a wallet makes verifies on the chain that it was made on, when the
/// wallet's secret key signs for its public key.
pub proof fn lemma_payment_verifies(
    wallet: WalletView,
    to: Seq<char>,
    amount: i32,
    entries: Seq<EntryView>,
    chain_txs: Seq<TransactionView>,
)
    requires
        payment_outcome(wallet, to, amount, entries, chain_txs) is Ok,
    ensures
        keys_agree(wallet.secret_key, wallet.public_key) ==> chain_verify_outcome(
            chain_txs,
            payment_outcome(wallet, to, amount, entries, chain_txs).unwrap(),
        ) == Ok::<bool, ChainError>(true),
{
    let lock = pub_key_hash(wallet.public_key);
    let (total, groups) = choose_spendable(
        entries,
        lock,
        amount as int,
        entries.len() as int,
    ).unwrap();
    let to_lock = base58_address_body(to).unwrap();
    let vin = inputs_spending(groups, wallet.public_key, groups.len() as int);
    let vout = payment_outputs(amount, total, to_lock, lock);
    let id = transaction_hash(vin, vout).unwrap();
    let tx = TransactionView { id, vin, vout };
    lemma_inputs_spending_carry_key(groups, wallet.public_key, groups.len() as int);
    lemma_signed_on_chain_verifies(chain_txs, tx, wallet.secret_key, wallet.public_key);
}

impl Clone for TXInput {
    fn clone(&self) -> (copy: Self)
        ensures
            copy@ == self@,
    {
        TXInput {
            txid: self.txid.clone(),
            vout: self.vout,
            signature: copy_bytes(self.signature.as_slice()),
            pub_key: copy_bytes(self.pub_key.as_slice()),
        }
    }
}

impl Clone for TXOutput {
    fn clone(&self) -> (copy: Self)
        ensures
            copy@ == self@,
    {
        TXOutput { value: self.value, pub_key_hash: copy_bytes(self.pub_key_hash.as_slice()) }
    }
}

/// A copy of a list of inputs.
pub fn clone_inputs(inputs: &Vec<TXInput>) -> (copy: Vec<TXInput>)
    ensures
        inputs_view(copy@) == inputs_view(inputs@),
{
    let mut copy: Vec<TXInput> = Vec::new();
    let mut i: usize = 0;
    while i < inputs.len()
        invariant
            i <= inputs@.len(),
            copy@.len() == i,
            forall|k: int| 0 <= k < i ==> copy@[k]@ == inputs@[k]@,
        decreases inputs@.len() - i,
    {
        copy.push(inputs[i].clone());
        i += 1;
    }
    assert(inputs_view(copy@) =~= inputs_view(inputs@));
    copy
}

/// A copy of a list of outputs.
pub fn clone_outputs(outputs: &Vec<TXOutput>) -> (copy: Vec<TXOutput>)
    ensures
        outputs_view(copy@) == outputs_view(outputs@),
{
    let mut copy: Vec<TXOutput> = Vec::new();
    let mut i: usize = 0;
    while i < outputs.len()
        invariant
            i <= outputs@.len(),
            copy@.len() == i,
            forall|k: int| 0 <= k < i ==> copy@[k]@ == outputs@[k]@,
        decreases outputs@.len() - i,
    {
        copy.push(outputs[i].clone());
        i += 1;
    }
    assert(outputs_view(copy@) =~= outputs_view(outputs@));
    copy
}

impl Clone for TXOutputs {
    fn clone(&self) -> (copy: Self)
        ensures
            copy@ == self@,
    {
        TXOutputs { outputs: clone_outputs(&self.outputs) }
    }
}

impl Clone for Transaction {
    fn clone(&self) -> (copy: Self)
        ensures
            copy@ == self@,
    {
        Transaction {
            id: self.id.clone(),
            vin: clone_inputs(&self.vin),
            vout: clone_outputs(&self.vout),
        }
    }
}

/// A copy of a list of transactions.
pub fn clone_transactions(txs: &Vec<Transaction>) -> (copy: Vec<Transaction>)
    ensures
        transactions_view(copy@) == transactions_view(txs@),
{
    let mut copy: Vec<Transaction> = Vec::new();
    let mut i: usize = 0;
    while i < txs.len()
        invariant
            i <= txs@.len(),
            copy@.len() == i,
            forall|k: int| 0 <= k < i ==> copy@[k]@ == txs@[k]@,
        decreases txs@.len() - i,
    {
        copy.push(txs[i].clone());
        i += 1;
    }
    assert(transactions_view(copy@) =~= transactions_view(txs@));
    copy
}

impl TXInput {
    /// Whether the input was made with the key that hashes to `unlocking_data`. A key too
    /// long to hash unlocks nothing.
    pub fn can_unlock_output_with(&self, unlocking_data: &[u8]) -> (can: bool)
        ensures
            can == (hashable(self.pub_key@) && pub_key_hash(self.pub_key@) == unlocking_data@),
    {
        match hash_of_pub_key(self.pub_key.as_slice()) {
            Some(hash) => bytes_equal(hash.as_slice(), unlocking_data),
            None => false,
        }
    }
}

impl TXOutput {
    /// Whether the output is locked to `pub_key_hash`.
    pub fn is_locked_with_key(&self, pub_key_hash: &[u8]) -> (locked: bool)
        ensures
            locked == (self.pub_key_hash@ == pub_key_hash@),
    {
        bytes_equal(self.pub_key_hash.as_slice(), pub_key_hash)
    }

    /// Locks the output to the public-key hash that `address` carries. `Corrupt`, and the
    /// output unchanged, exactly when `address` is no Base58 address.
    pub fn lock(&mut self, address: &str) -> (done: Result<(), ChainError>)
        ensures
            final(self).value == old(self).value,
            match done {
                Ok(_) => base58_address_body(address@) == Some(final(self).pub_key_hash@),
                Err(e) => e == ChainError::Corrupt && base58_address_body(address@) is None
                    && final(self).pub_key_hash@ == old(self).pub_key_hash@,
            },
    {
        match address_decode(address) {
            Ok(body) => {
                self.pub_key_hash = body;
                Ok(())
            },
            Err(e) => Err(e),
        }
    }

    /// An output of `value` locked to the public-key hash that `address` carries. `Corrupt`
    /// exactly when `address` is no Base58 address.
    pub fn new(value: i32, address: String) -> (made: Result<TXOutput, ChainError>)
        ensures
            match made {
                Ok(output) => output.value == value && base58_address_body(address@) == Some(
                    output.pub_key_hash@,
                ),
                Err(e) => e == ChainError::Corrupt && base58_address_body(address@) is None,
            },
    {
        let mut txo = TXOutput { value, pub_key_hash: Vec::new() };
        match txo.lock(address.as_str()) {
            Ok(_) => Ok(txo),
            Err(e) => Err(e),
        }
    }
}

/// The text that takes the place of an empty coinbase memo.
pub open spec fn reward_memo(to: Seq<char>) -> Seq<char> {
    "Reward to '"@ + to + "'"@
}

/// The coinbase paying `lock`, with `pub_key` in its input.
pub open spec fn coinbase_view(id: Seq<char>, pub_key: Seq<u8>, lock: Seq<u8>) -> TransactionView {
    TransactionView {
        id,
        vin: seq![
            TXInputView {
                txid: Seq::<char>::empty(),
                vout: -1i32,
                signature: Seq::<u8>::empty(),
                pub_key,
            },
        ],
        vout: seq![TXOutputView { value: SUBSIDY, pub_key_hash: lock }],
    }
}

/// What `Transaction::coinbase_from` returns for a recipient, a memo and a key: the coinbase
/// whose input holds the memo's bytes followed by the key, identified by its hash.
pub open spec fn coinbase_outcome(to: Seq<char>, memo: Seq<char>, key: Seq<u8>) -> Result<
    TransactionView,
    ChainError,
> {
    match base58_address_body(to) {
        Some(lock) => {
            let unnamed = coinbase_view(Seq::<char>::empty(), vstd::utf8::encode_utf8(memo) + key, lock);
            match transaction_hash(unnamed.vin, unnamed.vout) {
                Some(id) => Ok(coinbase_view(id, vstd::utf8::encode_utf8(memo) + key, lock)),
                None => Err(ChainError::Corrupt),
            }
        },
        None => Err(ChainError::Corrupt),
    }
}

/// Whether a result of an operation and the outcome that its contract names agree.
pub open spec fn yields(made: Result<Transaction, ChainError>, outcome: Result<TransactionView, ChainError>) -> bool {
    match made {
        Ok(tx) => outcome == Ok::<TransactionView, ChainError>(tx@),
        Err(e) => outcome == Err::<TransactionView, ChainError>(e),
    }
}

/// The position in `txs` of the first transaction that `id` identifies.
pub fn find_by_id(txs: &Vec<Transaction>, id: &str) -> (found: Option<usize>)
    ensures
        match found {
            Some(k) => first_with_id(transactions_view(txs@), id@, 0) == Some(k as int) && k
                < txs@.len(),
            None => first_with_id(transactions_view(txs@), id@, 0) is None,
        },
{
    let mut i: usize = 0;
    while i < txs.len()
        invariant
            i <= txs@.len(),
            first_with_id(transactions_view(txs@), id@, 0) == first_with_id(
                transactions_view(txs@),
                id@,
                i as int,
            ),
        decreases txs@.len() - i,
    {
        if str_equal(txs[i].id.as_str(), id) {
            return Some(i);
        }
        i += 1;
    }
    None
}

/// The hash that locks the output that `input` spends, looked up in `prev_txs`.
pub fn lock_of_spent(prev_txs: &Vec<Transaction>, input: &TXInput) -> (lock: Option<Vec<u8>>)
    ensures
        match lock {
            Some(hash) => spent_lock(transactions_view(prev_txs@), input@) == Some(hash@),
            None => spent_lock(transactions_view(prev_txs@), input@) is None,
        },
{
    match find_by_id(prev_txs, input.txid.as_str()) {
        Some(k) => {
            let prev_tx = &prev_txs[k];
            if !input.txid.as_str().is_empty() && input.vout >= 0 && (input.vout as usize)
                < prev_tx.vout.len() {
                Some(copy_bytes(prev_tx.vout[input.vout as usize].pub_key_hash.as_slice()))
            } else {
                None
            }
        },
        None => None,
    }
}

impl Transaction {
    /// Whether this is a coinbase: one input, with an empty reference and index -1.
    pub fn is_coinbase(&self) -> (coinbase: bool)
        ensures
            coinbase == self@.is_coinbase(),
    {
        self.vin.len() == 1 && self.vin[0].txid.as_str().is_empty() && self.vin[0].vout == -1
    }

    /// The identifier that the transaction should carry: the hash of its inputs and outputs.
    /// `Corrupt` exactly when it has no image or the image is too long to hash.
    pub fn hash(&self) -> (id: Result<String, ChainError>)
        ensures
            match id {
                Ok(text) => transaction_hash(self@.vin, self@.vout) == Some(text@) && text@.len()
                    == HASH_HEX_LEN,
                Err(e) => e == ChainError::Corrupt && transaction_hash(self@.vin, self@.vout)
                    is None,
            },
    {
        proof {
            reveal_strlit("");
            assert(""@ =~= Seq::<char>::empty());
        }
        match serialize_transaction("", &self.vin, &self.vout) {
            Ok(image) => match sha256_hex(image.as_slice()) {
                Some(text) => Ok(text),
                None => Err(ChainError::Corrupt),
            },
            Err(_) => Err(ChainError::Corrupt),
        }
    }

    /// A copy with every signature and public key emptied.
    pub fn trim_copy(&self) -> (copy: Transaction)
        ensures
            copy@ == self@.trimmed(),
    {
        let mut vin: Vec<TXInput> = Vec::new();
        let mut i: usize = 0;
        while i < self.vin.len()
            invariant
                i <= self.vin@.len(),
                vin@.len() == i,
                forall|k: int| 0 <= k < i ==> vin@[k]@ == self@.trimmed().vin[k],
            decreases self.vin@.len() - i,
        {
            vin.push(
                TXInput {
                    txid: self.vin[i].txid.clone(),
                    vout: self.vin[i].vout,
                    signature: Vec::new(),
                    pub_key: Vec::new(),
                },
            );
            i += 1;
        }
        let copy = Transaction { id: self.id.clone(), vin, vout: clone_outputs(&self.vout) };
        assert(copy@.vin =~= self@.trimmed().vin);
        copy
    }

    /// The coinbase that pays the subsidy to `to`, with `memo` and then `key` in its input.
    /// `Corrupt` exactly when `to` is no Base58 address or the transaction cannot be hashed.
    pub fn coinbase_from(to: String, memo: &str, key: &[u8]) -> (made: Result<
        Transaction,
        ChainError,
    >)
        ensures
            yields(made, coinbase_outcome(to@, memo@, key@)),
    {
        let mut pub_key = copy_bytes(memo.as_bytes());
        let mut tail = copy_bytes(key);
        pub_key.append(&mut tail);
        let output = match TXOutput::new(SUBSIDY, to) {
            Ok(output) => output,
            Err(e) => {
                return Err(e);
            },
        };
        let mut tx = Transaction {
            id: String::new(),
            vin: vec![
                TXInput { txid: String::new(), vout: -1, signature: Vec::new(), pub_key },
            ],
            vout: vec![output],
        };
        let ghost lock = output.pub_key_hash@;
        assert(tx@.vin =~= coinbase_view(tx@.id, memo.spec_bytes() + key@, lock).vin);
        assert(tx@.vout =~= coinbase_view(tx@.id, memo.spec_bytes() + key@, lock).vout);
        match tx.hash() {
            Ok(id) => {
                tx.id = id;
                assert(tx@.vin =~= coinbase_view(tx@.id, memo.spec_bytes() + key@, lock).vin);
                assert(tx@.vout =~= coinbase_view(tx@.id, memo.spec_bytes() + key@, lock).vout);
                Ok(tx)
            },
            Err(e) => Err(e),
        }
    }

    /// A coinbase that pays the subsidy to `to`. With a memo, the input holds the memo's
    /// bytes and 32 zero bytes. With an empty memo, it holds the bytes of the reward text for
    /// `to` and 32 random bytes.
    pub fn new_coinbase(to: String, data: String) -> (made: Result<Transaction, ChainError>)
        ensures
            data@.len() > 0 ==> yields(
                made,
                coinbase_outcome(to@, data@, Seq::new(KEY_LEN as nat, |i: int| 0u8)),
            ),
            data@.len() == 0 ==> exists|key: Seq<u8>|
                key.len() == KEY_LEN && yields(made, coinbase_outcome(to@, reward_memo(to@), key)),
    {
        if data.as_str().is_empty() {
            let key = random_key();
            let mut memo = String::from_str("Reward to '");
            memo.append(to.as_str());
            memo.append("'");
            Transaction::coinbase_from(to, memo.as_str(), key.as_slice())
        } else {
            let mut key: Vec<u8> = Vec::new();
            let mut i: usize = 0;
            while i < KEY_LEN
                invariant
                    i <= KEY_LEN,
                    key@ == Seq::new(i as nat, |k: int| 0u8),
                decreases KEY_LEN - i,
            {
                key.push(0u8);
                assert(key@ =~= Seq::new((i + 1) as nat, |k: int| 0u8));
                i += 1;
            }
            Transaction::coinbase_from(to, data.as_str(), key.as_slice())
        }
    }
    /// The hashes that lock the outputs that the inputs spend, in the order of the inputs;
    /// `None` exactly when `prev_txs` lacks one of those outputs.
    fn spent_locks(&self, prev_txs: &Vec<Transaction>) -> (locks: Option<Vec<Vec<u8>>>)
        ensures
            locks is Some <==> all_spent_known(self@, transactions_view(prev_txs@)),
            locks matches Some(found) ==> found@.len() == self@.vin.len() && forall|i: int|
                0 <= i < found@.len() ==> spent_lock(transactions_view(prev_txs@), self@.vin[i])
                    == Some(#[trigger] found@[i]@),
    {
        let mut locks: Vec<Vec<u8>> = Vec::new();
        let mut i: usize = 0;
        while i < self.vin.len()
            invariant
                i <= self.vin@.len(),
                locks@.len() == i,
                forall|k: int|
                    0 <= k < i ==> spent_lock(transactions_view(prev_txs@), self@.vin[k]) == Some(
                        #[trigger] locks@[k]@,
                    ),
            decreases self.vin@.len() - i,
        {
            match lock_of_spent(prev_txs, &self.vin[i]) {
                Some(lock) => {
                    locks.push(lock);
                },
                None => {
                    assert(spent_lock(transactions_view(prev_txs@), self@.vin[i as int]) is None);
                    return None;
                },
            }
            i += 1;
        }
        assert forall|k: int| 0 <= k < self@.vin.len() implies (#[trigger] spent_lock(
            transactions_view(prev_txs@),
            self@.vin[k],
        )) is Some by {
            assert(spent_lock(transactions_view(prev_txs@), self@.vin[k]) == Some(locks@[k]@));
        }
        Some(locks)
    }

    /// The signing digest of input `index`, given the hash that locks the output it spends.
    /// `trimmed` is the trimmed copy of the transaction, and is handed back as it came.
    fn digest_for(&self, trimmed: &mut Transaction, index: usize, lock: &Vec<u8>) -> (digest: Option<
        String,
    >)
        requires
            index < self@.vin.len(),
            old(trimmed)@ == self@.trimmed(),
        ensures
            final(trimmed)@ == self@.trimmed(),
            match digest {
                Some(text) => ({
                    let form = self@.signing_form(index as int, lock@);
                    transaction_hash(form.vin, form.vout) == Some(text@)
                }),
                None => ({
                    let form = self@.signing_form(index as int, lock@);
                    transaction_hash(form.vin, form.vout) is None
                }),
            },
    {
        let marked = TXInput {
            txid: self.vin[index].txid.clone(),
            vout: self.vin[index].vout,
            signature: Vec::new(),
            pub_key: copy_bytes(lock.as_slice()),
        };
        let plain = TXInput {
            txid: self.vin[index].txid.clone(),
            vout: self.vin[index].vout,
            signature: Vec::new(),
            pub_key: Vec::new(),
        };
        assert(trimmed@.vin.len() == self@.vin.len());
        trimmed.vin.set(index, marked);
        assert(trimmed@.vin =~= self@.signing_form(index as int, lock@).vin);
        let digest = trimmed.hash();
        trimmed.vin.set(index, plain);
        assert(trimmed@.vin =~= self@.trimmed().vin);
        match digest {
            Ok(text) => Some(text),
            Err(_) => None,
        }
    }

    /// Signs every input with `private_key`, over the hash of the transaction's signing form
    /// for that input. `prev_txs` holds the transactions whose outputs are spent. A coinbase
    /// is left unsigned. On an error the transaction is unchanged.
    pub fn sign(&mut self, private_key: &[u8], prev_txs: &Vec<Transaction>) -> (done: Result<
        (),
        ChainError,
    >)
        requires
            private_key@.len() == SIGNATURE_LEN,
        ensures
            match done {
                Ok(_) => sign_outcome(old(self)@, transactions_view(prev_txs@), private_key@)
                    == Ok::<TransactionView, ChainError>(final(self)@),
                Err(e) => sign_outcome(old(self)@, transactions_view(prev_txs@), private_key@)
                    == Err::<TransactionView, ChainError>(e) && final(self)@ == old(self)@,
            },
            done is Ok && !old(self)@.is_coinbase() ==> forall|i: int|
                0 <= i < final(self)@.vin.len() ==> (#[trigger] final(self)@.vin[i]).signature.len()
                    == SIGNATURE_LEN,
    {
        if self.is_coinbase() {
            return Ok(());
        }
        let ghost prev = transactions_view(prev_txs@);
        let ghost before = self@;
        let locks = match self.spent_locks(prev_txs) {
            Some(locks) => locks,
            None => {
                return Err(ChainError::MissingPrev);
            },
        };
        assert(all_spent_known(before, prev)) by {
            assert forall|k: int| 0 <= k < before.vin.len() implies (#[trigger] spent_lock(
                prev,
                before.vin[k],
            )) is Some by {
                assert(spent_lock(prev, before.vin[k]) == Some(locks@[k]@));
            }
        }
        let mut tx_copy = self.trim_copy();
        let mut signed_inputs: Vec<TXInput> = Vec::new();
        let mut i: usize = 0;
        while i < self.vin.len()
            invariant
                i <= self.vin@.len(),
                self@ == before,
                !before.is_coinbase(),
                all_spent_known(before, prev),
                prev == transactions_view(prev_txs@),
                private_key@.len() == SIGNATURE_LEN,
                tx_copy@ == self@.trimmed(),
                locks@.len() == self@.vin.len(),
                forall|k: int|
                    0 <= k < locks@.len() ==> spent_lock(prev, self@.vin[k]) == Some(
                        #[trigger] locks@[k]@,
                    ),
                signed_inputs@.len() == i,
                forall|k: int|
                    0 <= k < i ==> (#[trigger] signed_inputs@[k])@.signature.len()
                        == SIGNATURE_LEN,
                forall|k: int| 0 <= k < i ==> (#[trigger] signing_digest(before, prev, k)) is Some,
                forall|k: int|
                    0 <= k < i ==> (#[trigger] signed_inputs@[k])@ == signed(
                        before,
                        prev,
                        private_key@,
                    ).vin[k],
            decreases self.vin@.len() - i,
        {
            assert(spent_lock(prev, self@.vin[i as int]) == Some(locks@[i as int]@));
            let digest = match self.digest_for(&mut tx_copy, i, &locks[i]) {
                Some(text) => text,
                None => {
                    assert(signing_digest(before, prev, i as int) is None);
                    return Err(ChainError::Corrupt);
                },
            };
            assert(signing_digest(before, prev, i as int) == Some(digest@));
            let signature = sign_message(digest.as_str().as_bytes(), private_key);
            signed_inputs.push(
                TXInput {
                    txid: self.vin[i].txid.clone(),
                    vout: self.vin[i].vout,
                    signature,
                    pub_key: copy_bytes(self.vin[i].pub_key.as_slice()),
                },
            );
            i += 1;
        }
        self.vin = signed_inputs;
        assert(self@.vin =~= signed(before, prev, private_key@).vin);
        Ok(())
    }

    /// Checks the signature on every input against the public key in that input, over the
    /// hash of the transaction's signing form for that input. `prev_txs` holds the
    /// transactions whose outputs are spent. A coinbase verifies.
    pub fn verify(&self, prev_txs: &Vec<Transaction>) -> (verdict: Result<bool, ChainError>)
        ensures
            verdict == verify_outcome(self@, transactions_view(prev_txs@)),
    {
        if self.is_coinbase() {
            return Ok(true);
        }
        let ghost prev = transactions_view(prev_txs@);
        let locks = match self.spent_locks(prev_txs) {
            Some(locks) => locks,
            None => {
                return Err(ChainError::MissingPrev);
            },
        };
        assert(all_spent_known(self@, prev)) by {
            assert forall|k: int| 0 <= k < self@.vin.len() implies (#[trigger] spent_lock(
                prev,
                self@.vin[k],
            )) is Some by {
                assert(spent_lock(prev, self@.vin[k]) == Some(locks@[k]@));
            }
        }
        let mut tx_copy = self.trim_copy();
        let mut i: usize = 0;
        while i < self.vin.len()
            invariant
                i <= self.vin@.len(),
                prev == transactions_view(prev_txs@),
                tx_copy@ == self@.trimmed(),
                locks@.len() == self@.vin.len(),
                forall|k: int|
                    0 <= k < locks@.len() ==> spent_lock(prev, self@.vin[k]) == Some(
                        #[trigger] locks@[k]@,
                    ),
                !self@.is_coinbase(),
                all_spent_known(self@, prev),
                inputs_verify_from(self@, prev, 0) == inputs_verify_from(self@, prev, i as int),
            decreases self.vin@.len() - i,
        {
            assert(spent_lock(prev, self@.vin[i as int]) == Some(locks@[i as int]@));
            let digest = match self.digest_for(&mut tx_copy, i, &locks[i]) {
                Some(text) => text,
                None => {
                    assert(signing_digest(self@, prev, i as int) is None);
                    return Err(ChainError::Corrupt);
                },
            };
            assert(signing_digest(self@, prev, i as int) == Some(digest@));
            if !verify_message(
                digest.as_str().as_bytes(),
                self.vin[i].pub_key.as_slice(),
                self.vin[i].signature.as_slice(),
            ) {
                return Ok(false);
            }
            i += 1;
        }
        Ok(true)
    }
    /// A payment of `amount` from `wallet` to the address `to`: spends unspent outputs of the
    /// wallet chosen from the index of `utxo`, pays what is left over back to the wallet, and
    /// is signed with the wallet's secret key.
    #[allow(non_snake_case)]
    pub fn new_UTXO(wallet: &Wallet, to: &str, amount: i32, utxo: &UTXOSet) -> (made: Result<
        Transaction,
        ChainError,
    >)
        ensures
            yields(
                made,
                payment_outcome(
                    wallet@,
                    to@,
                    amount,
                    utxo.utxos@,
                    utxo.blockchain@.transactions(),
                ),
            ),
    {
        if wallet.secret_key.len() != SIGNATURE_LEN {
            return Err(ChainError::Corrupt);
        }
        let pub_key_hash = match hash_of_pub_key(wallet.public_key.as_slice()) {
            Some(hash) => hash,
            None => {
                return Err(ChainError::Corrupt);
            },
        };
        let (total, groups) = match utxo.find_spendable_outputs(pub_key_hash.as_slice(), amount) {
            Ok(found) => found,
            Err(e) => {
                return Err(e);
            },
        };
        if total < amount {
            return Err(ChainError::InsufficientFunds);
        }
        if total as i64 - amount as i64 > 0x7fff_ffff {
            return Err(ChainError::Corrupt);
        }
        let ghost chosen = crate::utxoset::groups_view(groups@);
        let mut vin: Vec<TXInput> = Vec::new();
        let mut g: usize = 0;
        while g < groups.len()
            invariant
                g <= groups@.len(),
                chosen == crate::utxoset::groups_view(groups@),
                inputs_view(vin@) == inputs_spending(chosen, wallet@.public_key, g as int),
            decreases groups@.len() - g,
        {
            let ghost before = inputs_view(vin@);
            let ghost group = chosen[g as int];
            let mut i: usize = 0;
            while i < groups[g].1.len()
                invariant
                    i <= groups@[g as int].1@.len(),
                    g < groups@.len(),
                    chosen == crate::utxoset::groups_view(groups@),
                    group == chosen[g as int],
                    inputs_view(vin@) == before + Seq::new(
                        i as nat,
                        |k: int|
                            TXInputView {
                                txid: group.0,
                                vout: group.1[k],
                                signature: Seq::<u8>::empty(),
                                pub_key: wallet@.public_key,
                            },
                    ),
                decreases groups@[g as int].1@.len() - i,
            {
                let ghost sofar = inputs_view(vin@);
                let input = TXInput {
                    txid: groups[g].0.clone(),
                    vout: groups[g].1[i],
                    signature: Vec::new(),
                    pub_key: copy_bytes(wallet.public_key.as_slice()),
                };
                vin.push(input);
                assert(inputs_view(vin@) =~= sofar.push(input@));
                assert(inputs_view(vin@) =~= before + Seq::new(
                    (i + 1) as nat,
                    |k: int|
                        TXInputView {
                            txid: group.0,
                            vout: group.1[k],
                            signature: Seq::<u8>::empty(),
                            pub_key: wallet@.public_key,
                        },
                ));
                i += 1;
            }
            g += 1;
        }
        let first = match TXOutput::new(amount, to.to_owned()) {
            Ok(output) => output,
            Err(e) => {
                return Err(e);
            },
        };
        let mut vout: Vec<TXOutput> = vec![first];
        if total > amount {
            vout.push(TXOutput { value: total - amount, pub_key_hash });
        }
        assert(outputs_view(vout@) =~= payment_outputs(
            amount,
            total as int,
            first.pub_key_hash@,
            pub_key_hash@,
        ));
        let mut tx = Transaction { id: String::new(), vin, vout };
        tx.id = match tx.hash() {
            Ok(id) => id,
            Err(e) => {
                return Err(e);
            },
        };
        match utxo.blockchain.sign_transaction(&mut tx, wallet.secret_key.as_slice()) {
            Ok(_) => Ok(tx),
            Err(e) => Err(e),
        }
    }
}

} // verus!
