use crate::assoc::{
    entries_map, key_position, keys_distinct, lemma_entries_push, lemma_entries_remove,
    lemma_entries_update, lemma_key_position,
};
use crate::block::{Block, BlockView};
use crate::blockchain::Blockchain;
use crate::error::ChainError;
use crate::primitives::{address_decode, base58_address_body, str_equal};
use crate::transaction::{
    clone_outputs, outputs_view, transactions_view, TXInput, TXInputView, TXOutput,
    TXOutputView, TXOutputs, Transaction, TransactionView,
};
use vstd::prelude::*;

verus! {

/// One entry of the index, as mathematical values: a transaction identifier and the outputs
/// of that transaction that are unspent.
pub type EntryView = (Seq<char>, Seq<UnspentView>);

/// The index as a map from transaction identifiers to unspent outputs.
pub type UtxoMap = Map<Seq<char>, Seq<UnspentView>>;

/// An unspent output, with its number among the outputs of its transaction.
#[derive(Debug)]
pub struct Unspent {
    pub index: usize,
    pub output: TXOutput,
}

/// What an `Unspent` holds, as mathematical values.
pub struct UnspentView {
    pub index: int,
    pub output: TXOutputView,
}

/// The outputs of one transaction that are still unspent, each with its number: the value
/// that the index holds under the transaction's identifier.
#[derive(Debug)]
pub struct UnspentOutputs {
    pub outputs: Vec<Unspent>,
}

impl View for Unspent {
    type V = UnspentView;

    open spec fn view(&self) -> UnspentView {
        UnspentView { index: self.index as int, output: self.output@ }
    }
}

impl View for UnspentOutputs {
    type V = Seq<UnspentView>;

    open spec fn view(&self) -> Seq<UnspentView> {
        unspents_view(self.outputs@)
    }
}

/// The views of a sequence of unspent outputs.
pub open spec fn unspents_view(outputs: Seq<Unspent>) -> Seq<UnspentView> {
    outputs.map_values(|output: Unspent| output@)
}

/// All the outputs of a transaction, each with its number.
pub open spec fn numbered(outputs: Seq<TXOutputView>) -> Seq<UnspentView> {
    Seq::new(outputs.len(), |k: int| UnspentView { index: k, output: outputs[k] })
}

impl Clone for Unspent {
    fn clone(&self) -> (copy: Self)
        ensures
            copy@ == self@,
    {
        Unspent { index: self.index, output: self.output.clone() }
    }
}

/// A copy of a list of unspent outputs.
pub fn clone_unspents(outputs: &Vec<Unspent>) -> (copy: Vec<Unspent>)
    ensures
        unspents_view(copy@) == unspents_view(outputs@),
{
    let mut copy: Vec<Unspent> = Vec::new();
    let mut i: usize = 0;
    while i < outputs.len()
        invariant
            i <= outputs@.len(),
            copy@.len() == i,
            forall|k: int| 0 <= k < i ==> copy@[k]@ == outputs@[k]@,
        decreases outputs@.len() - i,
    {
        copy.push(outputs[i].clone());
        i += 1;
    }
    assert(unspents_view(copy@) =~= unspents_view(outputs@));
    copy
}

impl Clone for UnspentOutputs {
    fn clone(&self) -> (copy: Self)
        ensures
            copy@ == self@,
    {
        UnspentOutputs { outputs: clone_unspents(&self.outputs) }
    }
}

/// The sum of the values of the first `upto` of `outputs`.
pub open spec fn worth(outputs: Seq<UnspentView>, upto: int) -> int
    decreases upto,
{
    if upto <= 0 {
        0
    } else {
        worth(outputs, upto - 1) + outputs[upto - 1].output.value
    }
}

/// The sum of the values of `outputs`.
pub open spec fn worth_of(outputs: Seq<UnspentView>) -> int {
    worth(outputs, outputs.len() as int)
}

/// The views of a sequence of entries.
pub open spec fn entries_view(entries: Seq<(String, UnspentOutputs)>) -> Seq<EntryView> {
    entries.map_values(|entry: (String, UnspentOutputs)| (entry.0@, entry.1@))
}

/// The position among `entries` of the entry with the key `key`.
pub fn find_entry(entries: &Vec<(String, UnspentOutputs)>, key: &str) -> (found: Option<usize>)
    ensures
        match found {
            Some(k) => key_position(entries_view(entries@), key@, 0) == Some(k as int) && k
                < entries@.len(),
            None => key_position(entries_view(entries@), key@, 0) is None,
        },
{
    let mut i: usize = 0;
    while i < entries.len()
        invariant
            i <= entries@.len(),
            key_position(entries_view(entries@), key@, 0) == key_position(
                entries_view(entries@),
                key@,
                i as int,
            ),
        decreases entries@.len() - i,
    {
        if str_equal(entries[i].0.as_str(), key) {
            return Some(i);
        }
        i += 1;
    }
    None
}

/// Whether a non-coinbase transaction among the first `upto` of `txs` has an input that
/// refers to output `index` of the transaction `id`.
pub open spec fn spent_before(txs: Seq<TransactionView>, upto: int, id: Seq<char>, index: int) -> bool {
    exists|q: int, j: int|
        0 <= q < upto && q < txs.len() && !txs[q].is_coinbase() && 0 <= j < txs[q].vin.len() && (
        #[trigger] txs[q].vin[j]).txid == id && txs[q].vin[j].vout == index
}

/// Among the first `upto` outputs of transaction `at` of `txs`, those that no transaction
/// before it spends, in their order.
pub open spec fn unspent_outputs(txs: Seq<TransactionView>, at: int, upto: int) -> Seq<
    UnspentView,
>
    decreases upto,
{
    if upto <= 0 {
        Seq::<UnspentView>::empty()
    } else {
        let rest = unspent_outputs(txs, at, upto - 1);
        if spent_before(txs, at, txs[at].id, upto - 1) {
            rest
        } else {
            rest.push(UnspentView { index: upto - 1, output: txs[at].vout[upto - 1] })
        }
    }
}

/// The map with `outputs` added under `id`: after those that are there, and not at all
/// where there are none to add.
pub open spec fn with_outputs(map: UtxoMap, id: Seq<char>, outputs: Seq<UnspentView>) -> UtxoMap {
    if outputs.len() == 0 {
        map
    } else if map.contains_key(id) {
        map.insert(id, map[id] + outputs)
    } else {
        map.insert(id, outputs)
    }
}

/// The unspent outputs of the first `upto` transactions of `txs`, by transaction
/// identifier, each with its number. The transactions stand from the latest to the
/// earliest, so that an output counts as spent where a transaction before its own in
/// `txs`, which is a later one, refers to it.
pub open spec fn utxo_after(txs: Seq<TransactionView>, upto: int) -> UtxoMap
    decreases upto,
{
    if upto <= 0 {
        Map::<Seq<char>, Seq<UnspentView>>::empty()
    } else {
        with_outputs(
            utxo_after(txs, upto - 1),
            txs[upto - 1].id,
            unspent_outputs(txs, upto - 1, txs[upto - 1].vout.len() as int),
        )
    }
}

/// The unspent outputs of all of `txs`.
pub open spec fn utxo_of(txs: Seq<TransactionView>) -> UtxoMap {
    utxo_after(txs, txs.len() as int)
}

/// The sum of the values of `outputs`.
pub open spec fn value_of(outputs: Seq<TXOutputView>) -> int {
    total_value(outputs, outputs.len() as int)
}

/// Among the first `upto` outputs of transaction `at` of `txs`, those that a transaction
/// before it spends, in their order.
pub open spec fn spent_outputs(txs: Seq<TransactionView>, at: int, upto: int) -> Seq<TXOutputView>
    decreases upto,
{
    if upto <= 0 {
        Seq::<TXOutputView>::empty()
    } else {
        let rest = spent_outputs(txs, at, upto - 1);
        if spent_before(txs, at, txs[at].id, upto - 1) {
            rest.push(txs[at].vout[upto - 1])
        } else {
            rest
        }
    }
}

/// The value of the unspent outputs of the first `upto` transactions of `txs`.
pub open spec fn unspent_total(txs: Seq<TransactionView>, upto: int) -> int
    decreases upto,
{
    if upto <= 0 {
        0
    } else {
        unspent_total(txs, upto - 1) + worth_of(
            unspent_outputs(txs, upto - 1, txs[upto - 1].vout.len() as int),
        )
    }
}

/// The value of the spent outputs of the first `upto` transactions of `txs`.
pub open spec fn spent_total(txs: Seq<TransactionView>, upto: int) -> int
    decreases upto,
{
    if upto <= 0 {
        0
    } else {
        spent_total(txs, upto - 1) + value_of(
            spent_outputs(txs, upto - 1, txs[upto - 1].vout.len() as int),
        )
    }
}

/// The value of all the outputs of the first `upto` transactions of `txs`.
pub open spec fn outputs_total(txs: Seq<TransactionView>, upto: int) -> int
    decreases upto,
{
    if upto <= 0 {
        0
    } else {
        outputs_total(txs, upto - 1) + value_of(txs[upto - 1].vout)
    }
}

/// The value of the outputs of the coinbases among the first `upto` transactions of `txs`.
pub open spec fn coinbase_total(txs: Seq<TransactionView>, upto: int) -> int
    decreases upto,
{
    if upto <= 0 {
        0
    } else if txs[upto - 1].is_coinbase() {
        coinbase_total(txs, upto - 1) + value_of(txs[upto - 1].vout)
    } else {
        coinbase_total(txs, upto - 1)
    }
}

/// The value of the outputs in the first `upto` entries.
pub open spec fn entries_total(entries: Seq<EntryView>, upto: int) -> int
    decreases upto,
{
    if upto <= 0 {
        0
    } else {
        entries_total(entries, upto - 1) + worth_of(entries[upto - 1].1)
    }
}

/// The sum of the values of a run of outputs does not depend on what follows the run.
pub proof fn lemma_total_value_of_prefix(a: Seq<TXOutputView>, b: Seq<TXOutputView>, upto: int)
    requires
        0 <= upto <= a.len(),
        upto <= b.len(),
        forall|i: int| 0 <= i < upto ==> a[i] == b[i],
    ensures
        total_value(a, upto) == total_value(b, upto),
    decreases upto,
{
    if upto > 0 {
        lemma_total_value_of_prefix(a, b, upto - 1);
    }
}

/// The value of outputs with one more at their end.
pub proof fn lemma_value_of_push(outputs: Seq<TXOutputView>, last: TXOutputView)
    ensures
        value_of(outputs.push(last)) == value_of(outputs) + last.value,
{
    lemma_total_value_of_prefix(outputs.push(last), outputs, outputs.len() as int);
}

/// The value of two runs of outputs, one after the other.
pub proof fn lemma_value_of_concat(a: Seq<TXOutputView>, b: Seq<TXOutputView>)
    ensures
        value_of(a + b) == value_of(a) + value_of(b),
    decreases b.len(),
{
    if b.len() == 0 {
        assert(a + b =~= a);
    } else {
        lemma_value_of_concat(a, b.drop_last());
        assert(a + b =~= (a + b.drop_last()).push(b.last()));
        lemma_value_of_push(a + b.drop_last(), b.last());
        assert(b =~= b.drop_last().push(b.last()));
        lemma_value_of_push(b.drop_last(), b.last());
    }
}

/// The sum of the values of a run of unspent outputs does not depend on what follows the
/// run.
pub proof fn lemma_worth_of_prefix(a: Seq<UnspentView>, b: Seq<UnspentView>, upto: int)
    requires
        0 <= upto <= a.len(),
        upto <= b.len(),
        forall|i: int| 0 <= i < upto ==> a[i] == b[i],
    ensures
        worth(a, upto) == worth(b, upto),
    decreases upto,
{
    if upto > 0 {
        lemma_worth_of_prefix(a, b, upto - 1);
    }
}

/// The value of unspent outputs with one more at their end.
pub proof fn lemma_worth_of_push(outputs: Seq<UnspentView>, last: UnspentView)
    ensures
        worth_of(outputs.push(last)) == worth_of(outputs) + last.output.value,
{
    lemma_worth_of_prefix(outputs.push(last), outputs, outputs.len() as int);
}

/// The value of two runs of unspent outputs, one after the other.
pub proof fn lemma_worth_of_concat(a: Seq<UnspentView>, b: Seq<UnspentView>)
    ensures
        worth_of(a + b) == worth_of(a) + worth_of(b),
    decreases b.len(),
{
    if b.len() == 0 {
        assert(a + b =~= a);
    } else {
        lemma_worth_of_concat(a, b.drop_last());
        assert(a + b =~= (a + b.drop_last()).push(b.last()));
        lemma_worth_of_push(a + b.drop_last(), b.last());
        assert(b =~= b.drop_last().push(b.last()));
        lemma_worth_of_push(b.drop_last(), b.last());
    }
}

/// The value in a run of entries does not depend on what follows the run.
pub proof fn lemma_entries_total_of_prefix(a: Seq<EntryView>, b: Seq<EntryView>, upto: int)
    requires
        0 <= upto <= a.len(),
        upto <= b.len(),
        forall|i: int| 0 <= i < upto ==> a[i] == b[i],
    ensures
        entries_total(a, upto) == entries_total(b, upto),
    decreases upto,
{
    if upto > 0 {
        lemma_entries_total_of_prefix(a, b, upto - 1);
    }
}

/// The value in the entries after the outputs of one entry are replaced.
pub proof fn lemma_entries_total_update(
    entries: Seq<EntryView>,
    at: int,
    entry: EntryView,
    upto: int,
)
    requires
        0 <= at < entries.len(),
        0 <= upto <= entries.len(),
    ensures
        entries_total(entries.update(at, entry), upto) == entries_total(entries, upto) + (if at
            < upto {
            worth_of(entry.1) - worth_of(entries[at].1)
        } else {
            0
        }),
    decreases upto,
{
    if upto > 0 {
        lemma_entries_total_update(entries, at, entry, upto - 1);
    }
}

/// The outputs of a transaction are worth what the unspent and the spent among them are
/// worth together.
pub proof fn lemma_unspent_and_spent_outputs(txs: Seq<TransactionView>, at: int, upto: int)
    requires
        0 <= at < txs.len(),
        0 <= upto <= txs[at].vout.len(),
    ensures
        worth_of(unspent_outputs(txs, at, upto)) + value_of(spent_outputs(txs, at, upto))
            == total_value(txs[at].vout, upto),
    decreases upto,
{
    if upto > 0 {
        lemma_unspent_and_spent_outputs(txs, at, upto - 1);
        lemma_worth_of_push(
            unspent_outputs(txs, at, upto - 1),
            UnspentView { index: upto - 1, output: txs[at].vout[upto - 1] },
        );
        lemma_value_of_push(spent_outputs(txs, at, upto - 1), txs[at].vout[upto - 1]);
    }
}

/// The unspent outputs of a chain are worth what all its outputs are worth, less the worth
/// of the outputs that an input of a later transaction, no coinbase, refers to.
pub proof fn lemma_unspent_value(txs: Seq<TransactionView>, upto: int)
    requires
        0 <= upto <= txs.len(),
    ensures
        unspent_total(txs, upto) == outputs_total(txs, upto) - spent_total(txs, upto),
    decreases upto,
{
    if upto > 0 {
        lemma_unspent_value(txs, upto - 1);
        lemma_unspent_and_spent_outputs(txs, upto - 1, txs[upto - 1].vout.len() as int);
    }
}

/// The value of the outputs of the transactions that are no coinbases among the first
/// `upto` of `txs`.
pub open spec fn other_total(txs: Seq<TransactionView>, upto: int) -> int
    decreases upto,
{
    if upto <= 0 {
        0
    } else if txs[upto - 1].is_coinbase() {
        other_total(txs, upto - 1)
    } else {
        other_total(txs, upto - 1) + value_of(txs[upto - 1].vout)
    }
}

/// The outputs of a chain are those of its coinbases and those of its other transactions.
pub proof fn lemma_outputs_split(txs: Seq<TransactionView>, upto: int)
    ensures
        outputs_total(txs, upto) == coinbase_total(txs, upto) + other_total(txs, upto),
    decreases upto,
{
    if upto > 0 {
        lemma_outputs_split(txs, upto - 1);
    }
}

/// The unspent outputs of a chain are worth what its coinbases made, less the worth of the
/// outputs that are spent, exactly when the transactions that are no coinbases put out
/// nothing of worth.
pub proof fn lemma_unspent_value_against_coinbases(txs: Seq<TransactionView>, upto: int)
    requires
        0 <= upto <= txs.len(),
    ensures
        (unspent_total(txs, upto) == coinbase_total(txs, upto) - spent_total(txs, upto)) <==> (
        other_total(txs, upto) == 0),
{
    lemma_unspent_value(txs, upto);
    lemma_outputs_split(txs, upto);
}

/// Whether `spent` lists the reference to output `index` of transaction `id`.
pub open spec fn lists(spent: Seq<(String, i32)>, id: Seq<char>, index: int) -> bool {
    exists|m: int| 0 <= m < spent.len() && (#[trigger] spent[m]).0@ == id && spent[m].1 == index
}

/// Whether `spent` lists the reference to output `index` of transaction `id`.
fn is_listed(spent: &Vec<(String, i32)>, id: &str, index: usize) -> (listed: bool)
    ensures
        listed == lists(spent@, id@, index as int),
{
    let mut m: usize = 0;
    while m < spent.len()
        invariant
            m <= spent@.len(),
            forall|n: int|
                0 <= n < m ==> !((#[trigger] spent@[n]).0@ == id@ && spent@[n].1 == index as int),
        decreases spent@.len() - m,
    {
        if spent[m].1 >= 0 && spent[m].1 as usize == index && str_equal(
            spent[m].0.as_str(),
            id,
        ) {
            return true;
        }
        m += 1;
    }
    false
}

/// The unspent outputs of `txs`, by transaction identifier: one entry for each identifier
/// that has any, in no stated order.
pub fn unspent_of(txs: &Vec<&Transaction>) -> (entries: Vec<(String, UnspentOutputs)>)
    ensures
        keys_distinct(entries_view(entries@)),
        entries_map(entries_view(entries@)) == utxo_of(txs@.map_values(|tx: &Transaction| tx@)),
        entries_total(entries_view(entries@), entries@.len() as int) == unspent_total(
            txs@.map_values(|tx: &Transaction| tx@),
            txs@.len() as int,
        ),
{
    let ghost views = txs@.map_values(|tx: &Transaction| tx@);
    let mut utxos: Vec<(String, UnspentOutputs)> = Vec::new();
    let mut spent: Vec<(String, i32)> = Vec::new();
    let mut n: usize = 0;
    assert(entries_map(entries_view(utxos@)) =~= utxo_after(views, 0));
    while n < txs.len()
        invariant
            n <= txs@.len(),
            views == txs@.map_values(|tx: &Transaction| tx@),
            keys_distinct(entries_view(utxos@)),
            entries_map(entries_view(utxos@)) == utxo_after(views, n as int),
            entries_total(entries_view(utxos@), utxos@.len() as int) == unspent_total(
                views,
                n as int,
            ),
            forall|id: Seq<char>, index: int|
                #[trigger] lists(spent@, id, index) == spent_before(views, n as int, id, index),
        decreases txs@.len() - n,
    {
        let tx = txs[n];
        assert(tx@ == views[n as int]);
        let mut fresh: Vec<Unspent> = Vec::new();
        let mut k: usize = 0;
        while k < tx.vout.len()
            invariant
                k <= tx.vout@.len(),
                n < txs@.len(),
                tx@ == views[n as int],
                unspents_view(fresh@) == unspent_outputs(views, n as int, k as int),
                forall|id: Seq<char>, index: int|
                    #[trigger] lists(spent@, id, index) == spent_before(
                        views,
                        n as int,
                        id,
                        index,
                    ),
            decreases tx.vout@.len() - k,
        {
            assert(lists(spent@, tx.id@, k as int) == spent_before(
                views,
                n as int,
                tx.id@,
                k as int,
            ));
            if !is_listed(&spent, tx.id.as_str(), k) {
                fresh.push(Unspent { index: k, output: tx.vout[k].clone() });
                assert(unspents_view(fresh@) =~= unspent_outputs(views, n as int, k as int).push(
                    UnspentView { index: k as int, output: tx@.vout[k as int] },
                ));
            }
            k += 1;
        }
        let ghost before = entries_view(utxos@);
        let ghost added = unspents_view(fresh@);
        if fresh.len() > 0 {
            match find_entry(&utxos, tx.id.as_str()) {
                Some(m) => {
                    let mut joined = clone_unspents(&utxos[m].1.outputs);
                    joined.append(&mut fresh);
                    assert(unspents_view(joined@) =~= before[m as int].1 + added);
                    proof {
                        lemma_key_position(before, tx.id@, 0);
                        lemma_entries_update(before, m as int, before[m as int].1 + added);
                        lemma_entries_total_update(
                            before,
                            m as int,
                            (before[m as int].0, before[m as int].1 + added),
                            before.len() as int,
                        );
                        lemma_worth_of_concat(before[m as int].1, added);
                    }
                    utxos.set(m, (tx.id.clone(), UnspentOutputs { outputs: joined }));
                    assert(entries_view(utxos@) =~= before.update(
                        m as int,
                        (before[m as int].0, before[m as int].1 + added),
                    ));
                },
                None => {
                    proof {
                        lemma_entries_push(before, tx.id@, added);
                        lemma_entries_total_of_prefix(
                            before.push((tx.id@, added)),
                            before,
                            before.len() as int,
                        );
                    }
                    utxos.push((tx.id.clone(), UnspentOutputs { outputs: fresh }));
                    assert(entries_view(utxos@) =~= before.push((tx.id@, added)));
                },
            }
        }
        assert(entries_map(entries_view(utxos@)) == utxo_after(views, n + 1));
        assert(entries_total(entries_view(utxos@), utxos@.len() as int) == unspent_total(
            views,
            n + 1,
        ));
        if !tx.is_coinbase() {
            let mut j: usize = 0;
            while j < tx.vin.len()
                invariant
                    j <= tx.vin@.len(),
                    n < txs@.len(),
                    tx@ == views[n as int],
                    !tx@.is_coinbase(),
                    forall|id: Seq<char>, index: int|
                        #[trigger] lists(spent@, id, index) == (spent_before(
                            views,
                            n as int,
                            id,
                            index,
                        ) || exists|i: int|
                            0 <= i < j && (#[trigger] tx@.vin[i]).txid == id && tx@.vin[i].vout
                                == index),
                decreases tx.vin@.len() - j,
            {
                let ghost old_spent = spent@;
                spent.push((tx.vin[j].txid.clone(), tx.vin[j].vout));
                proof {
                    let input = tx@.vin[j as int];
                    assert forall|id: Seq<char>, index: int| #[trigger]
                        lists(spent@, id, index) == (spent_before(views, n as int, id, index)
                            || exists|i: int|
                            0 <= i < j + 1 && (#[trigger] tx@.vin[i]).txid == id && tx@.vin[i].vout
                                == index) by {
                        let earlier = exists|i: int|
                            0 <= i < j && (#[trigger] tx@.vin[i]).txid == id && tx@.vin[i].vout
                                == index;
                        let now = exists|i: int|
                            0 <= i < j + 1 && (#[trigger] tx@.vin[i]).txid == id
                                && tx@.vin[i].vout == index;
                        assert(lists(old_spent, id, index) == (spent_before(
                            views,
                            n as int,
                            id,
                            index,
                        ) || earlier));
                        if lists(spent@, id, index) {
                            let m = choose|m: int|
                                0 <= m < spent@.len() && (#[trigger] spent@[m]).0@ == id
                                    && spent@[m].1 == index;
                            if m < old_spent.len() {
                                assert(old_spent[m] == spent@[m]);
                                assert(lists(old_spent, id, index));
                                if earlier {
                                    let i = choose|i: int|
                                        0 <= i < j && (#[trigger] tx@.vin[i]).txid == id
                                            && tx@.vin[i].vout == index;
                                    assert(0 <= i < j + 1 && tx@.vin[i].txid == id);
                                }
                            } else {
                                assert(input.txid == id && input.vout == index);
                                assert(now);
                            }
                        }
                        if lists(old_spent, id, index) {
                            let m = choose|m: int|
                                0 <= m < old_spent.len() && (#[trigger] old_spent[m]).0@ == id
                                    && old_spent[m].1 == index;
                            assert(spent@[m] == old_spent[m]);
                        }
                        if now {
                            let i = choose|i: int|
                                0 <= i < j + 1 && (#[trigger] tx@.vin[i]).txid == id
                                    && tx@.vin[i].vout == index;
                            if i < j {
                                assert(earlier);
                            } else {
                                assert(spent@[old_spent.len() as int].0@ == id);
                            }
                        }
                    }
                }
                j += 1;
            }
        }
        proof {
            assert forall|id: Seq<char>, index: int| #[trigger]
                lists(spent@, id, index) == spent_before(views, n + 1, id, index) by {
                lemma_spent_before_step(views, n as int, id, index);
            }
        }
        n += 1;
    }
    utxos
}

/// An output is spent before position `upto + 1` where it is spent before `upto`, or where
/// the transaction at `upto` is no coinbase and has an input that refers to it.
pub proof fn lemma_spent_before_step(txs: Seq<TransactionView>, upto: int, id: Seq<char>, index: int)
    requires
        0 <= upto < txs.len(),
    ensures
        spent_before(txs, upto + 1, id, index) == (spent_before(txs, upto, id, index) || (
        !txs[upto].is_coinbase() && exists|i: int|
            0 <= i < txs[upto].vin.len() && (#[trigger] txs[upto].vin[i]).txid == id
                && txs[upto].vin[i].vout == index)),
{
    let here = !txs[upto].is_coinbase() && exists|i: int|
        0 <= i < txs[upto].vin.len() && (#[trigger] txs[upto].vin[i]).txid == id
            && txs[upto].vin[i].vout == index;
    if spent_before(txs, upto + 1, id, index) {
        let (q, j) = choose|q: int, j: int|
            0 <= q < upto + 1 && q < txs.len() && !txs[q].is_coinbase() && 0 <= j
                < txs[q].vin.len() && (#[trigger] txs[q].vin[j]).txid == id && txs[q].vin[j].vout
                == index;
        if q < upto {
            assert(spent_before(txs, upto, id, index));
        } else {
            assert(txs[upto].vin[j].txid == id);
            assert(here);
        }
    }
    if spent_before(txs, upto, id, index) {
        let (q, j) = choose|q: int, j: int|
            0 <= q < upto && q < txs.len() && !txs[q].is_coinbase() && 0 <= j < txs[q].vin.len()
                && (#[trigger] txs[q].vin[j]).txid == id && txs[q].vin[j].vout == index;
        assert(0 <= q < upto + 1 && txs[q].vin[j].txid == id);
    }
    if here {
        let i = choose|i: int|
            0 <= i < txs[upto].vin.len() && (#[trigger] txs[upto].vin[i]).txid == id
                && txs[upto].vin[i].vout == index;
        assert(0 <= upto < upto + 1 && txs[upto].vin[i].txid == id);
    }
}

/// Those of the first `upto` of `outputs` whose number is not `number`, in their order.
pub open spec fn without_number(outputs: Seq<UnspentView>, number: int, upto: int) -> Seq<
    UnspentView,
>
    decreases upto,
{
    if upto <= 0 {
        Seq::<UnspentView>::empty()
    } else if outputs[upto - 1].index == number {
        without_number(outputs, number, upto - 1)
    } else {
        without_number(outputs, number, upto - 1).push(outputs[upto - 1])
    }
}

/// `outputs` without the output that has the number `number` in its transaction.
pub open spec fn without_output(outputs: Seq<UnspentView>, number: int) -> Seq<UnspentView> {
    without_number(outputs, number, outputs.len() as int)
}

/// The index after `input` is spent: the outputs under the transaction it refers to lose
/// the one with the number that the input gives, and the entry goes where none is left.
/// `None` where the index holds nothing under that transaction.
pub open spec fn spend_input(map: UtxoMap, input: TXInputView) -> Option<UtxoMap> {
    if !map.contains_key(input.txid) {
        None
    } else {
        let rest = without_output(map[input.txid], input.vout as int);
        if rest.len() == 0 {
            Some(map.remove(input.txid))
        } else {
            Some(map.insert(input.txid, rest))
        }
    }
}

/// The index after the first `upto` of `inputs` are spent, one after the other.
pub open spec fn spend_inputs(map: UtxoMap, inputs: Seq<TXInputView>, upto: int) -> Option<UtxoMap>
    decreases upto,
{
    if upto <= 0 {
        Some(map)
    } else {
        match spend_inputs(map, inputs, upto - 1) {
            Some(m) => spend_input(m, inputs[upto - 1]),
            None => None,
        }
    }
}

/// The index after `tx`: its inputs spent, unless it is a coinbase, and all its outputs
/// entered under its identifier.
pub open spec fn apply_transaction(map: UtxoMap, tx: TransactionView) -> Option<UtxoMap> {
    let spent = if tx.is_coinbase() {
        Some(map)
    } else {
        spend_inputs(map, tx.vin, tx.vin.len() as int)
    };
    match spent {
        Some(m) => Some(m.insert(tx.id, numbered(tx.vout))),
        None => None,
    }
}

/// The index after the first `upto` of `txs`, one after the other.
pub open spec fn apply_transactions(map: UtxoMap, txs: Seq<TransactionView>, upto: int) -> Option<
    UtxoMap,
>
    decreases upto,
{
    if upto <= 0 {
        Some(map)
    } else {
        match apply_transactions(map, txs, upto - 1) {
            Some(m) => apply_transaction(m, txs[upto - 1]),
            None => None,
        }
    }
}

/// The index after the transactions of `block`.
pub open spec fn apply_block(map: UtxoMap, block: BlockView) -> Option<UtxoMap> {
    apply_transactions(map, block.transactions, block.transactions.len() as int)
}

/// The running total and the numbers chosen among the first `upto` of `outputs`, where
/// the total before them is `total`: an output locked to `lock` is chosen while the total is
/// below `amount`. `None` where a number or a total leaves the range of `i32`.
pub open spec fn choose_outputs(
    outputs: Seq<UnspentView>,
    lock: Seq<u8>,
    amount: int,
    total: int,
    upto: int,
) -> Option<(int, Seq<i32>)>
    decreases upto,
{
    if upto <= 0 {
        Some((total, Seq::<i32>::empty()))
    } else {
        match choose_outputs(outputs, lock, amount, total, upto - 1) {
            Some((sum, chosen)) => {
                let unspent = outputs[upto - 1];
                if unspent.output.pub_key_hash == lock && sum < amount {
                    if 0 <= unspent.index <= i32::MAX && i32::MIN <= sum + unspent.output.value
                        <= i32::MAX {
                        Some((sum + unspent.output.value, chosen.push(unspent.index as i32)))
                    } else {
                        None
                    }
                } else {
                    Some((sum, chosen))
                }
            },
            None => None,
        }
    }
}

/// The total and the outputs chosen among the first `upto` entries, entry after entry: for
/// each entry with a chosen output, its key and the numbers, in their transactions, of the outputs chosen in it.
pub open spec fn choose_spendable(entries: Seq<EntryView>, lock: Seq<u8>, amount: int, upto: int) -> Option<
    (int, Seq<(Seq<char>, Seq<i32>)>),
>
    decreases upto,
{
    if upto <= 0 {
        Some((0int, Seq::<(Seq<char>, Seq<i32>)>::empty()))
    } else {
        match choose_spendable(entries, lock, amount, upto - 1) {
            Some((sum, groups)) => {
                let entry = entries[upto - 1];
                match choose_outputs(entry.1, lock, amount, sum, entry.1.len() as int) {
                    Some((next, chosen)) => if chosen.len() > 0 {
                        Some((next, groups.push((entry.0, chosen))))
                    } else {
                        Some((next, groups))
                    },
                    None => None,
                }
            },
            None => None,
        }
    }
}

/// The outputs locked to `lock` among the first `upto` of `outputs`, in their order.
pub open spec fn locked_outputs(outputs: Seq<UnspentView>, lock: Seq<u8>, upto: int) -> Seq<
    TXOutputView,
>
    decreases upto,
{
    if upto <= 0 {
        Seq::<TXOutputView>::empty()
    } else if outputs[upto - 1].output.pub_key_hash == lock {
        locked_outputs(outputs, lock, upto - 1).push(outputs[upto - 1].output)
    } else {
        locked_outputs(outputs, lock, upto - 1)
    }
}

/// The outputs locked to `lock` in the first `upto` entries, entry after entry.
pub open spec fn locked_in_entries(entries: Seq<EntryView>, lock: Seq<u8>, upto: int) -> Seq<
    TXOutputView,
>
    decreases upto,
{
    if upto <= 0 {
        Seq::<TXOutputView>::empty()
    } else {
        locked_in_entries(entries, lock, upto - 1) + locked_outputs(
            entries[upto - 1].1,
            lock,
            entries[upto - 1].1.len() as int,
        )
    }
}

/// The sum of the values of the first `upto` of `outputs`.
pub open spec fn total_value(outputs: Seq<TXOutputView>, upto: int) -> int
    decreases upto,
{
    if upto <= 0 {
        0
    } else {
        total_value(outputs, upto - 1) + outputs[upto - 1].value
    }
}

/// Whether the sum of every run of the first outputs lies in the range of `i32`.
pub open spec fn totals_in_range(outputs: Seq<TXOutputView>) -> bool {
    forall|upto: int|
        0 <= upto <= outputs.len() ==> i32::MIN <= #[trigger] total_value(outputs, upto)
            <= i32::MAX
}

/// The views of the groups that `find_spendable_outputs` returns.
pub open spec fn groups_view(groups: Seq<(String, Vec<i32>)>) -> Seq<(Seq<char>, Seq<i32>)> {
    groups.map_values(|group: (String, Vec<i32>)| (group.0@, group.1@))
}

/// The index of unspent outputs: for each transaction that has any, its identifier and
/// those outputs.
#[derive(Debug)]
pub struct UtxoStore {
    entries: Vec<(String, UnspentOutputs)>,
}

impl View for UtxoStore {
    type V = Seq<EntryView>;

    closed spec fn view(&self) -> Seq<EntryView> {
        entries_view(self.entries@)
    }
}

/// A copy of a list of entries.
pub fn clone_entries(entries: &Vec<(String, UnspentOutputs)>) -> (copy: Vec<(String, UnspentOutputs)>)
    ensures
        entries_view(copy@) == entries_view(entries@),
{
    let mut copy: Vec<(String, UnspentOutputs)> = Vec::new();
    let mut i: usize = 0;
    while i < entries.len()
        invariant
            i <= entries@.len(),
            copy@.len() == i,
            forall|k: int|
                0 <= k < i ==> (#[trigger] copy@[k]).0@ == entries@[k].0@ && copy@[k].1@
                    == entries@[k].1@,
        decreases entries@.len() - i,
    {
        copy.push((entries[i].0.clone(), entries[i].1.clone()));
        i += 1;
    }
    assert(entries_view(copy@) =~= entries_view(entries@));
    copy
}

impl UtxoStore {
    #[verifier::type_invariant]
    spec fn inv(self) -> bool {
        keys_distinct(self@)
    }

    /// The map that the index stands for.
    pub open spec fn as_map(&self) -> UtxoMap {
        entries_map(self@)
    }

    /// An index with no entries.
    pub fn new() -> (store: UtxoStore)
        ensures
            store@.len() == 0,
    {
        UtxoStore { entries: Vec::new() }
    }

    /// The index with the given entries; `Corrupt` exactly when two of them have the same
    /// key.
    pub fn from_entries(entries: Vec<(String, UnspentOutputs)>) -> (made: Result<UtxoStore, ChainError>)
        ensures
            match made {
                Ok(store) => store@ == entries_view(entries@) && keys_distinct(store@),
                Err(e) => e == ChainError::Corrupt && !keys_distinct(entries_view(entries@)),
            },
    {
        let ghost views = entries_view(entries@);
        let mut j: usize = 0;
        while j < entries.len()
            invariant
                j <= entries@.len(),
                views == entries_view(entries@),
                forall|a: int, b: int|
                    0 <= a < b < j ==> (#[trigger] views[a]).0 != (#[trigger] views[b]).0,
            decreases entries@.len() - j,
        {
            let mut i: usize = 0;
            while i < j
                invariant
                    i <= j < entries@.len(),
                    views == entries_view(entries@),
                    forall|a: int| 0 <= a < i ==> (#[trigger] views[a]).0 != views[j as int].0,
                decreases j - i,
            {
                if str_equal(entries[i].0.as_str(), entries[j].0.as_str()) {
                    assert(views[i as int].0 == views[j as int].0);
                    return Err(ChainError::Corrupt);
                }
                i += 1;
            }
            j += 1;
        }
        Ok(UtxoStore { entries })
    }

    /// With distinct keys trusted by the caller's proof.
    fn from_distinct(entries: Vec<(String, UnspentOutputs)>) -> (store: UtxoStore)
        requires
            keys_distinct(entries_view(entries@)),
        ensures
            store@ == entries_view(entries@),
    {
        UtxoStore { entries }
    }

    /// The entries, in the order in which the index holds them.
    pub fn entries(&self) -> (entries: &Vec<(String, UnspentOutputs)>)
        ensures
            entries_view(entries@) == self@,
            keys_distinct(self@),
    {
        proof {
            use_type_invariant(self);
        }
        &self.entries
    }

    /// The number of entries.
    pub fn len(&self) -> (count: usize)
        ensures
            count == self@.len(),
    {
        self.entries.len()
    }

    /// The unspent outputs under `key`.
    pub fn get(&self, key: &str) -> (found: Option<UnspentOutputs>)
        ensures
            match found {
                Some(outputs) => self.as_map().contains_key(key@) && self.as_map()[key@]
                    == outputs@,
                None => !self.as_map().contains_key(key@),
            },
    {
        match find_entry(&self.entries, key) {
            Some(k) => Some(self.entries[k].1.clone()),
            None => None,
        }
    }
}

/// Enters `value` under `key`, in the place of what was there.
pub fn put_entry(entries: &mut Vec<(String, UnspentOutputs)>, key: String, value: UnspentOutputs)
    requires
        keys_distinct(entries_view(old(entries)@)),
    ensures
        keys_distinct(entries_view(final(entries)@)),
        entries_map(entries_view(final(entries)@)) == entries_map(
            entries_view(old(entries)@),
        ).insert(key@, value@),
{
    let ghost before = entries_view(entries@);
    match find_entry(entries, key.as_str()) {
        Some(k) => {
            proof {
                lemma_key_position(before, key@, 0);
                lemma_entries_update(before, k as int, value@);
            }
            entries.set(k, (key, value));
            assert(entries_view(entries@) =~= before.update(k as int, (before[k as int].0, value@)));
        },
        None => {
            proof {
                lemma_entries_push(before, key@, value@);
            }
            entries.push((key, value));
            assert(entries_view(entries@) =~= before.push((key@, value@)));
        },
    }
}

/// Takes out the entry under `key`, where there is one.
pub fn drop_entry(entries: &mut Vec<(String, UnspentOutputs)>, key: &str)
    requires
        keys_distinct(entries_view(old(entries)@)),
    ensures
        keys_distinct(entries_view(final(entries)@)),
        entries_map(entries_view(final(entries)@)) == entries_map(
            entries_view(old(entries)@),
        ).remove(key@),
{
    let ghost before = entries_view(entries@);
    match find_entry(entries, key) {
        Some(k) => {
            proof {
                lemma_key_position(before, key@, 0);
                lemma_entries_remove(before, k as int);
            }
            let _ = entries.remove(k);
            assert(entries_view(entries@) =~= before.remove(k as int));
        },
        None => {
            assert(entries_map(before) =~= entries_map(before).remove(key@));
        },
    }
}

/// The outputs of a transaction, each with its number.
pub fn number_outputs(outputs: &Vec<TXOutput>) -> (all: Vec<Unspent>)
    ensures
        unspents_view(all@) == numbered(crate::transaction::outputs_view(outputs@)),
{
    let mut all: Vec<Unspent> = Vec::new();
    let mut k: usize = 0;
    while k < outputs.len()
        invariant
            k <= outputs@.len(),
            all@.len() == k,
            forall|i: int|
                0 <= i < k ==> (#[trigger] all@[i])@ == (UnspentView {
                    index: i,
                    output: outputs@[i]@,
                }),
        decreases outputs@.len() - k,
    {
        all.push(Unspent { index: k, output: outputs[k].clone() });
        k += 1;
    }
    assert(unspents_view(all@) =~= numbered(crate::transaction::outputs_view(outputs@)));
    all
}

/// Spends `input` in `entries`; `false`, and nothing changed, exactly when they hold
/// nothing under the transaction that the input refers to.
fn spend_in(entries: &mut Vec<(String, UnspentOutputs)>, input: &TXInput) -> (found: bool)
    requires
        keys_distinct(entries_view(old(entries)@)),
    ensures
        keys_distinct(entries_view(final(entries)@)),
        match spend_input(entries_map(entries_view(old(entries)@)), input@) {
            Some(map) => found && entries_map(entries_view(final(entries)@)) == map,
            None => !found && entries_view(final(entries)@) == entries_view(old(entries)@),
        },
{
    let ghost before = entries_view(entries@);
    let k = match find_entry(entries, input.txid.as_str()) {
        Some(k) => k,
        None => {
            return false;
        },
    };
    proof {
        lemma_key_position(before, input@.txid, 0);
    }
    let outs = &entries[k].1;
    let mut rest: Vec<Unspent> = Vec::new();
    let mut i: usize = 0;
    let ghost all = outs@;
    let ghost gone: int = input.vout as int;
    while i < outs.outputs.len()
        invariant
            i <= outs.outputs@.len(),
            all == unspents_view(outs.outputs@),
            gone == input.vout as int,
            unspents_view(rest@) == without_number(all, gone, i as int),
        decreases outs.outputs@.len() - i,
    {
        let keep = !(input.vout >= 0 && input.vout as usize == outs.outputs[i].index);
        if keep {
            let ghost sofar = unspents_view(rest@);
            rest.push(outs.outputs[i].clone());
            assert(unspents_view(rest@) =~= sofar.push(all[i as int]));
        }
        i += 1;
    }
    if rest.len() == 0 {
        drop_entry(entries, input.txid.as_str());
    } else {
        put_entry(entries, input.txid.clone(), UnspentOutputs { outputs: rest });
    }
    true
}

/// The chain together with the index of its unspent outputs.
#[derive(Debug)]
pub struct UTXOSet {
    pub blockchain: Blockchain,
    pub utxos: UtxoStore,
}

impl UTXOSet {
    /// The chain with an empty index, to be filled by `reindex`.
    pub fn new(blockchain: Blockchain) -> (set: UTXOSet)
        ensures
            set.blockchain@ == blockchain@,
            set.utxos@.len() == 0,
    {
        UTXOSet { blockchain, utxos: UtxoStore::new() }
    }

    /// Rebuilds the index from the chain: afterwards it holds the unspent outputs of the
    /// chain's transactions, and nothing else.
    pub fn reindex(&mut self) -> (done: Result<(), ChainError>)
        ensures
            done is Ok,
            final(self).blockchain@ == old(self).blockchain@,
            final(self).utxos.as_map() == crate::utxoset::utxo_of(
                old(self).blockchain@.spending_order(),
            ),
            keys_distinct(final(self).utxos@),
            entries_total(final(self).utxos@, final(self).utxos@.len() as int)
                == outputs_total(
                old(self).blockchain@.spending_order(),
                old(self).blockchain@.spending_order().len() as int,
            ) - spent_total(
                old(self).blockchain@.spending_order(),
                old(self).blockchain@.spending_order().len() as int,
            ),
    {
        proof {
            lemma_unspent_value(
                self.blockchain@.spending_order(),
                self.blockchain@.spending_order().len() as int,
            );
        }
        let entries = self.blockchain.find_UTXO();
        self.utxos = UtxoStore::from_distinct(entries);
        Ok(())
    }

    /// Brings the index up to date with `block`: spends the inputs of its transactions and
    /// enters their outputs, transaction after transaction. The output that an input spends
    /// is the one with the number that the input gives, among the outputs of the
    /// transaction that it refers to. `NotFound`, and the index unchanged, exactly when an
    /// input refers to a transaction under which the index then holds nothing.
    pub fn update(&mut self, block: &Block) -> (done: Result<(), ChainError>)
        ensures
            final(self).blockchain@ == old(self).blockchain@,
            keys_distinct(final(self).utxos@),
            match done {
                Ok(_) => apply_block(old(self).utxos.as_map(), block@) == Some(
                    final(self).utxos.as_map(),
                ),
                Err(e) => e == ChainError::NotFound && apply_block(
                    old(self).utxos.as_map(),
                    block@,
                ) is None && final(self).utxos@ == old(self).utxos@,
            },
    {
        let ghost start = self.utxos.as_map();
        let mut entries = clone_entries(self.utxos.entries());
        let txs = block.get_transactions();
        let ghost views = block@.transactions;
        let mut t: usize = 0;
        while t < txs.len()
            invariant
                t <= txs@.len(),
                views == transactions_view(txs@),
                keys_distinct(entries_view(entries@)),
                keys_distinct(self.utxos@),
                start == self.utxos.as_map(),
                views == block@.transactions,
                self.blockchain@ == old(self).blockchain@,
                self.utxos@ == old(self).utxos@,
                apply_transactions(start, views, t as int) == Some(
                    entries_map(entries_view(entries@)),
                ),
            decreases txs@.len() - t,
        {
            let tx = &txs[t];
            assert(tx@ == views[t as int]);
            if !tx.is_coinbase() {
                let ghost base = entries_map(entries_view(entries@));
                let mut j: usize = 0;
                while j < tx.vin.len()
                    invariant
                        j <= tx.vin@.len(),
                        t < txs@.len(),
                        views == transactions_view(txs@),
                        tx@ == views[t as int],
                        !tx@.is_coinbase(),
                        keys_distinct(self.utxos@),
                        start == self.utxos.as_map(),
                        views == block@.transactions,
                        self.blockchain@ == old(self).blockchain@,
                        self.utxos@ == old(self).utxos@,
                        apply_transactions(start, views, t as int) == Some(base),
                        keys_distinct(entries_view(entries@)),
                        spend_inputs(base, tx@.vin, j as int) == Some(
                            entries_map(entries_view(entries@)),
                        ),
                    decreases tx.vin@.len() - j,
                {
                    if !spend_in(&mut entries, &tx.vin[j]) {
                        assert(spend_inputs(base, tx@.vin, j + 1) is None);
                        proof {
                            lemma_spend_inputs_stays_none(
                                base,
                                tx@.vin,
                                j + 1,
                                tx@.vin.len() as int,
                            );
                            assert(apply_transaction(base, tx@) is None);
                            assert(apply_transactions(start, views, t + 1) is None);
                            lemma_apply_transactions_stays_none(
                                start,
                                views,
                                t + 1,
                                views.len() as int,
                            );
                        }
                        return Err(ChainError::NotFound);
                    }
                    j += 1;
                }
            }
            put_entry(&mut entries, tx.id.clone(), UnspentOutputs { outputs: number_outputs(&tx.vout) });
            t += 1;
        }
        self.utxos = UtxoStore::from_distinct(entries);
        Ok(())
    }

    /// The number of entries of the index; `Corrupt` exactly when it does not fit `i32`.
    pub fn count_transactions(&self) -> (count: Result<i32, ChainError>)
        ensures
            match count {
                Ok(n) => n == self.utxos@.len(),
                Err(e) => e == ChainError::Corrupt && self.utxos@.len() > i32::MAX,
            },
    {
        let n = self.utxos.len();
        if n > 0x7fff_ffff {
            Err(ChainError::Corrupt)
        } else {
            Ok(n as i32)
        }
    }

    /// Chooses unspent outputs locked to `pub_hash_key` until their values add up to
    /// `amount`, going through the entries in the order of the index. Gives the total and,
    /// for each transaction with a chosen output, its identifier and the numbers that the
    /// chosen outputs have among the outputs of that transaction. `Corrupt` exactly when a
    /// number or a total leaves the range of `i32`.
    pub fn find_spendable_outputs(&self, pub_hash_key: &[u8], amount: i32) -> (found: Result<
        (i32, Vec<(String, Vec<i32>)>),
        ChainError,
    >)
        ensures
            match found {
                Ok((total, groups)) => choose_spendable(
                    self.utxos@,
                    pub_hash_key@,
                    amount as int,
                    self.utxos@.len() as int,
                ) == Some((total as int, groups_view(groups@))),
                Err(e) => e == ChainError::Corrupt && choose_spendable(
                    self.utxos@,
                    pub_hash_key@,
                    amount as int,
                    self.utxos@.len() as int,
                ) is None,
            },
    {
        let entries = self.utxos.entries();
        let ghost views = self.utxos@;
        let mut groups: Vec<(String, Vec<i32>)> = Vec::new();
        let mut accumulated: i32 = 0;
        let mut e: usize = 0;
        while e < entries.len()
            invariant
                e <= entries@.len(),
                views == entries_view(entries@),
                views == self.utxos@,
                choose_spendable(views, pub_hash_key@, amount as int, e as int) == Some(
                    (accumulated as int, groups_view(groups@)),
                ),
            decreases entries@.len() - e,
        {
            let outs = &entries[e].1;
            let ghost before = accumulated as int;
            let ghost all = views[e as int].1;
            let mut chosen: Vec<i32> = Vec::new();
            let mut i: usize = 0;
            while i < outs.outputs.len()
                invariant
                    i <= outs.outputs@.len(),
                    e < entries@.len(),
                    views == entries_view(entries@),
                    all == unspents_view(outs.outputs@),
                    all == views[e as int].1,
                    views == self.utxos@,
                    choose_spendable(views, pub_hash_key@, amount as int, e as int) == Some(
                        (before, groups_view(groups@)),
                    ),
                    choose_outputs(all, pub_hash_key@, amount as int, before, i as int) == Some(
                        (accumulated as int, chosen@),
                    ),
                decreases outs.outputs@.len() - i,
            {
                let unspent = &outs.outputs[i];
                assert(unspent@ == all[i as int]);
                if unspent.output.is_locked_with_key(pub_hash_key) && accumulated < amount {
                    let sum = accumulated as i64 + unspent.output.value as i64;
                    if unspent.index > 0x7fff_ffff || sum > 0x7fff_ffff || sum < -0x8000_0000 {
                        proof {
                            assert(choose_outputs(
                                all,
                                pub_hash_key@,
                                amount as int,
                                before,
                                i + 1,
                            ) is None);
                            lemma_choose_outputs_stays_none(
                                all,
                                pub_hash_key@,
                                amount as int,
                                before,
                                i + 1,
                                all.len() as int,
                            );
                            assert(choose_spendable(views, pub_hash_key@, amount as int, e + 1)
                                is None);
                            lemma_choose_spendable_stays_none(
                                views,
                                pub_hash_key@,
                                amount as int,
                                e + 1,
                                views.len() as int,
                            );
                        }
                        return Err(ChainError::Corrupt);
                    }
                    accumulated = sum as i32;
                    chosen.push(unspent.index as i32);
                }
                i += 1;
            }
            if chosen.len() > 0 {
                groups.push((entries[e].0.clone(), chosen));
                assert(groups_view(groups@) =~= choose_spendable(
                    views,
                    pub_hash_key@,
                    amount as int,
                    e + 1,
                ).unwrap().1);
            }
            e += 1;
        }
        Ok((accumulated, groups))
    }

    /// The unspent outputs locked to `pub_hash_key`, going through the entries in the order
    /// of the index.
    #[allow(non_snake_case)]
    pub fn find_UTXO(&self, pub_hash_key: &[u8]) -> (found: Result<TXOutputs, ChainError>)
        ensures
            found matches Ok(outputs) && outputs@ == locked_in_entries(
                self.utxos@,
                pub_hash_key@,
                self.utxos@.len() as int,
            ),
    {
        let entries = self.utxos.entries();
        let ghost views = self.utxos@;
        let mut utxos: Vec<TXOutput> = Vec::new();
        let mut e: usize = 0;
        while e < entries.len()
            invariant
                e <= entries@.len(),
                views == entries_view(entries@),
                outputs_view(utxos@) == locked_in_entries(views, pub_hash_key@, e as int),
            decreases entries@.len() - e,
        {
            let outs = &entries[e].1;
            let ghost all = views[e as int].1;
            let ghost before = outputs_view(utxos@);
            let mut i: usize = 0;
            while i < outs.outputs.len()
                invariant
                    i <= outs.outputs@.len(),
                    all == unspents_view(outs.outputs@),
                    outputs_view(utxos@) == before + locked_outputs(all, pub_hash_key@, i as int),
                decreases outs.outputs@.len() - i,
            {
                let unspent = &outs.outputs[i];
                assert(unspent@ == all[i as int]);
                if unspent.output.is_locked_with_key(pub_hash_key) {
                    let ghost sofar = outputs_view(utxos@);
                    utxos.push(unspent.output.clone());
                    assert(outputs_view(utxos@) =~= sofar.push(all[i as int].output));
                    assert(outputs_view(utxos@) =~= before + locked_outputs(
                        all,
                        pub_hash_key@,
                        i + 1,
                    ));
                }
                i += 1;
            }
            e += 1;
        }
        Ok(TXOutputs { outputs: utxos })
    }

    /// The sum of the values of the unspent outputs locked to the public-key hash that
    /// `address` carries. `Corrupt` exactly when `address` is no Base58 address, or when
    /// the sum of a run of the first of those outputs leaves the range of `i32`.
    pub fn get_balance(&self, address: &str) -> (balance: Result<i32, ChainError>)
        ensures
            match balance {
                Ok(sum) => base58_address_body(address@) matches Some(lock) && ({
                    let mine = locked_in_entries(self.utxos@, lock, self.utxos@.len() as int);
                    totals_in_range(mine) && sum == total_value(mine, mine.len() as int)
                }),
                Err(e) => e == ChainError::Corrupt && match base58_address_body(address@) {
                    Some(lock) => !totals_in_range(
                        locked_in_entries(self.utxos@, lock, self.utxos@.len() as int),
                    ),
                    None => true,
                },
            },
    {
        let pub_key_hash = match address_decode(address) {
            Ok(hash) => hash,
            Err(e) => {
                return Err(e);
            },
        };
        let utxos = match self.find_UTXO(pub_key_hash.as_slice()) {
            Ok(utxos) => utxos,
            Err(e) => {
                return Err(ChainError::Corrupt);
            },
        };
        let ghost mine = utxos@;
        let mut balance: i32 = 0;
        let mut i: usize = 0;
        while i < utxos.outputs.len()
            invariant
                i <= utxos.outputs@.len(),
                mine == outputs_view(utxos.outputs@),
                base58_address_body(address@) == Some(pub_key_hash@),
                mine == locked_in_entries(self.utxos@, pub_key_hash@, self.utxos@.len() as int),
                balance == total_value(mine, i as int),
                forall|upto: int|
                    0 <= upto <= i ==> i32::MIN <= #[trigger] total_value(mine, upto) <= i32::MAX,
            decreases utxos.outputs@.len() - i,
        {
            let sum = balance as i64 + utxos.outputs[i].value as i64;
            if sum > 0x7fff_ffff || sum < -0x8000_0000 {
                assert(total_value(mine, i + 1) == sum);
                assert(!(i32::MIN <= total_value(mine, i + 1) <= i32::MAX));
                return Err(ChainError::Corrupt);
            }
            balance = sum as i32;
            i += 1;
        }
        Ok(balance)
    }
}

/// The group that choosing in one entry gives, where the total before it is `start`: the
/// entry's key and the numbers chosen in it, where any is chosen.
pub open spec fn chosen_in(entry: EntryView, lock: Seq<u8>, amount: int, start: int) -> Option<
    (Seq<char>, Seq<i32>),
> {
    match choose_outputs(entry.1, lock, amount, start, entry.1.len() as int) {
        Some((_, chosen)) => if chosen.len() > 0 {
            Some((entry.0, chosen))
        } else {
            None
        },
        None => None,
    }
}

/// Every group that the choice among the entries gives is what choosing in one of the
/// entries gives, and is not empty.
pub proof fn lemma_groups_are_chosen(entries: Seq<EntryView>, lock: Seq<u8>, amount: int, upto: int)
    requires
        0 <= upto <= entries.len(),
        choose_spendable(entries, lock, amount, upto) is Some,
    ensures
        forall|g: int|
            0 <= g < choose_spendable(entries, lock, amount, upto).unwrap().1.len()
                ==> exists|e: int, start: int|
                0 <= e < upto && #[trigger] chosen_in(entries[e], lock, amount, start) == Some(
                    #[trigger] choose_spendable(entries, lock, amount, upto).unwrap().1[g],
                ),
    decreases upto,
{
    if upto > 0 {
        lemma_groups_are_chosen(entries, lock, amount, upto - 1);
        let (sum, before) = choose_spendable(entries, lock, amount, upto - 1).unwrap();
        let now = choose_spendable(entries, lock, amount, upto).unwrap().1;
        assert forall|g: int| 0 <= g < now.len() implies exists|e: int, start: int|
            0 <= e < upto && #[trigger] chosen_in(entries[e], lock, amount, start) == Some(
                #[trigger] now[g],
            ) by {
            if g < before.len() {
                let (e, start) = choose|e: int, start: int|
                    0 <= e < upto - 1 && #[trigger] chosen_in(entries[e], lock, amount, start)
                        == Some(before[g]);
                assert(now[g] == before[g]);
                assert(0 <= e < upto && chosen_in(entries[e], lock, amount, start) == Some(
                    now[g],
                ));
            } else {
                assert(chosen_in(entries[upto - 1], lock, amount, sum) == Some(now[g]));
            }
        }
    }
}

/// The unspent outputs chosen among the first `upto` of `outputs`, where the total before
/// them is `total`; none where the choice fails.
pub open spec fn picked_outputs(
    outputs: Seq<UnspentView>,
    lock: Seq<u8>,
    amount: int,
    total: int,
    upto: int,
) -> Seq<UnspentView>
    decreases upto,
{
    if upto <= 0 {
        Seq::<UnspentView>::empty()
    } else {
        match choose_outputs(outputs, lock, amount, total, upto - 1) {
            Some((sum, _)) => if outputs[upto - 1].output.pub_key_hash == lock && sum < amount {
                picked_outputs(outputs, lock, amount, total, upto - 1).push(outputs[upto - 1])
            } else {
                picked_outputs(outputs, lock, amount, total, upto - 1)
            },
            None => Seq::<UnspentView>::empty(),
        }
    }
}

/// Where the choice among unspent outputs succeeds, the numbers chosen are those of the
/// outputs picked, in their order; the total has grown by what those outputs are worth;
/// and an output is picked only while the total is below the amount.
pub proof fn lemma_chosen_are_picked(
    outputs: Seq<UnspentView>,
    lock: Seq<u8>,
    amount: int,
    total: int,
    upto: int,
)
    requires
        0 <= upto <= outputs.len(),
        choose_outputs(outputs, lock, amount, total, upto) is Some,
    ensures
        ({
            let (sum, chosen) = choose_outputs(outputs, lock, amount, total, upto).unwrap();
            let picked = picked_outputs(outputs, lock, amount, total, upto);
            &&& chosen.len() == picked.len()
            &&& forall|c: int| 0 <= c < chosen.len() ==> (#[trigger] chosen[c]) == picked[c].index
            &&& sum == total + worth_of(picked)
            &&& picked.len() > 0 ==> sum - picked.last().output.value < amount
        }),
    decreases upto,
{
    if upto > 0 {
        lemma_chosen_are_picked(outputs, lock, amount, total, upto - 1);
        let (before_sum, before) = choose_outputs(outputs, lock, amount, total, upto - 1).unwrap();
        let earlier = picked_outputs(outputs, lock, amount, total, upto - 1);
        if outputs[upto - 1].output.pub_key_hash == lock && before_sum < amount {
            lemma_worth_of_push(earlier, outputs[upto - 1]);
        }
    }
}

/// Every number chosen among unspent outputs is the number, in its transaction, of one of
/// them that is locked to the key.
pub proof fn lemma_chosen_are_locked(
    outputs: Seq<UnspentView>,
    lock: Seq<u8>,
    amount: int,
    total: int,
    upto: int,
)
    requires
        0 <= upto <= outputs.len(),
        choose_outputs(outputs, lock, amount, total, upto) is Some,
    ensures
        forall|c: int|
            0 <= c < choose_outputs(outputs, lock, amount, total, upto).unwrap().1.len()
                ==> exists|i: int|
                0 <= i < upto && (#[trigger] outputs[i]).index == (#[trigger] choose_outputs(
                    outputs,
                    lock,
                    amount,
                    total,
                    upto,
                ).unwrap().1[c]) && outputs[i].output.pub_key_hash == lock,
    decreases upto,
{
    if upto > 0 {
        lemma_chosen_are_locked(outputs, lock, amount, total, upto - 1);
        let before = choose_outputs(outputs, lock, amount, total, upto - 1).unwrap().1;
        let now = choose_outputs(outputs, lock, amount, total, upto).unwrap().1;
        assert forall|c: int| 0 <= c < now.len() implies exists|i: int|
            0 <= i < upto && (#[trigger] outputs[i]).index == (#[trigger] now[c])
                && outputs[i].output.pub_key_hash == lock by {
            if c < before.len() {
                let i = choose|i: int|
                    0 <= i < upto - 1 && (#[trigger] outputs[i]).index == before[c]
                        && outputs[i].output.pub_key_hash == lock;
                assert(now[c] == before[c]);
                assert(outputs[i].index == now[c]);
            } else {
                assert(outputs[upto - 1].index == now[c]);
            }
        }
    }
}

/// Once spending the inputs has failed, it has failed for every longer run of them.
pub proof fn lemma_spend_inputs_stays_none(
    map: UtxoMap,
    inputs: Seq<TXInputView>,
    failed: int,
    upto: int,
)
    requires
        failed <= upto,
        spend_inputs(map, inputs, failed) is None,
    ensures
        spend_inputs(map, inputs, upto) is None,
    decreases upto - failed,
{
    if failed < upto {
        lemma_spend_inputs_stays_none(map, inputs, failed, upto - 1);
    }
}

/// Once applying the transactions has failed, it has failed for every longer run of them.
pub proof fn lemma_apply_transactions_stays_none(
    map: UtxoMap,
    txs: Seq<TransactionView>,
    failed: int,
    upto: int,
)
    requires
        failed <= upto,
        apply_transactions(map, txs, failed) is None,
    ensures
        apply_transactions(map, txs, upto) is None,
    decreases upto - failed,
{
    if failed < upto {
        lemma_apply_transactions_stays_none(map, txs, failed, upto - 1);
    }
}

/// Once choosing among the outputs has failed, it has failed for every longer run of them.
pub proof fn lemma_choose_outputs_stays_none(
    outputs: Seq<UnspentView>,
    lock: Seq<u8>,
    amount: int,
    total: int,
    failed: int,
    upto: int,
)
    requires
        failed <= upto,
        choose_outputs(outputs, lock, amount, total, failed) is None,
    ensures
        choose_outputs(outputs, lock, amount, total, upto) is None,
    decreases upto - failed,
{
    if failed < upto {
        lemma_choose_outputs_stays_none(outputs, lock, amount, total, failed, upto - 1);
    }
}

/// Once choosing among the entries has failed, it has failed for every longer run of them.
pub proof fn lemma_choose_spendable_stays_none(
    entries: Seq<EntryView>,
    lock: Seq<u8>,
    amount: int,
    failed: int,
    upto: int,
)
    requires
        failed <= upto,
        choose_spendable(entries, lock, amount, failed) is None,
    ensures
        choose_spendable(entries, lock, amount, upto) is None,
    decreases upto - failed,
{
    if failed < upto {
        lemma_choose_spendable_stays_none(entries, lock, amount, failed, upto - 1);
    }
}


} // verus!
