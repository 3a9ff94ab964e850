use crate::block::BlockView;
use crate::blockchain::{
    chain_from, descends, hashes_distinct, lemma_descent_fits, lemma_first_with_id,
    lemma_position_of_hash, lemma_store_put, reversed, spending_order_of, store_put, stored,
    BlockchainView,
};
use crate::transaction::{first_with_id, TXInputView, TransactionView};
use crate::assoc::{entries_map, keys_distinct, lemma_key_position_is};
use crate::utxoset::{
    apply_block, apply_transaction, apply_transactions, choose_outputs, choose_spendable,
    chosen_in, lemma_chosen_are_locked, lemma_groups_are_chosen, numbered, spend_input,
    spend_inputs, spent_before, unspent_outputs, utxo_after, utxo_of, with_outputs,
    without_number, without_output, EntryView, UnspentView, UtxoMap,
};
use vstd::prelude::*;

verus! {

/// What a map holds under a key, if anything.
pub open spec fn entry(map: UtxoMap, id: Seq<char>) -> Option<Seq<UnspentView>> {
    if map.contains_key(id) {
        Some(map[id])
    } else {
        None
    }
}

/// Two maps that hold the same under every key are the same map.
pub proof fn lemma_maps_equal_by_entries(a: UtxoMap, b: UtxoMap)
    requires
        forall|id: Seq<char>| #[trigger] entry(a, id) == entry(b, id),
    ensures
        a == b,
{
    assert forall|id: Seq<char>|
        (#[trigger] a.dom().contains(id)) == b.dom().contains(id) && (a.dom().contains(id)
            ==> a[id] == b[id]) by {
        assert(entry(a, id) == entry(b, id));
    }
    assert(a =~= b);
}

/// Whether no two of `txs` have the same identifier.
pub open spec fn ids_distinct(txs: Seq<TransactionView>) -> bool {
    forall|i: int, j: int|
        0 <= i < j < txs.len() ==> (#[trigger] txs[i]).id != (#[trigger] txs[j]).id
}

/// The unspent outputs of the transaction at `at`, all of them considered.
pub open spec fn unspent_at(txs: Seq<TransactionView>, at: int) -> Seq<UnspentView> {
    unspent_outputs(txs, at, txs[at].vout.len() as int)
}

/// What the index of `txs` holds under `id`: the unspent outputs of the transaction that
/// `id` identifies, where it has any.
pub open spec fn utxo_entry(txs: Seq<TransactionView>, upto: int, id: Seq<char>) -> Option<
    Seq<UnspentView>,
> {
    match first_with_id(txs, id, 0) {
        Some(p) => if p < upto && unspent_at(txs, p).len() > 0 {
            Some(unspent_at(txs, p))
        } else {
            None
        },
        None => None,
    }
}

/// With distinct identifiers, a transaction is the first with its identifier.
pub proof fn lemma_first_with_own_id(txs: Seq<TransactionView>, at: int)
    requires
        ids_distinct(txs),
        0 <= at < txs.len(),
    ensures
        first_with_id(txs, txs[at].id, 0) == Some(at),
{
    lemma_first_with_id(txs, txs[at].id, 0);
    let found = first_with_id(txs, txs[at].id, 0);
    if found is Some && found.unwrap() < at {
        assert(txs[found.unwrap()].id != txs[at].id);
    }
}

/// With distinct identifiers, the index holds under each identifier the unspent outputs
/// of the one transaction that it identifies.
pub proof fn lemma_utxo_closed_form(txs: Seq<TransactionView>, upto: int, id: Seq<char>)
    requires
        ids_distinct(txs),
        0 <= upto <= txs.len(),
    ensures
        entry(utxo_after(txs, upto), id) == utxo_entry(txs, upto, id),
    decreases upto,
{
    lemma_first_with_id(txs, id, 0);
    if upto > 0 {
        lemma_utxo_closed_form(txs, upto - 1, id);
        lemma_utxo_closed_form(txs, upto - 1, txs[upto - 1].id);
        lemma_first_with_own_id(txs, upto - 1);
        let before = utxo_after(txs, upto - 1);
        let fresh = unspent_at(txs, upto - 1);
        assert(utxo_after(txs, upto) == with_outputs(before, txs[upto - 1].id, fresh));
        assert(!before.contains_key(txs[upto - 1].id));
    }
}

/// What is spent before a position in the second of two runs of transactions is what the
/// first run spends and what the second spends before that position.
pub proof fn lemma_spent_before_concat(
    first: Seq<TransactionView>,
    second: Seq<TransactionView>,
    upto: int,
    id: Seq<char>,
    index: int,
)
    requires
        0 <= upto <= second.len(),
    ensures
        spent_before(first + second, first.len() + upto, id, index) == (spent_before(
            first,
            first.len() as int,
            id,
            index,
        ) || spent_before(second, upto, id, index)),
{
    let both = first + second;
    let n = first.len() as int;
    if spent_before(both, n + upto, id, index) {
        let (q, j) = choose|q: int, j: int|
            0 <= q < n + upto && q < both.len() && !both[q].is_coinbase() && 0 <= j
                < both[q].vin.len() && (#[trigger] both[q].vin[j]).txid == id && both[q].vin[j].vout
                == index;
        if q < n {
            assert(both[q] == first[q]);
            assert(first[q].vin[j].txid == id);
        } else {
            assert(both[q] == second[q - n]);
            assert(second[q - n].vin[j].txid == id);
        }
    }
    if spent_before(first, n, id, index) {
        let (q, j) = choose|q: int, j: int|
            0 <= q < n && q < first.len() && !first[q].is_coinbase() && 0 <= j
                < first[q].vin.len() && (#[trigger] first[q].vin[j]).txid == id
                && first[q].vin[j].vout == index;
        assert(both[q] == first[q]);
        assert(both[q].vin[j].txid == id);
    }
    if spent_before(second, upto, id, index) {
        let (q, j) = choose|q: int, j: int|
            0 <= q < upto && q < second.len() && !second[q].is_coinbase() && 0 <= j
                < second[q].vin.len() && (#[trigger] second[q].vin[j]).txid == id
                && second[q].vin[j].vout == index;
        assert(both[q + n] == second[q]);
        assert(both[q + n].vin[j].txid == id);
    }
}

/// Where none of the first outputs of a transaction is spent, all of them are unspent.
pub proof fn lemma_unspent_all(txs: Seq<TransactionView>, at: int, upto: int)
    requires
        0 <= upto <= txs[at].vout.len(),
        forall|k: int| 0 <= k < upto ==> !#[trigger] spent_before(txs, at, txs[at].id, k),
    ensures
        unspent_outputs(txs, at, upto) == numbered(txs[at].vout).take(upto),
    decreases upto,
{
    let all = numbered(txs[at].vout);
    if upto > 0 {
        lemma_unspent_all(txs, at, upto - 1);
        assert(!spent_before(txs, at, txs[at].id, upto - 1));
        assert(all.take(upto) =~= all.take(upto - 1).push(all[upto - 1]));
    } else {
        assert(all.take(0) =~= Seq::<UnspentView>::empty());
    }
}

/// Every unspent output of a transaction carries its number, which is below the number of
/// the transaction's outputs, and is the output of that number.
pub proof fn lemma_unspent_are_numbered(txs: Seq<TransactionView>, at: int, upto: int)
    requires
        0 <= upto <= txs[at].vout.len(),
    ensures
        forall|i: int|
            0 <= i < unspent_outputs(txs, at, upto).len() ==> {
                let unspent = #[trigger] unspent_outputs(txs, at, upto)[i];
                &&& 0 <= unspent.index < upto
                &&& unspent.output == txs[at].vout[unspent.index]
                &&& !spent_before(txs, at, txs[at].id, unspent.index)
            },
    decreases upto,
{
    if upto > 0 {
        lemma_unspent_are_numbered(txs, at, upto - 1);
        let before = unspent_outputs(txs, at, upto - 1);
        let now = unspent_outputs(txs, at, upto);
        assert forall|i: int| 0 <= i < now.len() implies {
            let unspent = #[trigger] now[i];
            &&& 0 <= unspent.index < upto
            &&& unspent.output == txs[at].vout[unspent.index]
            &&& !spent_before(txs, at, txs[at].id, unspent.index)
        } by {
            if i < before.len() {
                assert(now[i] == before[i]);
            }
        }
    }
}

/// Taking one number out of a run of outputs does not depend on what follows the run.
pub proof fn lemma_without_number_of_prefix(
    a: Seq<UnspentView>,
    b: Seq<UnspentView>,
    number: int,
    upto: int,
)
    requires
        0 <= upto <= a.len(),
        upto <= b.len(),
        forall|i: int| 0 <= i < upto ==> a[i] == b[i],
    ensures
        without_number(a, number, upto) == without_number(b, number, upto),
    decreases upto,
{
    if upto > 0 {
        lemma_without_number_of_prefix(a, b, number, upto - 1);
    }
}

/// `outputs`, where there are any.
pub open spec fn where_any(outputs: Seq<UnspentView>) -> Option<Seq<UnspentView>> {
    if outputs.len() > 0 {
        Some(outputs)
    } else {
        None
    }
}

/// `outputs` without those that the first `upto` of `inputs` refer to as outputs of the
/// transaction `id`.
pub open spec fn less(
    outputs: Seq<UnspentView>,
    inputs: Seq<TXInputView>,
    id: Seq<char>,
    upto: int,
) -> Seq<UnspentView>
    decreases upto,
{
    if upto <= 0 {
        outputs
    } else if inputs[upto - 1].txid == id {
        without_output(less(outputs, inputs, id, upto - 1), inputs[upto - 1].vout as int)
    } else {
        less(outputs, inputs, id, upto - 1)
    }
}

/// Whether the index holds no entry without outputs.
pub open spec fn no_empty_entry(map: UtxoMap) -> bool {
    forall|id: Seq<char>| map.contains_key(id) ==> (#[trigger] map[id]).len() > 0
}

/// Where spending inputs succeeds, the index then holds, under each transaction that it
/// held, the outputs that it held without those that the inputs refer to, where any is
/// left; and nothing under any other.
pub proof fn lemma_spend_inputs(map: UtxoMap, inputs: Seq<TXInputView>, upto: int)
    requires
        0 <= upto <= inputs.len(),
        no_empty_entry(map),
        spend_inputs(map, inputs, upto) is Some,
    ensures
        no_empty_entry(spend_inputs(map, inputs, upto).unwrap()),
        forall|id: Seq<char>|
            #[trigger] entry(spend_inputs(map, inputs, upto).unwrap(), id) == (if map.contains_key(
                id,
            ) {
                where_any(less(map[id], inputs, id, upto))
            } else {
                None
            }),
    decreases upto,
{
    if upto > 0 {
        lemma_spend_inputs(map, inputs, upto - 1);
        let before = spend_inputs(map, inputs, upto - 1).unwrap();
        let input = inputs[upto - 1];
        let after = spend_input(before, input).unwrap();
        assert(entry(before, input.txid) is Some);
        assert forall|id: Seq<char>| #[trigger] entry(after, id) == (if map.contains_key(id) {
            where_any(less(map[id], inputs, id, upto))
        } else {
            None
        }) by {
            assert(entry(before, id) == (if map.contains_key(id) {
                where_any(less(map[id], inputs, id, upto - 1))
            } else {
                None
            }));
        }
        assert forall|id: Seq<char>| after.contains_key(id) implies (#[trigger] after[id]).len()
            > 0 by {
            if id != input.txid {
                assert(before.contains_key(id));
                assert(before[id].len() > 0);
            }
        }
    } else {
        assert forall|id: Seq<char>| #[trigger] entry(map, id) == (if map.contains_key(id) {
            where_any(less(map[id], inputs, id, 0))
        } else {
            None
        }) by {
            if map.contains_key(id) {
                assert(map[id].len() > 0);
            }
        }
    }
}

/// The outputs of the first `upto` of `outputs` whose numbers are not in `gone`, each with
/// its number.
pub open spec fn kept(outputs: Seq<crate::transaction::TXOutputView>, gone: Set<int>, upto: int) -> Seq<
    UnspentView,
>
    decreases upto,
{
    if upto <= 0 {
        Seq::<UnspentView>::empty()
    } else if gone.contains(upto - 1) {
        kept(outputs, gone, upto - 1)
    } else {
        kept(outputs, gone, upto - 1).push(
            UnspentView { index: upto - 1, output: outputs[upto - 1] },
        )
    }
}

/// The numbers of the outputs of transaction `at` that a transaction before it spends.
pub open spec fn spent_numbers(txs: Seq<TransactionView>, at: int) -> Set<int> {
    Set::new(|k: int| spent_before(txs, at, txs[at].id, k))
}

/// The numbers that the first `upto` of `inputs` refer to as outputs of the transaction
/// `id`.
pub open spec fn referred_numbers(inputs: Seq<TXInputView>, id: Seq<char>, upto: int) -> Set<int>
    decreases upto,
{
    if upto <= 0 {
        Set::<int>::empty()
    } else if inputs[upto - 1].txid == id {
        referred_numbers(inputs, id, upto - 1).insert(inputs[upto - 1].vout as int)
    } else {
        referred_numbers(inputs, id, upto - 1)
    }
}

/// A number is referred to exactly when an input refers to it.
pub proof fn lemma_referred_numbers(inputs: Seq<TXInputView>, id: Seq<char>, upto: int, k: int)
    requires
        0 <= upto <= inputs.len(),
    ensures
        referred_numbers(inputs, id, upto).contains(k) == exists|i: int|
            0 <= i < upto && (#[trigger] inputs[i]).txid == id && inputs[i].vout == k,
    decreases upto,
{
    if upto > 0 {
        lemma_referred_numbers(inputs, id, upto - 1, k);
        let earlier = exists|i: int|
            0 <= i < upto - 1 && (#[trigger] inputs[i]).txid == id && inputs[i].vout == k;
        let now = exists|i: int|
            0 <= i < upto && (#[trigger] inputs[i]).txid == id && inputs[i].vout == k;
        if earlier {
            let i = choose|i: int|
                0 <= i < upto - 1 && (#[trigger] inputs[i]).txid == id && inputs[i].vout == k;
            assert(0 <= i < upto && inputs[i].txid == id);
        }
        if now {
            let i = choose|i: int|
                0 <= i < upto && (#[trigger] inputs[i]).txid == id && inputs[i].vout == k;
            if i < upto - 1 {
                assert(earlier);
            }
        }
        if inputs[upto - 1].txid == id && inputs[upto - 1].vout == k {
            assert(now);
        }
    }
}

/// The unspent outputs of a transaction are its outputs whose numbers are not spent.
pub proof fn lemma_unspent_are_kept(txs: Seq<TransactionView>, at: int, upto: int)
    ensures
        unspent_outputs(txs, at, upto) == kept(txs[at].vout, spent_numbers(txs, at), upto),
    decreases upto,
{
    if upto > 0 {
        lemma_unspent_are_kept(txs, at, upto - 1);
    }
}

/// With one more number gone, the outputs kept are those that were kept, without the
/// output of that number.
pub proof fn lemma_kept_less_one(
    outputs: Seq<crate::transaction::TXOutputView>,
    gone: Set<int>,
    number: int,
    upto: int,
)
    ensures
        kept(outputs, gone.insert(number), upto) == without_output(
            kept(outputs, gone, upto),
            number,
        ),
    decreases upto,
{
    if upto > 0 {
        lemma_kept_less_one(outputs, gone, number, upto - 1);
        let before = kept(outputs, gone, upto - 1);
        let now = kept(outputs, gone, upto);
        if !gone.contains(upto - 1) {
            lemma_without_number_of_prefix(now, before, number, before.len() as int);
        }
    }
}

/// With the numbers gone that inputs refer to, the outputs kept are those that were kept,
/// less those that the inputs refer to.
pub proof fn lemma_kept_less(
    outputs: Seq<crate::transaction::TXOutputView>,
    gone: Set<int>,
    inputs: Seq<TXInputView>,
    id: Seq<char>,
    upto: int,
    bound: int,
)
    ensures
        kept(outputs, gone.union(referred_numbers(inputs, id, upto)), bound) == less(
            kept(outputs, gone, bound),
            inputs,
            id,
            upto,
        ),
    decreases upto,
{
    if upto > 0 {
        lemma_kept_less(outputs, gone, inputs, id, upto - 1, bound);
        let earlier = referred_numbers(inputs, id, upto - 1);
        if inputs[upto - 1].txid == id {
            let number = inputs[upto - 1].vout as int;
            assert(gone.union(earlier.insert(number)) =~= gone.union(earlier).insert(number));
            lemma_kept_less_one(outputs, gone.union(earlier), number, bound);
        }
    } else {
        assert(gone.union(Set::<int>::empty()) =~= gone);
    }
}

/// What a transaction has unspent, if anything.
pub open spec fn some_unspent(txs: Seq<TransactionView>, at: int) -> Option<Seq<UnspentView>> {
    if unspent_at(txs, at).len() > 0 {
        Some(unspent_at(txs, at))
    } else {
        None
    }
}

/// With distinct identifiers, the index holds under the identifier of a transaction what
/// that transaction has unspent.
pub proof fn lemma_entry_at(txs: Seq<TransactionView>, at: int)
    requires
        ids_distinct(txs),
        0 <= at < txs.len(),
    ensures
        entry(utxo_of(txs), txs[at].id) == some_unspent(txs, at),
{
    lemma_utxo_closed_form(txs, txs.len() as int, txs[at].id);
    lemma_first_with_own_id(txs, at);
}

/// The index holds nothing under an identifier that no transaction has.
pub proof fn lemma_entry_absent(txs: Seq<TransactionView>, id: Seq<char>)
    requires
        ids_distinct(txs),
        forall|x: int| 0 <= x < txs.len() ==> (#[trigger] txs[x]).id != id,
    ensures
        entry(utxo_of(txs), id) is None,
{
    lemma_utxo_closed_form(txs, txs.len() as int, id);
    lemma_first_with_id(txs, id, 0);
}

/// With distinct identifiers, every output that the index holds under an identifier is an
/// output of the transaction that it identifies, carries the number that it has there, and
/// is spent by no later transaction.
pub proof fn lemma_index_holds_unspent_outputs(txs: Seq<TransactionView>, id: Seq<char>, i: int)
    requires
        ids_distinct(txs),
        utxo_of(txs).contains_key(id),
        0 <= i < utxo_of(txs)[id].len(),
    ensures
        first_with_id(txs, id, 0) is Some,
        ({
            let p = first_with_id(txs, id, 0).unwrap();
            let unspent = utxo_of(txs)[id][i];
            &&& 0 <= p < txs.len()
            &&& txs[p].id == id
            &&& 0 <= unspent.index < txs[p].vout.len()
            &&& unspent.output == txs[p].vout[unspent.index]
            &&& !spent_before(txs, p, id, unspent.index)
        }),
{
    lemma_utxo_closed_form(txs, txs.len() as int, id);
    lemma_first_with_id(txs, id, 0);
    let p = first_with_id(txs, id, 0).unwrap();
    lemma_unspent_are_numbered(txs, p, txs[p].vout.len() as int);
    assert(utxo_of(txs)[id] == unspent_at(txs, p));
    let unspent = unspent_outputs(txs, p, txs[p].vout.len() as int)[i];
}

/// On an index that holds the unspent outputs of a chain with distinct identifiers, every
/// output chosen to be spent is named by the identifier of its transaction and its number
/// there, is locked to the key, and is spent by no later transaction.
pub proof fn lemma_spendable_are_unspent(
    txs: Seq<TransactionView>,
    entries: Seq<EntryView>,
    lock: Seq<u8>,
    amount: int,
    g: int,
    c: int,
)
    requires
        ids_distinct(txs),
        keys_distinct(entries),
        entries_map(entries) == utxo_of(txs),
        choose_spendable(entries, lock, amount, entries.len() as int) is Some,
        0 <= g < choose_spendable(entries, lock, amount, entries.len() as int).unwrap().1.len(),
        0 <= c < choose_spendable(entries, lock, amount, entries.len() as int).unwrap().1[g].1.len(),
    ensures
        ({
            let group = choose_spendable(entries, lock, amount, entries.len() as int).unwrap().1[g];
            let id = group.0;
            let number = group.1[c] as int;
            let p = first_with_id(txs, id, 0).unwrap();
            &&& first_with_id(txs, id, 0) is Some
            &&& txs[p].id == id
            &&& 0 <= number < txs[p].vout.len()
            &&& txs[p].vout[number].pub_key_hash == lock
            &&& !spent_before(txs, p, id, number)
        }),
{
    let group = choose_spendable(entries, lock, amount, entries.len() as int).unwrap().1[g];
    lemma_groups_are_chosen(entries, lock, amount, entries.len() as int);
    let (e, start) = choose|e: int, start: int|
        0 <= e < entries.len() && #[trigger] chosen_in(entries[e], lock, amount, start) == Some(
            group,
        );
    let outputs = entries[e].1;
    lemma_chosen_are_locked(outputs, lock, amount, start, outputs.len() as int);
    let chosen = choose_outputs(outputs, lock, amount, start, outputs.len() as int).unwrap().1;
    assert(chosen == group.1);
    let i = choose|i: int|
        0 <= i < outputs.len() && (#[trigger] outputs[i]).index == chosen[c]
            && outputs[i].output.pub_key_hash == lock;
    lemma_key_position_is(entries, e);
    assert(entries_map(entries).contains_key(entries[e].0));
    assert(entries_map(entries)[entries[e].0] == outputs);
    lemma_index_holds_unspent_outputs(txs, group.0, i);
}

/// What a single transaction spends: what its inputs refer to, unless it is a coinbase.
proof fn lemma_spent_by_one(tx: TransactionView, id: Seq<char>, index: int)
    ensures
        spent_before(seq![tx], 1, id, index) == (!tx.is_coinbase() && exists|i: int|
            0 <= i < tx.vin.len() && (#[trigger] tx.vin[i]).txid == id && tx.vin[i].vout
                == index),
{
    let one = seq![tx];
    let here = !tx.is_coinbase() && exists|i: int|
        0 <= i < tx.vin.len() && (#[trigger] tx.vin[i]).txid == id && tx.vin[i].vout == index;
    if spent_before(one, 1, id, index) {
        let (q, j) = choose|q: int, j: int|
            0 <= q < 1 && q < one.len() && !one[q].is_coinbase() && 0 <= j < one[q].vin.len() && (
            #[trigger] one[q].vin[j]).txid == id && one[q].vin[j].vout == index;
        assert(one[q] == tx);
        assert(tx.vin[j].txid == id);
    }
    if here {
        let i = choose|i: int|
            0 <= i < tx.vin.len() && (#[trigger] tx.vin[i]).txid == id && tx.vin[i].vout
                == index;
        assert(one[0] == tx);
        assert(one[0].vin[i].txid == id);
    }
}

/// Whether `tx` can be taken into the index of the transactions `later`, none of which is
/// later than it: it has an identifier of its own and at least one output.
pub open spec fn fits(later: Seq<TransactionView>, tx: TransactionView) -> bool {
    &&& ids_distinct(seq![tx] + later)
    &&& tx.vout.len() > 0
}

/// With distinct identifiers, the index holds no entry without outputs.
pub proof fn lemma_index_has_no_empty_entry(txs: Seq<TransactionView>)
    requires
        ids_distinct(txs),
    ensures
        no_empty_entry(utxo_of(txs)),
{
    assert forall|id: Seq<char>| utxo_of(txs).contains_key(id) implies (#[trigger] utxo_of(
        txs,
    )[id]).len() > 0 by {
        lemma_utxo_closed_form(txs, txs.len() as int, id);
    }
}

/// The unspent outputs of a transaction, once `tx` is the latest transaction, are those
/// that were unspent, less those that the inputs of `tx` refer to.
proof fn lemma_unspent_behind(later: Seq<TransactionView>, tx: TransactionView, p: int)
    requires
        0 <= p < later.len(),
    ensures
        unspent_at(seq![tx] + later, p + 1) == (if tx.is_coinbase() {
            unspent_at(later, p)
        } else {
            less(unspent_at(later, p), tx.vin, later[p].id, tx.vin.len() as int)
        }),
{
    let all = seq![tx] + later;
    let id = later[p].id;
    let n = later[p].vout.len() as int;
    assert(all[p + 1] == later[p]);
    lemma_unspent_are_kept(later, p, n);
    lemma_unspent_are_kept(all, p + 1, n);
    let was = spent_numbers(later, p);
    let now = spent_numbers(all, p + 1);
    let added = referred_numbers(tx.vin, id, tx.vin.len() as int);
    assert forall|k: int| now.contains(k) == (was.contains(k) || (!tx.is_coinbase()
        && added.contains(k))) by {
        lemma_spent_before_concat(seq![tx], later, p, id, k);
        lemma_spent_by_one(tx, id, k);
        lemma_referred_numbers(tx.vin, id, tx.vin.len() as int, k);
    }
    if tx.is_coinbase() {
        assert(now =~= was);
    } else {
        assert(now =~= was.union(added));
        lemma_kept_less(later[p].vout, was, tx.vin, id, tx.vin.len() as int, n);
    }
}

/// Taking away from no outputs leaves none.
proof fn lemma_less_of_none(inputs: Seq<TXInputView>, id: Seq<char>, upto: int)
    ensures
        less(Seq::<UnspentView>::empty(), inputs, id, upto).len() == 0,
    decreases upto,
{
    if upto > 0 {
        lemma_less_of_none(inputs, id, upto - 1);
    }
}

/// Taking a transaction into an index gives, where it succeeds, the index of the
/// transactions with that transaction as the latest.
pub proof fn lemma_update_step(later: Seq<TransactionView>, tx: TransactionView)
    requires
        fits(later, tx),
        apply_transaction(utxo_of(later), tx) is Some,
    ensures
        apply_transaction(utxo_of(later), tx) == Some(utxo_of(seq![tx] + later)),
{
    let all = seq![tx] + later;
    let was = utxo_of(later);
    let now = utxo_of(all);
    assert(ids_distinct(later)) by {
        assert forall|i: int, j: int| 0 <= i < j < later.len() implies (#[trigger] later[i]).id
            != (#[trigger] later[j]).id by {
            assert(all[i + 1] == later[i] && all[j + 1] == later[j]);
            assert(all[i + 1].id != all[j + 1].id);
        }
    }
    assert(all[0] == tx);
    lemma_index_has_no_empty_entry(later);
    if !tx.is_coinbase() {
        lemma_spend_inputs(was, tx.vin, tx.vin.len() as int);
    }
    let spent = if tx.is_coinbase() {
        was
    } else {
        spend_inputs(was, tx.vin, tx.vin.len() as int).unwrap()
    };
    let done = spent.insert(tx.id, numbered(tx.vout));
    assert(apply_transaction(was, tx) == Some(done));
    assert forall|id: Seq<char>| #[trigger] entry(done, id) == entry(now, id) by {
        if id == tx.id {
            lemma_entry_at(all, 0);
            assert forall|k: int| 0 <= k < tx.vout.len() implies !#[trigger] spent_before(
                all,
                0,
                all[0].id,
                k,
            ) by {}
            lemma_unspent_all(all, 0, tx.vout.len() as int);
            assert(numbered(tx.vout).take(tx.vout.len() as int) =~= numbered(tx.vout));
        } else if exists|p: int| 0 <= p < later.len() && (#[trigger] later[p]).id == id {
            let p = choose|p: int| 0 <= p < later.len() && (#[trigger] later[p]).id == id;
            assert(all[p + 1] == later[p]);
            lemma_entry_at(later, p);
            lemma_entry_at(all, p + 1);
            lemma_unspent_behind(later, tx, p);
            if !tx.is_coinbase() {
                assert(entry(spent, id) == (if was.contains_key(id) {
                    where_any(less(was[id], tx.vin, id, tx.vin.len() as int))
                } else {
                    None
                }));
                if !was.contains_key(id) {
                    assert(unspent_at(later, p).len() == 0);
                    assert(unspent_at(later, p) =~= Seq::<UnspentView>::empty());
                    lemma_less_of_none(tx.vin, id, tx.vin.len() as int);
                }
            }
        } else {
            assert forall|x: int| 0 <= x < all.len() implies (#[trigger] all[x]).id != id by {
                if x > 0 {
                    assert(all[x] == later[x - 1]);
                }
            }
            lemma_entry_absent(later, id);
            lemma_entry_absent(all, id);
            if !tx.is_coinbase() {
                assert(entry(spent, id) == (if was.contains_key(id) {
                    where_any(less(was[id], tx.vin, id, tx.vin.len() as int))
                } else {
                    None
                }));
            }
        }
    }
    lemma_maps_equal_by_entries(done, now);
}

/// Whether the first `upto` transactions of `block` can be taken into the index of a chain
/// with the transactions `later`, one by one: each fits behind those that came before it.
pub open spec fn clean(later: Seq<TransactionView>, block: Seq<TransactionView>, upto: int) -> bool {
    &&& 0 <= upto <= block.len()
    &&& forall|t: int|
        0 <= t < upto ==> fits(reversed(block.take(t)) + later, #[trigger] block[t])
}

/// Bringing an index up to date with the first transactions of a clean block gives, where
/// it succeeds, the index of the chain with those transactions as its latest.
pub proof fn lemma_update_steps(later: Seq<TransactionView>, block: Seq<TransactionView>, upto: int)
    requires
        clean(later, block, upto),
        apply_transactions(utxo_of(later), block, upto) is Some,
    ensures
        apply_transactions(utxo_of(later), block, upto) == Some(
            utxo_of(reversed(block.take(upto)) + later),
        ),
    decreases upto,
{
    if upto <= 0 {
        assert(reversed(block.take(0)) + later =~= later);
    } else {
        assert(clean(later, block, upto - 1));
        lemma_update_steps(later, block, upto - 1);
        let before = reversed(block.take(upto - 1)) + later;
        assert(fits(before, block[upto - 1]));
        assert(seq![block[upto - 1]] + before =~= reversed(block.take(upto)) + later);
        lemma_update_step(before, block[upto - 1]);
    }
}

/// Bringing the index of a chain up to date with a clean block gives, where it succeeds,
/// the index that is built anew from the chain with the block as its tip. It succeeds
/// exactly when the index holds, at the turn of each input that is spent, an unspent
/// output of the transaction that the input refers to.
pub proof fn lemma_update_is_reindex(later: Seq<TransactionView>, block: Seq<TransactionView>)
    requires
        clean(later, block, block.len() as int),
        apply_transactions(utxo_of(later), block, block.len() as int) is Some,
    ensures
        apply_transactions(utxo_of(later), block, block.len() as int) == Some(
            utxo_of(reversed(block) + later),
        ),
{
    lemma_update_steps(later, block, block.len() as int);
    assert(block.take(block.len() as int) =~= block);
}

/// A walk along a descent is the same walk after a block with a hash that is not yet
/// stored joins the store.
proof fn lemma_walk_unchanged(
    store: Seq<BlockView>,
    block: BlockView,
    hash: Seq<char>,
    height: int,
    fuel: nat,
)
    requires
        hashes_distinct(store),
        stored(store, block.hash) is None,
        descends(store, hash, height),
    ensures
        chain_from(store.push(block), hash, fuel) == chain_from(store, hash, fuel),
    decreases height,
{
    lemma_position_of_hash(store, block.hash, 0);
    lemma_store_put(store, block);
    assert(store_put(store, block) == store.push(block));
    assert(hash != block.hash);
    assert(stored(store.push(block), hash) == stored(store, hash));
    let prev = stored(store, hash).unwrap().prev_block_hash;
    if fuel > 0 {
        if height > 0 {
            lemma_walk_unchanged(store, block, prev, height - 1, (fuel - 1) as nat);
        } else {
            assert(chain_from(store.push(block), prev, (fuel - 1) as nat).len() == 0);
            assert(chain_from(store, prev, (fuel - 1) as nat).len() == 0);
        }
    }
}

/// The transactions of two runs of blocks from the latest to the earliest, one run after
/// the other.
pub proof fn lemma_spending_order_concat(a: Seq<BlockView>, b: Seq<BlockView>)
    ensures
        spending_order_of(a + b) == spending_order_of(a) + spending_order_of(b),
    decreases b.len(),
{
    if b.len() == 0 {
        assert(a + b =~= a);
        assert(spending_order_of(a) + spending_order_of(b) =~= spending_order_of(a));
    } else {
        assert((a + b).drop_last() =~= a + b.drop_last());
        lemma_spending_order_concat(a, b.drop_last());
        assert(spending_order_of(a + b) =~= spending_order_of(a) + spending_order_of(b));
    }
}

/// After a block is mined on the tip of a linked chain, the transactions of the chain from
/// the latest to the earliest are those of the block, from its last to its first, and then
/// those that they were.
pub proof fn lemma_spending_order_after_mining(chain: BlockchainView, block: BlockView)
    requires
        chain.wf(),
        chain.linked(),
        block.prev_block_hash == chain.tip,
        block.hash.len() > 0,
        stored(chain.blocks, block.hash) is None,
    ensures
        chain.extended_by(block).spending_order() == reversed(block.transactions)
            + chain.spending_order(),
{
    let store = chain.blocks;
    let after = chain.extended_by(block);
    let n = store.len();
    lemma_position_of_hash(store, block.hash, 0);
    lemma_store_put(store, block);
    assert(after.blocks == store.push(block));
    lemma_descent_fits(store, chain.tip, chain.best_height());
    lemma_walk_unchanged(store, block, chain.tip, chain.best_height(), n);
    assert(after.chain() == seq![block] + chain_from(after.blocks, chain.tip, n));
    assert(after.chain() == seq![block] + chain.chain());
    lemma_spending_order_concat(seq![block], chain.chain());
    assert(seq![block].drop_last() =~= Seq::<BlockView>::empty());
    assert(spending_order_of(Seq::<BlockView>::empty()).len() == 0);
    assert(spending_order_of(seq![block]) =~= reversed(block.transactions));
}

/// The index that is brought up to date with a block mined on the tip of a linked chain
/// is, where bringing it up to date succeeds, the index that is built anew from the chain
/// with that block, where the block is clean for the chain.
pub proof fn lemma_update_after_mining_is_reindex(chain: BlockchainView, block: BlockView)
    requires
        chain.wf(),
        chain.linked(),
        block.prev_block_hash == chain.tip,
        block.hash.len() > 0,
        stored(chain.blocks, block.hash) is None,
        clean(chain.spending_order(), block.transactions, block.transactions.len() as int),
        apply_block(utxo_of(chain.spending_order()), block) is Some,
    ensures
        apply_block(utxo_of(chain.spending_order()), block) == Some(
            utxo_of(chain.extended_by(block).spending_order()),
        ),
{
    lemma_spending_order_after_mining(chain, block);
    lemma_update_is_reindex(chain.spending_order(), block.transactions);
}

} // verus!
