//! Balance accounting over stored records, and the conservation laws it
//! obeys.
//!
//! A balance is the signed sum of what an address received minus what it
//! sent, walked in chain order. The model is deliberately permissive: nothing
//! rejects a transfer for insufficient funds, so a balance may be negative.

use crate::block::Block;
use crate::transaction::spec_tx_decode;
use vstd::prelude::*;

verus! {

/// The signed amount one encoded record contributes to `address`'s balance:
/// credited when the address is the recipient, debited when it is the sender,
/// both at once (a net zero) when an address pays itself. Bytes that decode
/// to no record contribute nothing; under the ledger's invariant every stored
/// entry decodes.
pub open spec fn spec_contribution(bytes: Seq<u8>, address: Seq<u8>) -> int {
    match spec_tx_decode(bytes) {
        Some(t) => (if t.recipient == address {
            t.value as int
        } else {
            0
        }) - (if t.sender == address {
            t.value as int
        } else {
            0
        }),
        None => 0,
    }
}

/// The value an encoded record transfers; zero where nothing decodes.
pub open spec fn spec_tx_value(bytes: Seq<u8>) -> int {
    match spec_tx_decode(bytes) {
        Some(t) => t.value as int,
        None => 0,
    }
}

/// The balance an ordered list of encoded records yields for `address`.
pub open spec fn spec_balance(txs: Seq<Seq<u8>>, address: Seq<u8>) -> int
    decreases txs.len(),
{
    if txs.len() == 0 {
        0
    } else {
        spec_balance(txs.drop_last(), address) + spec_contribution(txs.last(), address)
    }
}

/// The total value the records of a list transfer.
pub open spec fn spec_total_value(txs: Seq<Seq<u8>>) -> int
    decreases txs.len(),
{
    if txs.len() == 0 {
        0
    } else {
        spec_total_value(txs.drop_last()) + spec_tx_value(txs.last())
    }
}

/// All encoded records of a chain, flattened in chain order: blocks in
/// order, each block's records in order.
pub open spec fn chain_txs(chain: Seq<Block>) -> Seq<Seq<u8>>
    decreases chain.len(),
{
    if chain.len() == 0 {
        Seq::empty()
    } else {
        chain_txs(chain.drop_last()) + chain.last().txs()
    }
}

pub proof fn lemma_balance_step(txs: Seq<Seq<u8>>, j: int, address: Seq<u8>)
    requires
        0 <= j < txs.len(),
    ensures
        spec_balance(txs.take(j + 1), address) == spec_balance(txs.take(j), address)
            + spec_contribution(txs[j], address),
{
    assert(txs.take(j + 1).drop_last() =~= txs.take(j));
    assert(txs.take(j + 1).last() == txs[j]);
}

pub proof fn lemma_value_step(txs: Seq<Seq<u8>>, j: int)
    requires
        0 <= j < txs.len(),
    ensures
        spec_total_value(txs.take(j + 1)) == spec_total_value(txs.take(j)) + spec_tx_value(
            txs[j],
        ),
{
    assert(txs.take(j + 1).drop_last() =~= txs.take(j));
    assert(txs.take(j + 1).last() == txs[j]);
}

/// Balances add over concatenation of record lists.
pub proof fn lemma_balance_concat(t1: Seq<Seq<u8>>, t2: Seq<Seq<u8>>, address: Seq<u8>)
    ensures
        spec_balance(t1 + t2, address) == spec_balance(t1, address) + spec_balance(t2, address),
    decreases t2.len(),
{
    if t2.len() == 0 {
        assert(t1 + t2 =~= t1);
    } else {
        assert((t1 + t2).drop_last() =~= t1 + t2.drop_last());
        assert((t1 + t2).last() == t2.last());
        lemma_balance_concat(t1, t2.drop_last(), address);
    }
}

/// Total values add over concatenation of record lists.
pub proof fn lemma_value_concat(t1: Seq<Seq<u8>>, t2: Seq<Seq<u8>>)
    ensures
        spec_total_value(t1 + t2) == spec_total_value(t1) + spec_total_value(t2),
    decreases t2.len(),
{
    if t2.len() == 0 {
        assert(t1 + t2 =~= t1);
    } else {
        assert((t1 + t2).drop_last() =~= t1 + t2.drop_last());
        assert((t1 + t2).last() == t2.last());
        lemma_value_concat(t1, t2.drop_last());
    }
}

pub proof fn lemma_value_nonneg(txs: Seq<Seq<u8>>)
    ensures
        spec_total_value(txs) >= 0,
    decreases txs.len(),
{
    if txs.len() > 0 {
        lemma_value_nonneg(txs.drop_last());
    }
}

/// No balance can outgrow the total transferred value, in either direction.
pub proof fn lemma_balance_bounded(txs: Seq<Seq<u8>>, address: Seq<u8>)
    ensures
        -spec_total_value(txs) <= spec_balance(txs, address) <= spec_total_value(txs),
    decreases txs.len(),
{
    if txs.len() > 0 {
        lemma_balance_bounded(txs.drop_last(), address);
    }
}

/// A prefix of a record list never carries more value than the whole.
pub proof fn lemma_value_take_le(txs: Seq<Seq<u8>>, j: int)
    requires
        0 <= j <= txs.len(),
    ensures
        spec_total_value(txs.take(j)) <= spec_total_value(txs),
    decreases txs.len() - j,
{
    if j == txs.len() {
        assert(txs.take(j) =~= txs);
    } else {
        lemma_value_step(txs, j);
        lemma_value_take_le(txs, j + 1);
    }
}

/// Flattening one more block appends exactly that block's records.
pub proof fn lemma_chain_txs_step(chain: Seq<Block>, k: int)
    requires
        0 <= k < chain.len(),
    ensures
        chain_txs(chain.take(k + 1)) == chain_txs(chain.take(k)) + chain[k].txs(),
{
    assert(chain.take(k + 1).drop_last() =~= chain.take(k));
    assert(chain.take(k + 1).last() == chain[k]);
}

/// The records of a chain prefix never carry more value than the whole
/// chain's records.
pub proof fn lemma_chain_value_take_le(chain: Seq<Block>, k: int)
    requires
        0 <= k <= chain.len(),
    ensures
        spec_total_value(chain_txs(chain.take(k))) <= spec_total_value(chain_txs(chain)),
    decreases chain.len() - k,
{
    if k == chain.len() {
        assert(chain.take(k) =~= chain);
    } else {
        lemma_chain_txs_step(chain, k);
        lemma_value_concat(chain_txs(chain.take(k)), chain[k].txs());
        lemma_value_nonneg(chain[k].txs());
        lemma_chain_value_take_le(chain, k + 1);
    }
}

/// True when no stored record names the address, as sender or as recipient.
pub open spec fn address_absent(txs: Seq<Seq<u8>>, address: Seq<u8>) -> bool {
    forall|j: int|
        0 <= j < txs.len() ==> (match spec_tx_decode(#[trigger] txs[j]) {
            Some(t) => t.sender != address && t.recipient != address,
            None => true,
        })
}

/// Law: an address that appears in no stored record has balance zero.
pub proof fn lemma_balance_absent(txs: Seq<Seq<u8>>, address: Seq<u8>)
    requires
        address_absent(txs, address),
    ensures
        spec_balance(txs, address) == 0,
    decreases txs.len(),
{
    if txs.len() > 0 {
        assert(forall|j: int|
            0 <= j < txs.drop_last().len() ==> txs.drop_last()[j] == txs[j]);
        lemma_balance_absent(txs.drop_last(), address);
        assert(spec_contribution(txs.last(), address) == 0);
    }
}

/// Sum of the balances of a list of addresses.
pub open spec fn spec_balance_sum(txs: Seq<Seq<u8>>, addrs: Seq<Seq<u8>>) -> int
    decreases addrs.len(),
{
    if addrs.len() == 0 {
        0
    } else {
        spec_balance_sum(txs, addrs.drop_last()) + spec_balance(txs, addrs.last())
    }
}

/// Sum of one record's contributions over a list of addresses.
pub open spec fn spec_contribution_sum(bytes: Seq<u8>, addrs: Seq<Seq<u8>>) -> int
    decreases addrs.len(),
{
    if addrs.len() == 0 {
        0
    } else {
        spec_contribution_sum(bytes, addrs.drop_last()) + spec_contribution(bytes, addrs.last())
    }
}

proof fn lemma_balance_sum_empty(addrs: Seq<Seq<u8>>)
    ensures
        spec_balance_sum(Seq::empty(), addrs) == 0,
    decreases addrs.len(),
{
    if addrs.len() > 0 {
        lemma_balance_sum_empty(addrs.drop_last());
    }
}

proof fn lemma_balance_sum_step(txs: Seq<Seq<u8>>, addrs: Seq<Seq<u8>>)
    requires
        txs.len() > 0,
    ensures
        spec_balance_sum(txs, addrs) == spec_balance_sum(txs.drop_last(), addrs)
            + spec_contribution_sum(txs.last(), addrs),
    decreases addrs.len(),
{
    if addrs.len() > 0 {
        lemma_balance_sum_step(txs, addrs.drop_last());
    }
}

/// Over a duplicate-free address list, one record's contributions sum to its
/// value where the recipient is covered, minus its value where the sender is.
proof fn lemma_contribution_sum(bytes: Seq<u8>, addrs: Seq<Seq<u8>>)
    requires
        addrs.no_duplicates(),
    ensures
        spec_contribution_sum(bytes, addrs) == (match spec_tx_decode(bytes) {
            Some(t) => (if addrs.contains(t.recipient) {
                t.value as int
            } else {
                0
            }) - (if addrs.contains(t.sender) {
                t.value as int
            } else {
                0
            }),
            None => 0,
        }),
    decreases addrs.len(),
{
    if addrs.len() > 0 {
        let init = addrs.drop_last();
        let a = addrs.last();
        assert(forall|i: int| 0 <= i < init.len() ==> init[i] == addrs[i]);
        assert(init.no_duplicates());
        assert(!init.contains(a));
        lemma_contribution_sum(bytes, init);
        assert forall|x: Seq<u8>| #[trigger] addrs.contains(x) implies init.contains(x) || x
            == a by {
            let w = choose|w: int| 0 <= w < addrs.len() && addrs[w] == x;
            if w < init.len() {
                assert(init[w] == x);
            }
        }
        assert(forall|x: Seq<u8>| init.contains(x) ==> #[trigger] addrs.contains(x));
        assert(addrs.contains(a));
    }
}

/// Law: value is conserved in aggregate. Over any duplicate-free list of
/// addresses covering every sender and recipient that the records name, the
/// balances sum to zero: each record credits and debits the same amount.
pub proof fn lemma_balance_conservation(txs: Seq<Seq<u8>>, addrs: Seq<Seq<u8>>)
    requires
        addrs.no_duplicates(),
        forall|j: int|
            0 <= j < txs.len() ==> (match spec_tx_decode(#[trigger] txs[j]) {
                Some(t) => addrs.contains(t.sender) && addrs.contains(t.recipient),
                None => true,
            }),
    ensures
        spec_balance_sum(txs, addrs) == 0,
    decreases txs.len(),
{
    if txs.len() == 0 {
        assert(txs =~= Seq::<Seq<u8>>::empty());
        lemma_balance_sum_empty(addrs);
    } else {
        assert(forall|j: int|
            0 <= j < txs.drop_last().len() ==> txs.drop_last()[j] == txs[j]);
        lemma_balance_conservation(txs.drop_last(), addrs);
        lemma_balance_sum_step(txs, addrs);
        lemma_contribution_sum(txs.last(), addrs);
    }
}

} // verus!
