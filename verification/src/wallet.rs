//! Wallet projection: balances derived by folding the chain.
//!
//! The exact balance of an account is an unbounded integer; what the
//! executable functions return is its image wrapped into the 64-bit coin
//! range, and each contract says exactly that.
use vstd::prelude::*;

use std::collections::HashMap;

use crate::blockchain::{
    chain_view, lemma_wrap64_absorb, lemma_wrap64_small, wrap64, Block, BlockView, Blockchain,
    NoCoin,
};
use crate::network::NodeId;
use crate::serialization::lemma_take_succ;
use crate::transaction::{reward_shape_ok, ProvenTransactionView, Transaction};

verus! {

/// What one transaction adds to `id`'s balance: the amount when `id`
/// receives, less amount and fee when `id` sends; a transfer from an
/// account to itself therefore nets the fee alone.
pub open spec fn tx_delta(id: NodeId, t: Transaction) -> int {
    (if t.to == id {
        t.amount.0 as int
    } else {
        0
    }) + (if t.from == Some(id) {
        -(t.amount.0 as int) - (t.fee.0 as int)
    } else {
        0
    })
}

/// What a run of transactions adds to `id`'s balance.
pub open spec fn txs_delta(id: NodeId, txs: Seq<ProvenTransactionView>) -> int
    decreases txs.len(),
{
    if txs.len() == 0 {
        0
    } else {
        txs_delta(id, txs.drop_last()) + tx_delta(id, txs.last().transaction)
    }
}

/// The fees a block's miner collects: the sum of its transactions' fees.
pub open spec fn txs_fees(txs: Seq<ProvenTransactionView>) -> int
    decreases txs.len(),
{
    if txs.len() == 0 {
        0
    } else {
        txs_fees(txs.drop_last()) + txs.last().transaction.fee.0 as int
    }
}

/// What one block adds to `id`'s balance: its fees when `id` mined it, and
/// its transactions' transfers.
pub open spec fn block_delta(id: NodeId, b: BlockView) -> int {
    (if b.mined_by == id {
        txs_fees(b.transactions)
    } else {
        0
    }) + txs_delta(id, b.transactions)
}

/// `id`'s exact balance over a chain.
pub open spec fn wallet_int(id: NodeId, chain: Seq<BlockView>) -> int
    decreases chain.len(),
{
    if chain.len() == 0 {
        0
    } else {
        wallet_int(id, chain.drop_last()) + block_delta(id, chain.last())
    }
}

/// The fee half of a balance: fees of the blocks `id` mined.
pub open spec fn fees_gain_int(id: NodeId, chain: Seq<BlockView>) -> int
    decreases chain.len(),
{
    if chain.len() == 0 {
        0
    } else {
        fees_gain_int(id, chain.drop_last()) + (if chain.last().mined_by == id {
            txs_fees(chain.last().transactions)
        } else {
            0
        })
    }
}

/// The transfer half of a balance: what the chain's transactions move.
pub open spec fn txs_gain_int(id: NodeId, chain: Seq<BlockView>) -> int
    decreases chain.len(),
{
    if chain.len() == 0 {
        0
    } else {
        txs_gain_int(id, chain.drop_last()) + txs_delta(id, chain.last().transactions)
    }
}

/// A balance is its fee half plus its transfer half.
pub proof fn lemma_wallet_decompose(id: NodeId, chain: Seq<BlockView>)
    ensures
        wallet_int(id, chain) == fees_gain_int(id, chain) + txs_gain_int(id, chain),
    decreases chain.len(),
{
    if chain.len() > 0 {
        lemma_wallet_decompose(id, chain.drop_last());
    }
}

/// What one transaction does to `id`'s balance, wrapped.
fn balance_after_transaction(id: &NodeId, transaction: &Transaction) -> (r: NoCoin)
    ensures
        r.0 == wrap64(tx_delta(*id, *transaction)),
{
    let ghost a_part: int = if transaction.to == *id {
        transaction.amount.0 as int
    } else {
        0
    };
    let mut acc = NoCoin(0);
    if transaction.to == *id {
        acc = acc.plus(transaction.amount);
        proof {
            lemma_wrap64_small(transaction.amount.0 as int);
        }
    } else {
        proof {
            lemma_wrap64_small(0);
        }
    }
    assert(acc.0 == wrap64(a_part));
    let from_me = match &transaction.from {
        Some(f) => *f == *id,
        None => false,
    };
    if from_me {
        acc = acc.minus(transaction.amount);
        proof {
            lemma_wrap64_absorb(a_part, -(transaction.amount.0 as int));
        }
        acc = acc.minus(transaction.fee);
        proof {
            lemma_wrap64_absorb(
                a_part - (transaction.amount.0 as int),
                -(transaction.fee.0 as int),
            );
        }
    }
    acc
}

/// The fees of one block, wrapped.
fn mining_fees_gain(block: &Block) -> (r: NoCoin)
    ensures
        r.0 == wrap64(txs_fees(block@.transactions)),
{
    let mut acc = NoCoin(0);
    proof {
        lemma_wrap64_small(0);
    }
    let n = block.transactions.0.len();
    let mut j: usize = 0;
    while j < n
        invariant
            n == block@.transactions.len(),
            j <= n,
            acc.0 == wrap64(txs_fees(block@.transactions.take(j as int))),
        decreases n - j,
    {
        let ghost pre = txs_fees(block@.transactions.take(j as int));
        let fee = block.transactions.0[j].transaction.0.fee;
        acc = acc.plus(fee);
        proof {
            lemma_wrap64_absorb(pre, fee.0 as int);
            lemma_take_succ(block@.transactions, j as int);
            assert(txs_fees(block@.transactions.take(j + 1)) == pre + fee.0 as int);
        }
        j += 1;
    }
    proof {
        assert(block@.transactions.take(n as int) =~= block@.transactions);
    }
    acc
}

/// The fees `id` earned mining, over the whole chain, wrapped.
fn mining_fees_gain_for(id: &NodeId, blockchain: &Blockchain) -> (r: NoCoin)
    ensures
        r.0 == wrap64(fees_gain_int(*id, chain_view(blockchain))),
{
    let mut acc = NoCoin(0);
    proof {
        lemma_wrap64_small(0);
    }
    let n = blockchain.0.len();
    let mut i: usize = 0;
    while i < n
        invariant
            n == chain_view(blockchain).len(),
            i <= n,
            acc.0 == wrap64(fees_gain_int(*id, chain_view(blockchain).take(i as int))),
        decreases n - i,
    {
        let ghost pre = fees_gain_int(*id, chain_view(blockchain).take(i as int));
        let block = &blockchain.0[i];
        if block.mined_by == *id {
            let gain = mining_fees_gain(block);
            let ghost f = txs_fees(block@.transactions);
            acc = acc.plus(gain);
            proof {
                lemma_wrap64_absorb(pre, wrap64(f));
                lemma_wrap64_absorb(f, pre);
            }
        }
        proof {
            lemma_take_succ(chain_view(blockchain), i as int);
        }
        i += 1;
    }
    proof {
        assert(chain_view(blockchain).take(n as int) =~= chain_view(blockchain));
    }
    acc
}

/// What the chain's transactions move to or from `id`, wrapped.
fn transactions_gain_for(id: &NodeId, blockchain: &Blockchain) -> (r: NoCoin)
    ensures
        r.0 == wrap64(txs_gain_int(*id, chain_view(blockchain))),
{
    let mut acc = NoCoin(0);
    proof {
        lemma_wrap64_small(0);
    }
    let n = blockchain.0.len();
    let mut i: usize = 0;
    while i < n
        invariant
            n == chain_view(blockchain).len(),
            i <= n,
            acc.0 == wrap64(txs_gain_int(*id, chain_view(blockchain).take(i as int))),
        decreases n - i,
    {
        let ghost pre = txs_gain_int(*id, chain_view(blockchain).take(i as int));
        let block = &blockchain.0[i];
        let m = block.transactions.0.len();
        let mut j: usize = 0;
        while j < m
            invariant
                n == chain_view(blockchain).len(),
                i < n,
                m == block@.transactions.len(),
                block == &blockchain.0[i as int],
                j <= m,
                pre == txs_gain_int(*id, chain_view(blockchain).take(i as int)),
                acc.0 == wrap64(pre + txs_delta(*id, block@.transactions.take(j as int))),
            decreases m - j,
        {
            let ghost sub = txs_delta(*id, block@.transactions.take(j as int));
            let delta = balance_after_transaction(id, &block.transactions.0[j].transaction.0);
            acc = acc.plus(delta);
            proof {
                let d = tx_delta(*id, block@.transactions[j as int].transaction);
                lemma_wrap64_absorb(pre + sub, wrap64(d));
                lemma_wrap64_absorb(d, pre + sub);
                lemma_take_succ(block@.transactions, j as int);
                assert(txs_delta(*id, block@.transactions.take(j + 1)) == sub + d);
            }
            j += 1;
        }
        proof {
            assert(block@.transactions.take(m as int) =~= block@.transactions);
            lemma_take_succ(chain_view(blockchain), i as int);
            assert(txs_gain_int(*id, chain_view(blockchain).take(i + 1)) == pre + txs_delta(
                *id,
                block@.transactions,
            ));
        }
        i += 1;
    }
    proof {
        assert(chain_view(blockchain).take(n as int) =~= chain_view(blockchain));
    }
    acc
}

/// Whether a transaction concerns `id` as sender or recipient.
pub open spec fn tx_touches(id: NodeId, t: Transaction) -> bool {
    t.to == id || t.from == Some(id)
}

/// Whether a block concerns `id`: it mined the block, or one of the
/// block's transactions names it.
pub open spec fn block_touches(id: NodeId, b: BlockView) -> bool {
    b.mined_by == id || exists|j: int|
        0 <= j < b.transactions.len() && tx_touches(id, #[trigger] b.transactions[j].transaction)
}

/// Whether any block of the chain concerns `id`.
pub open spec fn touched(id: NodeId, chain: Seq<BlockView>) -> bool {
    exists|i: int| 0 <= i < chain.len() && block_touches(id, #[trigger] chain[i])
}

/// Records `id`'s balance under its key if it is not there yet.
fn record_wallet(result: &mut HashMap<u64, NoCoin>, id: NodeId, blockchain: &Blockchain)
    requires
        touched(id, chain_view(blockchain)),
        forall|q: u64| #[trigger]
            old(result)@.contains_key(q) ==> touched(NodeId(q), chain_view(blockchain))
                && old(result)@[q].0 == wrap64(wallet_int(NodeId(q), chain_view(blockchain))),
    ensures
        forall|q: u64| #[trigger]
            final(result)@.contains_key(q) ==> touched(NodeId(q), chain_view(blockchain))
                && final(result)@[q].0 == wrap64(wallet_int(NodeId(q), chain_view(blockchain))),
        forall|q: u64| #[trigger]
            old(result)@.contains_key(q) ==> final(result)@.contains_key(q),
        final(result)@.contains_key(id.0),
{
    proof {
        broadcast use vstd::std_specs::hash::group_hash_axioms;
    }
    if !result.contains_key(&id.0) {
        let balance = calculate_wallet(&id, blockchain);
        result.insert(id.0, balance);
    }
}

/// Every balance the chain mentions: a map from each node id one of the
/// blocks concerns to that node's balance.
pub fn calculate_all_wallets(blockchain: &Blockchain) -> (r: HashMap<u64, NoCoin>)
    ensures
        forall|id: u64| #[trigger]
            r@.contains_key(id) <==> touched(NodeId(id), chain_view(blockchain)),
        forall|id: u64| #[trigger]
            r@.contains_key(id) ==> r@[id].0 == wrap64(
                wallet_int(NodeId(id), chain_view(blockchain)),
            ),
{
    proof {
        broadcast use vstd::std_specs::hash::group_hash_axioms;
    }
    let mut result: HashMap<u64, NoCoin> = HashMap::new();
    let n = blockchain.0.len();
    let mut i: usize = 0;
    while i < n
        invariant
            n == chain_view(blockchain).len(),
            i <= n,
            forall|q: u64| #[trigger]
                result@.contains_key(q) ==> touched(NodeId(q), chain_view(blockchain))
                    && result@[q].0 == wrap64(wallet_int(NodeId(q), chain_view(blockchain))),
            forall|q: u64| #[trigger]
                touched(NodeId(q), chain_view(blockchain).take(i as int)) ==> result@.contains_key(
                    q,
                ),
        decreases n - i,
    {
        let ghost chain = chain_view(blockchain);
        let block = &blockchain.0[i];
        assert(block_touches(block@.mined_by, chain[i as int]));
        record_wallet(&mut result, block.mined_by, blockchain);
        let m = block.transactions.0.len();
        let mut j: usize = 0;
        while j < m
            invariant
                n == chain_view(blockchain).len(),
                chain == chain_view(blockchain),
                i < n,
                m == block@.transactions.len(),
                block == &blockchain.0[i as int],
                j <= m,
                forall|q: u64| #[trigger]
                    result@.contains_key(q) ==> touched(NodeId(q), chain_view(blockchain))
                        && result@[q].0 == wrap64(wallet_int(NodeId(q), chain_view(blockchain))),
                forall|q: u64| #[trigger]
                    touched(NodeId(q), chain_view(blockchain).take(i as int))
                        ==> result@.contains_key(q),
                forall|jj: int|
                    0 <= jj < j ==> result@.contains_key(
                        (#[trigger] block@.transactions[jj]).transaction.to.0,
                    ),
                forall|jj: int|
                    0 <= jj < j ==> ((#[trigger] block@.transactions[jj]).transaction.from matches
                        Some(f) ==> result@.contains_key(f.0)),
                result@.contains_key(chain[i as int].mined_by.0),
            decreases m - j,
        {
            let t = &block.transactions.0[j].transaction.0;
            assert(tx_touches(t.to, block@.transactions[j as int].transaction));
            assert(block_touches(t.to, chain[i as int]));
            record_wallet(&mut result, t.to, blockchain);
            match &t.from {
                Some(f) => {
                    assert(tx_touches(*f, block@.transactions[j as int].transaction));
                    assert(block_touches(*f, chain[i as int]));
                    record_wallet(&mut result, *f, blockchain);
                },
                None => {
                },
            }
            j += 1;
        }
        proof {
            lemma_take_succ(chain, i as int);
            assert forall|q: u64| #[trigger]
                touched(NodeId(q), chain.take(i + 1)) implies result@.contains_key(q) by {
                let bi = choose|bi: int|
                    0 <= bi < chain.take(i + 1).len() && block_touches(
                        NodeId(q),
                        #[trigger] chain.take(i + 1)[bi],
                    );
                if bi < i {
                    assert(chain.take(i as int)[bi] == chain.take(i + 1)[bi]);
                    assert(touched(NodeId(q), chain.take(i as int)));
                } else {
                    assert(chain.take(i + 1)[bi] == chain[i as int]);
                    assert(block_touches(NodeId(q), chain[i as int]));
                    if chain[i as int].mined_by == NodeId(q) {
                    } else {
                        let jj = choose|jj: int|
                            0 <= jj < chain[i as int].transactions.len() && tx_touches(
                                NodeId(q),
                                #[trigger] chain[i as int].transactions[jj].transaction,
                            );
                        let t = chain[i as int].transactions[jj].transaction;
                        assert(block@.transactions[jj].transaction == t);
                        if t.to == NodeId(q) {
                        } else {
                            assert(t.from == Some(NodeId(q)));
                        }
                    }
                }
            }
        }
        i += 1;
    }
    proof {
        assert(chain_view(blockchain).take(n as int) =~= chain_view(blockchain));
    }
    result
}

/// No id occurs twice.
pub open spec fn ids_distinct(ids: Seq<u64>) -> bool {
    forall|a: int, b: int| 0 <= a < b < ids.len() ==> ids[a] != ids[b]
}

/// The balances of a run of ids, summed exactly.
pub open spec fn sum_wallets(ids: Seq<u64>, chain: Seq<BlockView>) -> int
    decreases ids.len(),
{
    if ids.len() == 0 {
        0
    } else {
        sum_wallets(ids.drop_last(), chain) + wallet_int(NodeId(ids.last()), chain)
    }
}

/// What one block adds to the balances of a run of ids, summed.
pub open spec fn sum_block_delta(ids: Seq<u64>, b: BlockView) -> int
    decreases ids.len(),
{
    if ids.len() == 0 {
        0
    } else {
        sum_block_delta(ids.drop_last(), b) + block_delta(NodeId(ids.last()), b)
    }
}

/// The fee halves of one block over a run of ids, summed.
pub open spec fn sum_fees_part(ids: Seq<u64>, b: BlockView) -> int
    decreases ids.len(),
{
    if ids.len() == 0 {
        0
    } else {
        sum_fees_part(ids.drop_last(), b) + (if b.mined_by == NodeId(ids.last()) {
            txs_fees(b.transactions)
        } else {
            0
        })
    }
}

/// What a run of transactions adds over a run of ids, summed.
pub open spec fn sum_txs_delta(ids: Seq<u64>, txs: Seq<ProvenTransactionView>) -> int
    decreases ids.len(),
{
    if ids.len() == 0 {
        0
    } else {
        sum_txs_delta(ids.drop_last(), txs) + txs_delta(NodeId(ids.last()), txs)
    }
}

/// What one transaction adds over a run of ids, summed.
pub open spec fn sum_tx_delta(ids: Seq<u64>, t: Transaction) -> int
    decreases ids.len(),
{
    if ids.len() == 0 {
        0
    } else {
        sum_tx_delta(ids.drop_last(), t) + tx_delta(NodeId(ids.last()), t)
    }
}

/// The recipient halves of one transaction over a run of ids, summed.
pub open spec fn sum_to_part(ids: Seq<u64>, t: Transaction) -> int
    decreases ids.len(),
{
    if ids.len() == 0 {
        0
    } else {
        sum_to_part(ids.drop_last(), t) + (if t.to == NodeId(ids.last()) {
            t.amount.0 as int
        } else {
            0
        })
    }
}

/// The sender halves of one transaction over a run of ids, summed.
pub open spec fn sum_from_part(ids: Seq<u64>, t: Transaction) -> int
    decreases ids.len(),
{
    if ids.len() == 0 {
        0
    } else {
        sum_from_part(ids.drop_last(), t) + (if t.from == Some(NodeId(ids.last())) {
            -(t.amount.0 as int) - (t.fee.0 as int)
        } else {
            0
        })
    }
}

/// What a run of transactions moves in total, over all accounts at once:
/// each reward injects its amount, each transfer burns its fee into the
/// miner's half.
pub open spec fn txs_net(txs: Seq<ProvenTransactionView>) -> int
    decreases txs.len(),
{
    if txs.len() == 0 {
        0
    } else {
        txs_net(txs.drop_last()) + (if txs.last().transaction.from is None {
            txs.last().transaction.amount.0 as int
        } else {
            -(txs.last().transaction.fee.0 as int)
        })
    }
}

/// How many reward transactions a run of transactions carries.
pub open spec fn txs_reward_count(txs: Seq<ProvenTransactionView>) -> int
    decreases txs.len(),
{
    if txs.len() == 0 {
        0int
    } else {
        txs_reward_count(txs.drop_last()) + (if txs.last().transaction.from is None {
            1int
        } else {
            0int
        })
    }
}

/// How many reward transactions a chain carries in all.
pub open spec fn chain_reward_count(chain: Seq<BlockView>) -> int
    decreases chain.len(),
{
    if chain.len() == 0 {
        0
    } else {
        chain_reward_count(chain.drop_last()) + txs_reward_count(chain.last().transactions)
    }
}

/// Every reward transaction in the run has the fixed reward shape.
pub open spec fn rewards_shaped(txs: Seq<ProvenTransactionView>) -> bool {
    forall|j: int|
        0 <= j < txs.len() && (#[trigger] txs[j]).transaction.from is None ==> reward_shape_ok(
            txs[j].transaction,
        )
}

/// Every reward transaction anywhere in the chain has the fixed shape.
pub open spec fn chain_rewards_shaped(chain: Seq<BlockView>) -> bool {
    forall|i: int| 0 <= i < chain.len() ==> rewards_shaped((#[trigger] chain[i]).transactions)
}

proof fn lemma_sum_wallets_step(ids: Seq<u64>, chain: Seq<BlockView>)
    requires
        chain.len() > 0,
    ensures
        sum_wallets(ids, chain) == sum_wallets(ids, chain.drop_last()) + sum_block_delta(
            ids,
            chain.last(),
        ),
    decreases ids.len(),
{
    if ids.len() > 0 {
        lemma_sum_wallets_step(ids.drop_last(), chain);
    }
}

proof fn lemma_sum_block_split(ids: Seq<u64>, b: BlockView)
    ensures
        sum_block_delta(ids, b) == sum_fees_part(ids, b) + sum_txs_delta(ids, b.transactions),
    decreases ids.len(),
{
    if ids.len() > 0 {
        lemma_sum_block_split(ids.drop_last(), b);
    }
}

proof fn lemma_sum_txs_step(ids: Seq<u64>, txs: Seq<ProvenTransactionView>)
    requires
        txs.len() > 0,
    ensures
        sum_txs_delta(ids, txs) == sum_txs_delta(ids, txs.drop_last()) + sum_tx_delta(
            ids,
            txs.last().transaction,
        ),
    decreases ids.len(),
{
    if ids.len() > 0 {
        lemma_sum_txs_step(ids.drop_last(), txs);
    }
}

proof fn lemma_sum_txs_empty(ids: Seq<u64>, txs: Seq<ProvenTransactionView>)
    requires
        txs.len() == 0,
    ensures
        sum_txs_delta(ids, txs) == 0,
    decreases ids.len(),
{
    if ids.len() > 0 {
        lemma_sum_txs_empty(ids.drop_last(), txs);
    }
}

proof fn lemma_sum_tx_split(ids: Seq<u64>, t: Transaction)
    ensures
        sum_tx_delta(ids, t) == sum_to_part(ids, t) + sum_from_part(ids, t),
    decreases ids.len(),
{
    if ids.len() > 0 {
        lemma_sum_tx_split(ids.drop_last(), t);
    }
}

proof fn lemma_sum_to_zero(ids: Seq<u64>, t: Transaction)
    requires
        !ids.contains(t.to.0),
    ensures
        sum_to_part(ids, t) == 0,
    decreases ids.len(),
{
    if ids.len() > 0 {
        assert(forall|a: int| 0 <= a < ids.len() - 1 ==> ids.drop_last()[a] == ids[a]);
        lemma_sum_to_zero(ids.drop_last(), t);
        assert(ids[ids.len() - 1] != t.to.0);
    }
}

proof fn lemma_sum_to(ids: Seq<u64>, t: Transaction)
    requires
        ids_distinct(ids),
        ids.contains(t.to.0),
    ensures
        sum_to_part(ids, t) == t.amount.0 as int,
    decreases ids.len(),
{
    let dl = ids.drop_last();
    assert(forall|a: int| 0 <= a < ids.len() - 1 ==> dl[a] == ids[a]);
    if ids.last() == t.to.0 {
        assert(!dl.contains(t.to.0));
        lemma_sum_to_zero(dl, t);
    } else {
        let w = choose|w: int| 0 <= w < ids.len() && ids[w] == t.to.0;
        assert(dl[w] == t.to.0);
        assert(dl.contains(t.to.0));
        lemma_sum_to(dl, t);
    }
}

proof fn lemma_sum_from_zero(ids: Seq<u64>, t: Transaction)
    requires
        match t.from {
            None => true,
            Some(s) => !ids.contains(s.0),
        },
    ensures
        sum_from_part(ids, t) == 0,
    decreases ids.len(),
{
    if ids.len() > 0 {
        assert(forall|a: int| 0 <= a < ids.len() - 1 ==> ids.drop_last()[a] == ids[a]);
        lemma_sum_from_zero(ids.drop_last(), t);
    }
}

proof fn lemma_sum_from(ids: Seq<u64>, t: Transaction, s: NodeId)
    requires
        ids_distinct(ids),
        t.from == Some(s),
        ids.contains(s.0),
    ensures
        sum_from_part(ids, t) == -(t.amount.0 as int) - (t.fee.0 as int),
    decreases ids.len(),
{
    let dl = ids.drop_last();
    assert(forall|a: int| 0 <= a < ids.len() - 1 ==> dl[a] == ids[a]);
    if ids.last() == s.0 {
        assert(!dl.contains(s.0));
        lemma_sum_from_zero(dl, t);
    } else {
        let w = choose|w: int| 0 <= w < ids.len() && ids[w] == s.0;
        assert(dl[w] == s.0);
        assert(dl.contains(s.0));
        lemma_sum_from(dl, t, s);
    }
}

proof fn lemma_sum_fees_zero(ids: Seq<u64>, b: BlockView)
    requires
        !ids.contains(b.mined_by.0),
    ensures
        sum_fees_part(ids, b) == 0,
    decreases ids.len(),
{
    if ids.len() > 0 {
        assert(forall|a: int| 0 <= a < ids.len() - 1 ==> ids.drop_last()[a] == ids[a]);
        lemma_sum_fees_zero(ids.drop_last(), b);
    }
}

proof fn lemma_sum_fees(ids: Seq<u64>, b: BlockView)
    requires
        ids_distinct(ids),
        ids.contains(b.mined_by.0),
    ensures
        sum_fees_part(ids, b) == txs_fees(b.transactions),
    decreases ids.len(),
{
    let dl = ids.drop_last();
    assert(forall|a: int| 0 <= a < ids.len() - 1 ==> dl[a] == ids[a]);
    if ids.last() == b.mined_by.0 {
        assert(!dl.contains(b.mined_by.0));
        lemma_sum_fees_zero(dl, b);
    } else {
        let w = choose|w: int| 0 <= w < ids.len() && ids[w] == b.mined_by.0;
        assert(dl[w] == b.mined_by.0);
        assert(dl.contains(b.mined_by.0));
        lemma_sum_fees(dl, b);
    }
}

proof fn lemma_sum_txs_value(ids: Seq<u64>, txs: Seq<ProvenTransactionView>)
    requires
        ids_distinct(ids),
        forall|j: int|
            0 <= j < txs.len() ==> ids.contains((#[trigger] txs[j]).transaction.to.0) && (match txs[j].transaction.from {
                None => true,
                Some(s) => ids.contains(s.0),
            }),
    ensures
        sum_txs_delta(ids, txs) == txs_net(txs),
    decreases txs.len(),
{
    if txs.len() == 0 {
        lemma_sum_txs_empty(ids, txs);
    } else {
        let dl = txs.drop_last();
        assert(forall|j: int| 0 <= j < txs.len() - 1 ==> dl[j] == txs[j]);
        lemma_sum_txs_value(ids, dl);
        lemma_sum_txs_step(ids, txs);
        let t = txs.last().transaction;
        assert(txs.last() == txs[txs.len() - 1]);
        lemma_sum_tx_split(ids, t);
        lemma_sum_to(ids, t);
        match t.from {
            None => {
                lemma_sum_from_zero(ids, t);
            },
            Some(s) => {
                lemma_sum_from(ids, t, s);
            },
        }
    }
}

proof fn lemma_fees_net(txs: Seq<ProvenTransactionView>)
    requires
        rewards_shaped(txs),
    ensures
        txs_fees(txs) + txs_net(txs) == crate::MINING_REWARD * txs_reward_count(txs),
    decreases txs.len(),
{
    if txs.len() > 0 {
        let dl = txs.drop_last();
        assert(forall|j: int| 0 <= j < txs.len() - 1 ==> dl[j] == txs[j]);
        lemma_fees_net(dl);
        assert(txs.last() == txs[txs.len() - 1]);
        let c = txs_reward_count(txs);
        let c0 = txs_reward_count(dl);
        if txs.last().transaction.from is None {
            assert(reward_shape_ok(txs.last().transaction));
            assert(c == c0 + 1);
            assert(crate::MINING_REWARD * c == crate::MINING_REWARD * c0
                + crate::MINING_REWARD) by (nonlinear_arith)
                requires
                    c == c0 + 1,
            ;
        } else {
            assert(c == c0);
        }
    }
}

/// Law (wallet conservation): over any chain whose rewards all have the
/// fixed reward shape, the exact balances of a duplicate-free run of ids
/// covering everyone the chain touches sum to the mining reward times the
/// number of reward transactions; fees only move value, they create none.
pub proof fn lemma_wallet_conservation(ids: Seq<u64>, chain: Seq<BlockView>)
    requires
        ids_distinct(ids),
        forall|id: NodeId| #[trigger] touched(id, chain) ==> ids.contains(id.0),
        chain_rewards_shaped(chain),
    ensures
        sum_wallets(ids, chain) == crate::MINING_REWARD * chain_reward_count(chain),
    decreases chain.len(),
{
    if chain.len() == 0 {
        lemma_sum_wallets_zero(ids, chain);
    } else {
        let dl = chain.drop_last();
        let b = chain.last();
        assert(forall|i: int| 0 <= i < chain.len() - 1 ==> dl[i] == chain[i]);
        assert forall|id: NodeId| #[trigger] touched(id, dl) implies ids.contains(id.0) by {
            let i = choose|i: int| 0 <= i < dl.len() && block_touches(id, #[trigger] dl[i]);
            assert(block_touches(id, chain[i]));
            assert(touched(id, chain));
        }
        lemma_wallet_conservation(ids, dl);
        lemma_sum_wallets_step(ids, chain);
        lemma_sum_block_split(ids, b);
        assert(b == chain[chain.len() - 1]);
        assert(block_touches(b.mined_by, b));
        assert(touched(b.mined_by, chain));
        lemma_sum_fees(ids, b);
        assert forall|j: int|
            0 <= j < b.transactions.len() implies ids.contains(
            (#[trigger] b.transactions[j]).transaction.to.0,
        ) && (match b.transactions[j].transaction.from {
            None => true,
            Some(s) => ids.contains(s.0),
        }) by {
            let t = b.transactions[j].transaction;
            assert(tx_touches(t.to, t));
            assert(block_touches(t.to, b));
            assert(touched(t.to, chain));
            match t.from {
                None => {
                },
                Some(s) => {
                    assert(tx_touches(s, t));
                    assert(block_touches(s, b));
                    assert(touched(s, chain));
                },
            }
        }
        lemma_sum_txs_value(ids, b.transactions);
        assert(rewards_shaped(b.transactions));
        lemma_fees_net(b.transactions);
    }
}

/// Whether a run of transactions carries a reward at all.
pub open spec fn has_reward(txs: Seq<ProvenTransactionView>) -> bool {
    exists|j: int| 0 <= j < txs.len() && (#[trigger] txs[j]).transaction.from is None
}

/// Whether a run of transactions carries at most one reward.
pub open spec fn at_most_one_reward(txs: Seq<ProvenTransactionView>) -> bool {
    forall|j1: int, j2: int|
        0 <= j1 < j2 < txs.len() ==> !((#[trigger] txs[j1]).transaction.from is None
            && (#[trigger] txs[j2]).transaction.from is None)
}

/// How many blocks of the chain carry a reward.
pub open spec fn blocks_with_reward(chain: Seq<BlockView>) -> int
    decreases chain.len(),
{
    if chain.len() == 0 {
        0int
    } else {
        blocks_with_reward(chain.drop_last()) + (if has_reward(chain.last().transactions) {
            1int
        } else {
            0int
        })
    }
}

proof fn lemma_reward_count_without_reward(txs: Seq<ProvenTransactionView>)
    requires
        !has_reward(txs),
    ensures
        txs_reward_count(txs) == 0,
    decreases txs.len(),
{
    if txs.len() > 0 {
        let dl = txs.drop_last();
        assert(forall|j: int| 0 <= j < txs.len() - 1 ==> dl[j] == txs[j]);
        assert(!has_reward(dl));
        lemma_reward_count_without_reward(dl);
        assert(!(txs[txs.len() - 1].transaction.from is None));
    }
}

proof fn lemma_reward_count_single(txs: Seq<ProvenTransactionView>)
    requires
        at_most_one_reward(txs),
    ensures
        txs_reward_count(txs) == if has_reward(txs) {
            1int
        } else {
            0int
        },
    decreases txs.len(),
{
    if txs.len() > 0 {
        let dl = txs.drop_last();
        assert(forall|j: int| 0 <= j < txs.len() - 1 ==> dl[j] == txs[j]);
        assert(at_most_one_reward(dl));
        if txs[txs.len() - 1].transaction.from is None {
            assert(!has_reward(dl));
            lemma_reward_count_without_reward(dl);
        } else {
            lemma_reward_count_single(dl);
            if has_reward(txs) {
                let j = choose|j: int|
                    0 <= j < txs.len() && (#[trigger] txs[j]).transaction.from is None;
                assert(dl[j] == txs[j]);
                assert(has_reward(dl));
            } else if has_reward(dl) {
                let j = choose|j: int|
                    0 <= j < dl.len() && (#[trigger] dl[j]).transaction.from is None;
                assert(txs[j] == dl[j]);
                assert(has_reward(txs));
            }
        }
    }
}

/// Law (wallet conservation, per block): when on top every block carries at
/// most one reward, the balances sum to the mining reward times the number
/// of blocks whose transactions include a reward.
pub proof fn lemma_wallet_conservation_per_block(ids: Seq<u64>, chain: Seq<BlockView>)
    requires
        ids_distinct(ids),
        forall|id: NodeId| #[trigger] touched(id, chain) ==> ids.contains(id.0),
        chain_rewards_shaped(chain),
        forall|i: int| 0 <= i < chain.len() ==> at_most_one_reward((#[trigger] chain[i]).transactions),
    ensures
        sum_wallets(ids, chain) == crate::MINING_REWARD * blocks_with_reward(chain),
{
    lemma_wallet_conservation(ids, chain);
    lemma_chain_reward_counts(chain);
}

proof fn lemma_chain_reward_counts(chain: Seq<BlockView>)
    requires
        forall|i: int| 0 <= i < chain.len() ==> at_most_one_reward((#[trigger] chain[i]).transactions),
    ensures
        chain_reward_count(chain) == blocks_with_reward(chain),
    decreases chain.len(),
{
    if chain.len() > 0 {
        let dl = chain.drop_last();
        assert(forall|i: int| 0 <= i < chain.len() - 1 ==> dl[i] == chain[i]);
        lemma_chain_reward_counts(dl);
        assert(chain.last() == chain[chain.len() - 1]);
        lemma_reward_count_single(chain.last().transactions);
    }
}

proof fn lemma_sum_wallets_zero(ids: Seq<u64>, chain: Seq<BlockView>)
    requires
        chain.len() == 0,
    ensures
        sum_wallets(ids, chain) == 0,
    decreases ids.len(),
{
    if ids.len() > 0 {
        lemma_sum_wallets_zero(ids.drop_last(), chain);
    }
}

/// `id`'s balance over the chain: the wrapped image of its exact value.
pub fn calculate_wallet(id: &NodeId, blockchain: &Blockchain) -> (r: NoCoin)
    ensures
        r.0 == wrap64(wallet_int(*id, chain_view(blockchain))),
{
    let from_transactions = transactions_gain_for(id, blockchain);
    let from_mining = mining_fees_gain_for(id, blockchain);
    let r = from_transactions.plus(from_mining);
    proof {
        let t = txs_gain_int(*id, chain_view(blockchain));
        let f = fees_gain_int(*id, chain_view(blockchain));
        lemma_wrap64_absorb(t, wrap64(f));
        lemma_wrap64_absorb(f, t);
        lemma_wallet_decompose(*id, chain_view(blockchain));
    }
    r
}

} // verus!
