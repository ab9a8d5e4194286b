//! The coin, blocks, and the chain.
use vstd::prelude::*;

use crate::errors::NodeError;
use crate::mining::{zero_hash, BlockHash};
use crate::network::NodeId;
use crate::transaction::{ProvenTransaction, ProvenTransactionView};

verus! {

/// The currency: a signed fixed-point value in whole coins.  Its addition
/// and subtraction wrap around the 64-bit range, and every derived figure
/// is stated as the wrapped image of the exact mathematical value.
#[derive(Debug, Clone, Copy, PartialEq, Eq, Structural)]
pub struct NoCoin(pub i64);

/// The image of an unbounded value in the signed 64-bit range, congruent to
/// it modulo `2^64`; balances are stated as this image of their exact
/// mathematical value.
pub open spec fn wrap64(x: int) -> int {
    (x + 0x8000_0000_0000_0000) % 0x1_0000_0000_0000_0000 - 0x8000_0000_0000_0000
}

pub proof fn lemma_wrap64_bounds(x: int)
    ensures
        i64::MIN <= wrap64(x) <= i64::MAX,
{
    vstd::arithmetic::div_mod::lemma_mod_bound(
        x + 0x8000_0000_0000_0000,
        0x1_0000_0000_0000_0000,
    );
}

/// A value already in the 64-bit range is its own image.
pub proof fn lemma_wrap64_small(x: int)
    requires
        i64::MIN <= x <= i64::MAX,
    ensures
        wrap64(x) == x,
{
    vstd::arithmetic::div_mod::lemma_small_mod(
        (x + 0x8000_0000_0000_0000) as nat,
        0x1_0000_0000_0000_0000 as nat,
    );
}

/// Shifting by a multiple of `2^64` leaves the image unchanged.
pub proof fn lemma_wrap64_shift(x: int, k: int)
    ensures
        wrap64(x + k * 0x1_0000_0000_0000_0000) == wrap64(x),
{
    vstd::arithmetic::div_mod::lemma_mod_multiples_vanish(
        k,
        x + 0x8000_0000_0000_0000,
        0x1_0000_0000_0000_0000,
    );
    assert(k * 0x1_0000_0000_0000_0000 == 0x1_0000_0000_0000_0000 * k) by (nonlinear_arith);
}

/// Wrapping one summand first does not change a wrapped sum.
pub proof fn lemma_wrap64_absorb(a: int, b: int)
    ensures
        wrap64(wrap64(a) + b) == wrap64(a + b),
{
    let h: int = 0x8000_0000_0000_0000;
    let r: int = 0x1_0000_0000_0000_0000;
    let q = (a + h) / r;
    vstd::arithmetic::div_mod::lemma_fundamental_div_mod(a + h, r);
    assert(wrap64(a) == a - r * q);
    assert((-q) * r == -(r * q)) by (nonlinear_arith);
    lemma_wrap64_shift(wrap64(a) + b, q);
    assert(wrap64(a) + b + q * r == a + b) by {
        assert(q * r == r * q) by (nonlinear_arith);
    };
}

impl NoCoin {
    /// Sum of two amounts, wrapped into the 64-bit range.
    pub fn plus(self, rhs: NoCoin) -> (r: NoCoin)
        ensures
            r.0 == wrap64(self.0 + rhs.0),
    {
        let r = NoCoin(self.0.wrapping_add(rhs.0));
        proof {
            let sum = self.0 + rhs.0;
            if i64::MIN <= sum <= i64::MAX {
                lemma_wrap64_small(sum);
            } else if sum > i64::MAX {
                lemma_wrap64_small(sum - 0x1_0000_0000_0000_0000);
                lemma_wrap64_shift(sum - 0x1_0000_0000_0000_0000, 1);
            } else {
                lemma_wrap64_small(sum + 0x1_0000_0000_0000_0000);
                lemma_wrap64_shift(sum + 0x1_0000_0000_0000_0000, -1);
            }
        }
        r
    }

    /// Difference of two amounts, wrapped into the 64-bit range.
    pub fn minus(self, rhs: NoCoin) -> (r: NoCoin)
        ensures
            r.0 == wrap64(self.0 - rhs.0),
    {
        let r = NoCoin(self.0.wrapping_sub(rhs.0));
        proof {
            let diff = self.0 - rhs.0;
            if i64::MIN <= diff <= i64::MAX {
                lemma_wrap64_small(diff);
            } else if diff > i64::MAX {
                lemma_wrap64_small(diff - 0x1_0000_0000_0000_0000);
                lemma_wrap64_shift(diff - 0x1_0000_0000_0000_0000, 1);
            } else {
                lemma_wrap64_small(diff + 0x1_0000_0000_0000_0000);
                lemma_wrap64_shift(diff + 0x1_0000_0000_0000_0000, -1);
            }
        }
        r
    }
}

/// A block's position in the chain.
#[derive(Debug, Clone, Copy, PartialEq, Eq, Structural)]
pub struct BlockIndex(pub usize);

/// The value whose choice makes a block's hash clear its difficulty.
#[derive(Debug, Clone, Copy, PartialEq, Eq, Structural)]
pub struct Nonce(pub u32);

/// A block's header: its position, the linking hashes, and the difficulty
/// its proof-of-work answers for.
#[derive(Debug)]
pub struct BlockHeader {
    pub index: BlockIndex,
    pub prev_hash: BlockHash,
    pub hash: BlockHash,
    pub timestamp: usize,
    pub difficulty: u8,
}

/// The transactions a block carries.
#[derive(Debug)]
pub struct BlocksTransactions(pub Vec<ProvenTransaction>);

/// One mined block.
#[derive(Debug)]
pub struct Block {
    pub header: BlockHeader,
    pub mined_by: NodeId,
    pub transactions: BlocksTransactions,
    pub nonce: Nonce,
}

pub ghost struct BlockView {
    pub index: usize,
    pub prev_hash: Seq<char>,
    pub hash: Seq<char>,
    pub timestamp: usize,
    pub difficulty: u8,
    pub mined_by: NodeId,
    pub transactions: Seq<ProvenTransactionView>,
    pub nonce: u32,
}

impl View for Block {
    type V = BlockView;

    open spec fn view(&self) -> BlockView {
        BlockView {
            index: self.header.index.0,
            prev_hash: self.header.prev_hash@,
            hash: self.header.hash@,
            timestamp: self.header.timestamp,
            difficulty: self.header.difficulty,
            mined_by: self.mined_by,
            transactions: self.transactions.0.deep_view(),
            nonce: self.nonce.0,
        }
    }
}

impl DeepView for Block {
    type V = BlockView;

    open spec fn deep_view(&self) -> BlockView {
        self@
    }
}

impl Clone for Block {
    fn clone(&self) -> (r: Self)
        ensures
            r@ == self@,
    {
        let mut txs: Vec<ProvenTransaction> = Vec::new();
        let n = self.transactions.0.len();
        let mut i: usize = 0;
        while i < n
            invariant
                n == self.transactions.0@.len(),
                i <= n,
                txs@.len() == i,
                forall|j: int| 0 <= j < i ==> #[trigger] txs@[j]@ == self.transactions.0@[j]@,
            decreases n - i,
        {
            txs.push(self.transactions.0[i].clone());
            i += 1;
        }
        proof {
            assert forall|j: int| 0 <= j < n implies txs.deep_view()[j]
                == self.transactions.0.deep_view()[j] by {
                assert(txs@[j]@ == self.transactions.0@[j]@);
            }
            assert(txs.deep_view() =~= self.transactions.0.deep_view());
        }
        let r = Block {
            header: BlockHeader {
                index: self.header.index,
                prev_hash: self.header.prev_hash.clone(),
                hash: self.header.hash.clone(),
                timestamp: self.header.timestamp,
                difficulty: self.header.difficulty,
            },
            mined_by: self.mined_by,
            transactions: BlocksTransactions(txs),
            nonce: self.nonce,
        };
        r
    }
}

/// The chain itself: an append-only run of blocks, genesis first.
#[derive(Debug)]
pub struct Blockchain(pub Vec<Block>);

/// A valid genesis block: no transactions, the all-zero previous hash, the
/// fixed genesis difficulty, and a proof-of-work that clears it.
pub open spec fn genesis_ok(b: BlockView) -> bool {
    &&& b.transactions.len() == 0
    &&& b.prev_hash == zero_hash()
    &&& b.difficulty == crate::GENESIS_DIFFICULTY
    &&& crate::mining::pow_ok(b.transactions, b.nonce, b.difficulty)
}

/// Every block after the first names its predecessor's hash.
pub open spec fn chain_linked(chain: Seq<BlockView>) -> bool {
    forall|i: int| 1 <= i < chain.len() ==> #[trigger] chain[i].prev_hash == chain[i - 1].hash
}

/// Every block's proof-of-work clears its own difficulty.
pub open spec fn chain_pow_ok(chain: Seq<BlockView>) -> bool {
    forall|i: int|
        0 <= i < chain.len() ==> #[trigger] crate::mining::pow_ok(
            chain[i].transactions,
            chain[i].nonce,
            chain[i].difficulty,
        )
}

/// What chain validation establishes: a present and valid genesis, linked
/// hashes, and proof-of-work throughout.
pub open spec fn chain_ok(chain: Seq<BlockView>) -> bool {
    &&& chain.len() >= 1
    &&& genesis_ok(chain[0])
    &&& chain_linked(chain)
    &&& chain_pow_ok(chain)
}

/// Law: in an accepted chain, every block past the first names its
/// predecessor's hash.
pub proof fn lemma_accepted_chain_linked(chain: Seq<BlockView>)
    requires
        chain_ok(chain),
    ensures
        forall|i: int| 1 <= i < chain.len() ==> #[trigger] chain[i].prev_hash == chain[i - 1].hash,
{
}

/// Law: in an accepted chain, every block's hash over its transactions and
/// nonce clears that block's difficulty.
pub proof fn lemma_accepted_chain_pow(chain: Seq<BlockView>)
    requires
        chain_ok(chain),
    ensures
        forall|i: int|
            0 <= i < chain.len() ==> #[trigger] crate::mining::pow_ok(
                chain[i].transactions,
                chain[i].nonce,
                chain[i].difficulty,
            ),
{
}

/// Mines the first block of a fresh chain: no transactions, the all-zero
/// previous hash, the genesis difficulty.  Fails only if no nonce clears
/// that difficulty.
pub fn genesis_block() -> (r: Result<Block, NodeError>)
    ensures
        r matches Ok(b) ==> genesis_ok(b@) && b@.index == 0 && b@.mined_by == NodeId(0)
            && b@.hash == crate::mining::block_hash_of(b@.transactions, b@.nonce),
        r is Err ==> r == Err::<Block, NodeError>(NodeError::Internal) && (forall|n: u32|
            n < u32::MAX ==> !crate::mining::pow_ok(
                Seq::<ProvenTransactionView>::empty(),
                n,
                crate::GENESIS_DIFFICULTY,
            )),
{
    let empty: Vec<ProvenTransaction> = Vec::new();
    match crate::mining::try_mine_any(crate::GENESIS_DIFFICULTY, &empty) {
        Ok((hash, nonce, chosen)) => {
            proof {
                assert(chosen.deep_view() =~= Seq::<ProvenTransactionView>::empty());
            }
            Ok(
                Block {
                    header: BlockHeader {
                        index: BlockIndex(0),
                        prev_hash: BlockHash::default(),
                        hash,
                        timestamp: 0,
                        difficulty: crate::GENESIS_DIFFICULTY,
                    },
                    mined_by: NodeId(0),
                    transactions: BlocksTransactions(chosen),
                    nonce,
                },
            )
        },
        Err(_) => {
            proof {
                let txs = empty.deep_view();
                assert(crate::mining::batch(txs, 0) =~= Seq::<ProvenTransactionView>::empty());
                assert forall|n: u32| n < u32::MAX implies !crate::mining::pow_ok(
                    Seq::<ProvenTransactionView>::empty(),
                    n,
                    crate::GENESIS_DIFFICULTY,
                ) by {
                    assert(!crate::mining::pow_ok(
                        crate::mining::batch(txs, 0),
                        n,
                        crate::GENESIS_DIFFICULTY,
                    ));
                }
            }
            Err(NodeError::Internal)
        },
    }
}

/// Builds the block that extends `prev` from a successful mining result.
pub fn create_mined_block(
    prev: &Block,
    hash: BlockHash,
    nonce: Nonce,
    transactions: Vec<ProvenTransaction>,
    mined_by: NodeId,
    timestamp: usize,
) -> (r: Block)
    requires
        prev.header.index.0 < usize::MAX,
    ensures
        r@.index == prev@.index + 1,
        r@.prev_hash == prev@.hash,
        r@.hash == hash@,
        r@.timestamp == timestamp,
        r@.difficulty == prev@.difficulty,
        r@.mined_by == mined_by,
        r@.transactions == transactions.deep_view(),
        r@.nonce == nonce.0,
{
    Block {
        header: BlockHeader {
            index: BlockIndex(prev.header.index.0 + 1),
            prev_hash: prev.header.hash.clone(),
            hash,
            timestamp,
            difficulty: prev.header.difficulty,
        },
        mined_by,
        transactions: BlocksTransactions(transactions),
        nonce,
    }
}

/// The spec-level image of a chain: its blocks' views in order.
pub open spec fn chain_view(b: &Blockchain) -> Seq<BlockView> {
    b.0.deep_view()
}

/// Checks the genesis block: present, empty, zero-linked, at the genesis
/// difficulty, with a proof-of-work that clears it.
fn has_valid_genesis_block(blockchain: &Blockchain) -> (r: Result<(), NodeError>)
    ensures
        r is Ok <==> chain_view(blockchain).len() >= 1 && genesis_ok(chain_view(blockchain)[0]),
        r is Err ==> r == Err::<(), NodeError>(NodeError::BadChain),
{
    if blockchain.0.len() == 0 {
        return Err(NodeError::BadChain);
    }
    let genesis = &blockchain.0[0];
    if genesis.transactions.0.len() != 0 {
        assert(chain_view(blockchain)[0].transactions.len() != 0);
        return Err(NodeError::BadChain);
    }
    if !(genesis.header.prev_hash == BlockHash::default()) {
        return Err(NodeError::BadChain);
    }
    if genesis.header.difficulty != crate::GENESIS_DIFFICULTY {
        return Err(NodeError::BadChain);
    }
    match crate::mining::prove_mined_block(
        &genesis.transactions.0,
        genesis.header.difficulty,
        genesis.nonce,
    ) {
        Ok(()) => Ok(()),
        Err(_) => Err(NodeError::BadChain),
    }
}

/// Validates a foreign chain before it is adopted: its genesis, the hash
/// links, and every block's proof-of-work.  Hands the chain back untouched
/// when it passes.
pub fn verify_blockchain(blockchain: Blockchain) -> (r: Result<Blockchain, NodeError>)
    ensures
        r matches Ok(c) ==> c == blockchain && chain_ok(chain_view(&blockchain)),
        r is Err <==> !chain_ok(chain_view(&blockchain)),
        r is Err ==> r == Err::<Blockchain, NodeError>(NodeError::BadChain),
{
    match has_valid_genesis_block(&blockchain) {
        Ok(()) => {
        },
        Err(e) => {
            return Err(e);
        },
    }
    let n = blockchain.0.len();
    let mut i: usize = 1;
    while i < n
        invariant
            n == chain_view(&blockchain).len(),
            1 <= i <= n,
            genesis_ok(chain_view(&blockchain)[0]),
            forall|j: int|
                1 <= j < i ==> #[trigger] chain_view(&blockchain)[j].prev_hash == chain_view(
                    &blockchain,
                )[j - 1].hash,
            forall|j: int|
                0 <= j < i ==> #[trigger] crate::mining::pow_ok(
                    chain_view(&blockchain)[j].transactions,
                    chain_view(&blockchain)[j].nonce,
                    chain_view(&blockchain)[j].difficulty,
                ),
        decreases n - i,
    {
        let block = &blockchain.0[i];
        if !(block.header.prev_hash == blockchain.0[i - 1].header.hash) {
            proof {
                assert(chain_view(&blockchain)[i as int].prev_hash != chain_view(&blockchain)[i
                    - 1].hash);
                assert(!chain_linked(chain_view(&blockchain)));
            }
            return Err(NodeError::BadChain);
        }
        match crate::mining::prove_mined_block(
            &block.transactions.0,
            block.header.difficulty,
            block.nonce,
        ) {
            Ok(()) => {
            },
            Err(_) => {
                proof {
                    assert(!crate::mining::pow_ok(
                        chain_view(&blockchain)[i as int].transactions,
                        chain_view(&blockchain)[i as int].nonce,
                        chain_view(&blockchain)[i as int].difficulty,
                    ));
                    assert(!chain_pow_ok(chain_view(&blockchain)));
                }
                return Err(NodeError::BadChain);
            },
        }
        i += 1;
    }
    Ok(blockchain)
}

} // verus!
