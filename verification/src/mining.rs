//! Hashing and proof-of-work: the nonce search and its verification.
use vstd::prelude::*;

use crate::blockchain::Nonce;
use crate::errors::NodeError;
use crate::transaction::{payload_bytes, serialize_transactions, ProvenTransaction,
    ProvenTransactionView};

verus! {

/// Length in characters of a block hash: SHA-256 as lowercase hex.
pub const HASH_LEN: usize = 64;

/// A block's hash, as 64 lowercase hex characters.
#[derive(Debug)]
pub struct BlockHash(pub String);

impl View for BlockHash {
    type V = Seq<char>;

    open spec fn view(&self) -> Seq<char> {
        self.0@
    }
}

impl Clone for BlockHash {
    fn clone(&self) -> (r: Self)
        ensures
            r@ == self@,
    {
        BlockHash(self.0.clone())
    }
}

impl PartialEq for BlockHash {
    fn eq(&self, other: &Self) -> (r: bool) {
        self.0 == other.0
    }
}

impl vstd::std_specs::cmp::PartialEqSpecImpl for BlockHash {
    open spec fn obeys_eq_spec() -> bool {
        true
    }

    open spec fn eq_spec(&self, other: &Self) -> bool {
        self.0@ == other.0@
    }
}

/// The all-zero hash that the genesis block claims as its predecessor.
pub open spec fn zero_hash() -> Seq<char> {
    Seq::new(HASH_LEN as nat, |i: int| '0')
}

impl Default for BlockHash {
    /// The all-zero hash.
    fn default() -> (r: Self)
        ensures
            r@ == zero_hash(),
    {
        let s = "0000000000000000000000000000000000000000000000000000000000000000";
        proof {
            reveal_strlit("0000000000000000000000000000000000000000000000000000000000000000");
            assert(s@ =~= zero_hash());
        }
        BlockHash(s.to_owned())
    }
}

impl BlockHash {
    /// Accepts exactly the ASCII strings of the hash length; anything else
    /// is not hash-shaped.
    pub fn try_new(bytes: String) -> (r: Result<Self, NodeError>)
        ensures
            bytes@.len() == HASH_LEN && vstd::utf8::is_ascii_chars(bytes@) ==> (r matches Ok(h)
                && h@ == bytes@),
            !(bytes@.len() == HASH_LEN && vstd::utf8::is_ascii_chars(bytes@)) ==> r == Err::<
                BlockHash,
                NodeError,
            >(NodeError::MalformedInput),
    {
        let hash_shaped = bytes.as_str().is_ascii() && bytes.as_str().unicode_len() == HASH_LEN;
        if hash_shaped {
            Ok(Self(bytes))
        } else {
            Err(NodeError::MalformedInput)
        }
    }
}

/// The lowercase hex form of the SHA-256 digest of `data`: a function of
/// the bytes alone.
pub uninterp spec fn sha256_hex_of(data: Seq<u8>) -> Seq<char>;

/// Relies on `sha2::Sha256`, whose digest is 32 bytes, formatted as 64
/// lowercase hex characters; the digest is a function of the input bytes
/// alone.
#[verifier::external_body]
fn sha256_hex(data: &[u8]) -> (r: String)
    ensures
        r@ == sha256_hex_of(data@),
        r@.len() == HASH_LEN,
        r.is_ascii(),
{
    let mut hasher = <sha2::Sha256 as sha2::digest::Digest>::new();
    sha2::digest::Digest::update(&mut hasher, data);
    format!("{:x}", sha2::digest::Digest::finalize(hasher))
}

/// Whether a hash clears the given difficulty: its first `difficulty`
/// characters are all `'0'`.
pub open spec fn matches_difficulty(h: Seq<char>, difficulty: u8) -> bool {
    difficulty as int <= h.len() && (forall|i: int| 0 <= i < difficulty as int ==> h[i] == '0')
}

/// Checks the leading characters of `hash` against the difficulty.
pub fn hash_matches(hash: &str, difficulty: u8) -> (r: bool)
    requires
        difficulty as int <= hash@.len(),
    ensures
        r == matches_difficulty(hash@, difficulty),
{
    let d = difficulty as usize;
    let mut i: usize = 0;
    while i < d
        invariant
            d == difficulty as int,
            d <= hash@.len(),
            i <= d,
            forall|j: int| 0 <= j < i ==> hash@[j] == '0',
        decreases d - i,
    {
        if hash.get_char(i) != '0' {
            return false;
        }
        i += 1;
    }
    true
}

/// The hash a block advertises: the digest of its transactions' canonical
/// bytes followed by the nonce's little-endian bytes.
pub open spec fn block_hash_of(txs: Seq<ProvenTransactionView>, nonce: u32) -> Seq<char> {
    sha256_hex_of(payload_bytes(txs) + vstd::bytes::spec_u32_to_le_bytes(nonce))
}

/// Proof-of-work: the block's hash clears its difficulty.
pub open spec fn pow_ok(txs: Seq<ProvenTransactionView>, nonce: u32, difficulty: u8) -> bool {
    matches_difficulty(block_hash_of(txs, nonce), difficulty)
}

/// Hashes an already-serialized payload under one nonce.
fn hash_block(block_data: &Vec<u8>, nonce: u32) -> (r: String)
    ensures
        r@ == sha256_hex_of(block_data@ + vstd::bytes::spec_u32_to_le_bytes(nonce)),
        r@.len() == HASH_LEN,
{
    let mut data = block_data.clone();
    assert(data@ =~= block_data@);
    let mut nonce_bytes = vstd::bytes::u32_to_le_bytes(nonce);
    data.append(&mut nonce_bytes);
    sha256_hex(data.as_slice())
}

/// Checks a block's proof-of-work: hashes its transactions with its nonce
/// and holds the result against its difficulty.
pub fn prove_mined_block(transactions: &Vec<ProvenTransaction>, difficulty: u8, nonce: Nonce) -> (r:
    Result<(), NodeError>)
    ensures
        r is Ok <==> pow_ok(transactions.deep_view(), nonce.0, difficulty),
        r is Err ==> r == Err::<(), NodeError>(NodeError::BadBlock),
{
    let block_data = serialize_transactions(transactions);
    let hash = hash_block(&block_data, nonce.0);
    if difficulty as usize <= HASH_LEN && hash_matches(hash.as_str(), difficulty) {
        Ok(())
    } else {
        Err(NodeError::BadBlock)
    }
}

/// Searches the nonce space for a hash that clears the difficulty over one
/// fixed batch of transactions.  Reports the first nonce found, or that no
/// nonce below `u32::MAX` works.
fn mine(transactions: &Vec<ProvenTransaction>, difficulty: u8) -> (r: Result<
    (BlockHash, Nonce),
    NodeError,
>)
    ensures
        r matches Ok((h, n)) ==> h@ == block_hash_of(transactions.deep_view(), n.0) && pow_ok(
            transactions.deep_view(),
            n.0,
            difficulty,
        ),
        r is Err ==> forall|n: u32|
            n < u32::MAX ==> !pow_ok(transactions.deep_view(), n, difficulty),
{
    let block_data = serialize_transactions(transactions);
    let mut nonce: u32 = 0;
    while nonce < u32::MAX
        invariant
            block_data@ == payload_bytes(transactions.deep_view()),
            forall|m: u32| m < nonce ==> !pow_ok(transactions.deep_view(), m, difficulty),
        decreases u32::MAX - nonce,
    {
        let hash = hash_block(&block_data, nonce);
        if difficulty as usize <= HASH_LEN && hash_matches(hash.as_str(), difficulty) {
            return Ok((BlockHash(hash), Nonce(nonce)));
        }
        nonce += 1;
    }
    Err(NodeError::Internal)
}

/// The number of batches the pending pool is split into: contiguous runs of
/// at most [`crate::MAX_TRANSACTION_COUNT`], and a single empty batch when
/// the pool is empty, so a reward-only block can still be mined.
pub open spec fn batch_count(len: nat) -> int {
    if len == 0 {
        1
    } else {
        (len + crate::MAX_TRANSACTION_COUNT - 1) / (crate::MAX_TRANSACTION_COUNT as int)
    }
}

/// The `k`-th batch of the pool.
pub open spec fn batch(txs: Seq<ProvenTransactionView>, k: int) -> Seq<ProvenTransactionView> {
    txs.subrange(
        k * crate::MAX_TRANSACTION_COUNT,
        vstd::math::min((k + 1) * crate::MAX_TRANSACTION_COUNT, txs.len() as int),
    )
}

/// Mines over the pending pool, batch by batch: splits it into contiguous
/// batches of at most [`crate::MAX_TRANSACTION_COUNT`] transactions (one
/// empty batch when it is empty), searches each batch's nonce space in
/// turn, and returns the first batch that yields a hash clearing the
/// difficulty, together with that hash and nonce.
pub fn try_mine_any(difficulty: u8, transactions: &Vec<ProvenTransaction>) -> (r: Result<
    (BlockHash, Nonce, Vec<ProvenTransaction>),
    NodeError,
>)
    ensures
        r matches Ok((h, n, chosen)) ==> exists|k: int|
            0 <= k < batch_count(transactions.deep_view().len())
                && chosen.deep_view() =~= batch(transactions.deep_view(), k) && h@ == block_hash_of(
                chosen.deep_view(),
                n.0,
            ) && pow_ok(chosen.deep_view(), n.0, difficulty),
        r is Err ==> forall|k: int, n: u32|
            0 <= k < batch_count(transactions.deep_view().len()) && n < u32::MAX ==> !pow_ok(
                batch(transactions.deep_view(), k),
                n,
                difficulty,
            ),
        r is Err ==> r == Err::<(BlockHash, Nonce, Vec<ProvenTransaction>), NodeError>(
            NodeError::Internal,
        ),
{
    let len = transactions.len();
    if len == 0 {
        let empty: Vec<ProvenTransaction> = Vec::new();
        assert(empty.deep_view() =~= batch(transactions.deep_view(), 0));
        match mine(&empty, difficulty) {
            Ok((h, n)) => {
                return Ok((h, n, empty));
            },
            Err(_) => {
                return Err(NodeError::Internal);
            },
        }
    }
    let mut start: usize = 0;
    let ghost mut k: int = 0;
    while start < len
        invariant
            len == transactions@.len(),
            0 < len,
            0 <= k,
            start <= len,
            start == k * crate::MAX_TRANSACTION_COUNT || (start == len && k
                * crate::MAX_TRANSACTION_COUNT >= len),
            forall|kk: int, n: u32|
                0 <= kk < k && n < u32::MAX ==> !pow_ok(
                    batch(transactions.deep_view(), kk),
                    n,
                    difficulty,
                ),
        decreases len - start,
    {
        assert(start == k * crate::MAX_TRANSACTION_COUNT);
        let stop: usize = if len - start < crate::MAX_TRANSACTION_COUNT {
            len
        } else {
            start + crate::MAX_TRANSACTION_COUNT
        };
        let mut chunk: Vec<ProvenTransaction> = Vec::new();
        let mut i: usize = start;
        while i < stop
            invariant
                start <= i <= stop <= len,
                len == transactions@.len(),
                chunk@.len() == i - start,
                forall|j: int|
                    0 <= j < i - start ==> #[trigger] chunk@[j]@ == transactions@[start + j]@,
            decreases stop - i,
        {
            chunk.push(transactions[i].clone());
            i += 1;
        }
        proof {
            assert forall|j: int| 0 <= j < stop - start implies chunk.deep_view()[j] == batch(
                transactions.deep_view(),
                k,
            )[j] by {
                assert(chunk@[j]@ == transactions@[start + j]@);
            }
            assert(chunk.deep_view() =~= batch(transactions.deep_view(), k));
        }
        match mine(&chunk, difficulty) {
            Ok((h, n)) => {
                return Ok((h, n, chunk));
            },
            Err(_) => {
            },
        }
        start = stop;
        proof {
            k = k + 1;
        }
    }
    proof {
        assert(k * crate::MAX_TRANSACTION_COUNT >= len);
        assert(k >= batch_count(transactions.deep_view().len())) by (nonlinear_arith)
            requires
                k * 10 >= len,
                len == transactions.deep_view().len(),
                0 < len,
                batch_count(transactions.deep_view().len()) == (len + 9) / 10,
                crate::MAX_TRANSACTION_COUNT == 10,
        ;
    }
    Err(NodeError::Internal)
}

} // verus!
