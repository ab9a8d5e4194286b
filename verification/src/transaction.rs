//! Transactions, their canonical bytes, and the mining reward.
use vstd::prelude::*;

use crate::blockchain::{BlockView, NoCoin};
use crate::errors::NodeError;
use crate::network::{Network, Node, NodeId, NodeView, User};
use crate::rsa_verification::RSAEncodedMsg;
use crate::serialization::{
    ascii_bytes, byte_array_bytes, dec_digits, dec_int, lemma_dec_digits_len_u64,
    lemma_dec_int_len_i64, push_ascii, push_byte_array, push_decimal, push_decimal_i64,
};

verus! {

/// A value transfer.  A `from` of `None` marks a mining reward; otherwise
/// `from` names the sender, whose signature the pool demands.
#[derive(Debug, Clone, Copy, PartialEq, Eq)]
pub struct Transaction {
    pub from: Option<NodeId>,
    pub to: NodeId,
    pub fee: NoCoin,
    pub amount: NoCoin,
}

/// A transaction that has passed the balance check; only constructed by
/// transaction verification.
#[derive(Debug, Clone, Copy)]
pub struct AffordableTransaction(pub Transaction);

/// An affordable transaction together with its proof: the sender's
/// signature over the transaction's canonical bytes, or nothing for a
/// mining reward.
#[derive(Debug)]
pub struct ProvenTransaction {
    pub transaction: AffordableTransaction,
    pub proof: Option<RSAEncodedMsg>,
}

pub ghost struct ProvenTransactionView {
    pub transaction: Transaction,
    pub proof: Option<Seq<u8>>,
}

impl View for ProvenTransaction {
    type V = ProvenTransactionView;

    open spec fn view(&self) -> ProvenTransactionView {
        ProvenTransactionView {
            transaction: self.transaction.0,
            proof: match self.proof {
                None => None,
                Some(m) => Some(m.0@),
            },
        }
    }
}

impl DeepView for ProvenTransaction {
    type V = ProvenTransactionView;

    open spec fn deep_view(&self) -> ProvenTransactionView {
        self@
    }
}

impl Clone for ProvenTransaction {
    fn clone(&self) -> (r: Self)
        ensures
            r@ == self@,
    {
        let proof = match &self.proof {
            None => None,
            Some(m) => Some(m.clone()),
        };
        ProvenTransaction { transaction: self.transaction, proof }
    }
}

impl Transaction {
    /// Builds a transaction from its four fields.
    pub fn new(from: Option<NodeId>, to: NodeId, fee: NoCoin, amount: NoCoin) -> (r: Transaction)
        ensures
            r == (Transaction { from, to, fee, amount }),
    {
        Transaction { from, to, fee, amount }
    }
}

/// Whether a transaction claims to be a mining reward.
pub open spec fn is_reward(t: Transaction) -> bool {
    t.from is None
}

/// The fixed shape every mining reward must have.
pub open spec fn reward_shape_ok(t: Transaction) -> bool {
    t.amount.0 == crate::MINING_REWARD && t.fee.0 == 0
}

/// Builds the reward transaction crediting `miner`, proof-free.
pub fn create_mining_reward(miner: NodeId) -> (r: ProvenTransaction)
    ensures
        r@.transaction == (Transaction {
            from: None,
            to: miner,
            fee: NoCoin(0),
            amount: NoCoin(crate::MINING_REWARD),
        }),
        r@.proof is None,
{
    let transaction = Transaction::new(None, miner, NoCoin(0), NoCoin(crate::MINING_REWARD));
    ProvenTransaction { transaction: AffordableTransaction(transaction), proof: None }
}

/// Compares two transactions field by field.
pub fn tx_equal(a: &Transaction, b: &Transaction) -> (r: bool)
    ensures
        r == (*a == *b),
{
    let from_eq = match (&a.from, &b.from) {
        (None, None) => true,
        (Some(x), Some(y)) => x.0 == y.0,
        _ => false,
    };
    from_eq && a.to.0 == b.to.0 && a.fee.0 == b.fee.0 && a.amount.0 == b.amount.0
}

/// Whether some entry of `txs` carries exactly this transaction.
pub open spec fn tx_in(txs: Seq<ProvenTransactionView>, t: Transaction) -> bool {
    exists|i: int| 0 <= i < txs.len() && (#[trigger] txs[i]).transaction == t
}

/// Whether some entry of `pool` carries this transaction.
pub fn pool_contains_tx(pool: &Vec<ProvenTransaction>, t: &Transaction) -> (r: bool)
    ensures
        r == tx_in(pool.deep_view(), *t),
{
    let n = pool.len();
    let mut i: usize = 0;
    while i < n
        invariant
            n == pool@.len(),
            i <= n,
            forall|j: int| 0 <= j < i ==> (#[trigger] pool.deep_view()[j]).transaction != *t,
        decreases n - i,
    {
        if tx_equal(&pool[i].transaction.0, t) {
            assert(pool.deep_view()[i as int].transaction == *t);
            return true;
        }
        assert(pool.deep_view()[i as int].transaction != *t);
        i += 1;
    }
    false
}

/// The pool once a block's transactions are absorbed: every entry whose
/// transaction the block carries is removed, everything else stays, in
/// order.
pub open spec fn pool_after(
    pool: Seq<ProvenTransactionView>,
    block_txs: Seq<ProvenTransactionView>,
) -> Seq<ProvenTransactionView>
    decreases pool.len(),
{
    if pool.len() == 0 {
        pool
    } else {
        pool_after(pool.drop_last(), block_txs) + (if tx_in(block_txs, pool.last().transaction) {
            Seq::empty()
        } else {
            seq![pool.last()]
        })
    }
}

/// Law: absorbing a block into the pool removes every transaction the
/// block carries and nothing else, keeping the survivors in order.
pub proof fn lemma_pool_after_block(
    pool: Seq<ProvenTransactionView>,
    block_txs: Seq<ProvenTransactionView>,
)
    ensures
        forall|t: Transaction| tx_in(block_txs, t) ==> !tx_in(pool_after(pool, block_txs), t),
        forall|j: int|
            0 <= j < pool.len() && !tx_in(block_txs, (#[trigger] pool[j]).transaction)
                ==> pool_after(pool, block_txs).contains(pool[j]),
    decreases pool.len(),
{
    if pool.len() > 0 {
        let dl = pool.drop_last();
        lemma_pool_after_block(dl, block_txs);
        let after = pool_after(pool, block_txs);
        let after_dl = pool_after(dl, block_txs);
        assert forall|t: Transaction| tx_in(block_txs, t) implies !tx_in(after, t) by {
            assert(!tx_in(after_dl, t));
            if tx_in(after, t) {
                let i = choose|i: int|
                    0 <= i < after.len() && (#[trigger] after[i]).transaction == t;
                if i < after_dl.len() {
                    assert(after_dl[i].transaction == t);
                } else {
                    assert(after[i] == pool.last());
                    assert(tx_in(block_txs, pool.last().transaction));
                }
            }
        }
        assert forall|j: int|
            0 <= j < pool.len() && !tx_in(
                block_txs,
                (#[trigger] pool[j]).transaction,
            ) implies after.contains(pool[j]) by {
            if j < pool.len() - 1 {
                assert(dl[j] == pool[j]);
                assert(after_dl.contains(pool[j]));
                let i = choose|i: int| 0 <= i < after_dl.len() && after_dl[i] == pool[j];
                assert(after[i] == pool[j]);
            } else {
                assert(pool[j] == pool.last());
                assert(after[after.len() - 1] == pool.last());
            }
        }
    }
}

/// How many of a block's transactions the pool does not hold.
pub open spec fn absent_count(
    pool: Seq<ProvenTransactionView>,
    block_txs: Seq<ProvenTransactionView>,
) -> int
    decreases block_txs.len(),
{
    if block_txs.len() == 0 {
        0int
    } else {
        absent_count(pool, block_txs.drop_last()) + (if tx_in(
            pool,
            block_txs.last().transaction,
        ) {
            0int
        } else {
            1int
        })
    }
}

/// The canonical JSON bytes of a transaction, the form that is both signed
/// and hashed: fixed key order, decimal numbers, `null` for a reward's
/// missing sender.
pub open spec fn tx_bytes(t: Transaction) -> Seq<u8> {
    ascii_bytes("{\"from\":"@) + (match t.from {
        None => ascii_bytes("null"@),
        Some(id) => dec_digits(id.0 as nat),
    }) + ascii_bytes(",\"to\":"@) + dec_digits(t.to.0 as nat) + ascii_bytes(",\"fee\":"@) + dec_int(
        t.fee.0 as int,
    ) + ascii_bytes(",\"amount\":"@) + dec_int(t.amount.0 as int) + ascii_bytes("}"@)
}

/// The canonical bytes of a transaction never outgrow one signing block.
pub proof fn lemma_tx_bytes_len(t: Transaction)
    ensures
        tx_bytes(t).len() <= 112,
{
    reveal_strlit("{\"from\":");
    reveal_strlit("null");
    reveal_strlit(",\"to\":");
    reveal_strlit(",\"fee\":");
    reveal_strlit(",\"amount\":");
    reveal_strlit("}");
    match t.from {
        None => {
        },
        Some(id) => {
            lemma_dec_digits_len_u64(id.0);
        },
    }
    lemma_dec_digits_len_u64(t.to.0);
    lemma_dec_int_len_i64(t.fee.0);
    lemma_dec_int_len_i64(t.amount.0);
}

/// Appends the canonical bytes of `t`.
pub fn push_transaction(out: &mut Vec<u8>, t: &Transaction)
    ensures
        final(out)@ == old(out)@ + tx_bytes(*t),
{
    proof {
        reveal_strlit("{\"from\":");
        reveal_strlit("null");
        reveal_strlit(",\"to\":");
        reveal_strlit(",\"fee\":");
        reveal_strlit(",\"amount\":");
        reveal_strlit("}");
    }
    push_ascii(out, "{\"from\":");
    match &t.from {
        None => push_ascii(out, "null"),
        Some(id) => push_decimal(out, id.0),
    }
    push_ascii(out, ",\"to\":");
    push_decimal(out, t.to.0);
    push_ascii(out, ",\"fee\":");
    push_decimal_i64(out, t.fee.0);
    push_ascii(out, ",\"amount\":");
    push_decimal_i64(out, t.amount.0);
    push_ascii(out, "}");
    assert(out@ =~= old(out)@ + tx_bytes(*t));
}

/// The canonical bytes of a transaction, as a fresh buffer; these are the
/// bytes a sender signs.
pub fn serialize_transaction(t: &Transaction) -> (r: Vec<u8>)
    ensures
        r@ == tx_bytes(*t),
{
    let mut out: Vec<u8> = Vec::new();
    push_transaction(&mut out, t);
    out
}

/// The canonical JSON bytes of a proven transaction: the transaction under
/// its key, then the proof as a byte array or `null`.
pub open spec fn proven_tx_bytes(p: ProvenTransactionView) -> Seq<u8> {
    ascii_bytes("{\"transaction\":"@) + tx_bytes(p.transaction) + ascii_bytes(",\"proof\":"@) + (
    match p.proof {
        None => ascii_bytes("null"@),
        Some(s) => byte_array_bytes(s),
    }) + ascii_bytes("}"@)
}

/// Appends the canonical bytes of `p`.
pub fn push_proven_transaction(out: &mut Vec<u8>, p: &ProvenTransaction)
    ensures
        final(out)@ == old(out)@ + proven_tx_bytes(p@),
{
    proof {
        reveal_strlit("{\"transaction\":");
        reveal_strlit(",\"proof\":");
        reveal_strlit("null");
        reveal_strlit("}");
    }
    push_ascii(out, "{\"transaction\":");
    push_transaction(out, &p.transaction.0);
    push_ascii(out, ",\"proof\":");
    match &p.proof {
        None => push_ascii(out, "null"),
        Some(m) => push_byte_array(out, &m.0),
    }
    push_ascii(out, "}");
    assert(out@ =~= old(out)@ + proven_tx_bytes(p@));
}

/// The comma-separated canonical items of a transaction list.
pub open spec fn proven_tx_items(txs: Seq<ProvenTransactionView>) -> Seq<u8>
    decreases txs.len(),
{
    if txs.len() == 0 {
        Seq::empty()
    } else if txs.len() == 1 {
        proven_tx_bytes(txs[0])
    } else {
        proven_tx_items(txs.drop_last()) + ascii_bytes(","@) + proven_tx_bytes(txs.last())
    }
}

/// The canonical bytes of a transaction list: the block payload that is
/// hashed together with a nonce.
pub open spec fn payload_bytes(txs: Seq<ProvenTransactionView>) -> Seq<u8> {
    ascii_bytes("["@) + proven_tx_items(txs) + ascii_bytes("]"@)
}

/// The first known node carrying this id, scanning front to back.
pub open spec fn first_node_with(nodes: Seq<NodeView>, id: NodeId) -> Option<NodeView>
    decreases nodes.len(),
{
    if nodes.len() == 0 {
        None
    } else if nodes[0].id == id {
        Some(nodes[0])
    } else {
        first_node_with(nodes.subrange(1, nodes.len() as int), id)
    }
}

/// Whether a node with this id is known.
pub open spec fn sender_known(nodes: Seq<NodeView>, id: NodeId) -> bool {
    first_node_with(nodes, id) is Some
}

/// The public key a sender's signatures are checked against: the key of the
/// first known node with its id.
pub open spec fn sender_key(nodes: Seq<NodeView>, id: NodeId) -> Seq<char> {
    match first_node_with(nodes, id) {
        Some(n) => n.pub_key,
        None => Seq::empty(),
    }
}

/// Whether a transaction passes verification against the given peers and
/// chain: a reward must have the fixed reward shape; anything else needs a
/// known sender, a balance strictly above amount plus fee, and a signature
/// over the transaction's canonical bytes that verifies under the sender's
/// key.
pub open spec fn tx_ok(
    nodes: Seq<NodeView>,
    chain: Seq<BlockView>,
    t: Transaction,
    sig: Seq<u8>,
) -> bool {
    match t.from {
        None => reward_shape_ok(t),
        Some(s) => {
            &&& sender_known(nodes, s)
            &&& crate::blockchain::wrap64(crate::wallet::wallet_int(s, chain)) > t.amount.0
                + t.fee.0
            &&& crate::rsa_verification::rsa_verify_ok(tx_bytes(t), sig, sender_key(nodes, s))
        },
    }
}

/// Which error a failing transaction draws, in the order the checks run:
/// sender resolution, affordability, signature; a malformed reward for a
/// sender-less transaction off the fixed shape.
pub open spec fn tx_err(
    nodes: Seq<NodeView>,
    chain: Seq<BlockView>,
    t: Transaction,
    sig: Seq<u8>,
) -> NodeError {
    match t.from {
        None => NodeError::MalformedReward,
        Some(s) => {
            if !sender_known(nodes, s) {
                NodeError::UnknownSender
            } else if crate::blockchain::wrap64(crate::wallet::wallet_int(s, chain)) <= t.amount.0
                + t.fee.0 {
                NodeError::InsufficientFunds
            } else {
                NodeError::BadSignature
            }
        },
    }
}

/// The proven form an accepted transaction takes: the signature as its
/// proof, or no proof for a reward.
pub open spec fn tx_proven_view(t: Transaction, sig: Seq<u8>) -> ProvenTransactionView {
    ProvenTransactionView {
        transaction: t,
        proof: if is_reward(t) {
            None
        } else {
            Some(sig)
        },
    }
}

/// An id that resolves to no node occurs nowhere in the list.
pub proof fn lemma_first_node_none(nodes: Seq<NodeView>, id: NodeId)
    ensures
        first_node_with(nodes, id) is None <==> (forall|i: int|
            0 <= i < nodes.len() ==> (#[trigger] nodes[i]).id != id),
    decreases nodes.len(),
{
    if nodes.len() > 0 {
        let rest = nodes.subrange(1, nodes.len() as int);
        lemma_first_node_none(rest, id);
        assert(forall|i: int| 1 <= i < nodes.len() ==> (#[trigger] nodes[i]) == rest[i - 1]);
    }
}

/// Looks a node id up in a peer list, front to back.
pub(crate) fn find_node<'a>(nodes: &'a Vec<Node>, id: &NodeId) -> (r: Result<&'a Node, NodeError>)
    ensures
        r matches Ok(n) ==> first_node_with(nodes.deep_view(), *id) == Some(n@),
        r is Err ==> !sender_known(nodes.deep_view(), *id) && r == Err::<&'a Node, NodeError>(
            NodeError::UnknownSender,
        ),
{
    let ghost all = nodes.deep_view();
    let n = nodes.len();
    proof {
        assert(all.subrange(0, n as int) =~= all);
    }
    let mut i: usize = 0;
    while i < n
        invariant
            n == all.len(),
            all == nodes.deep_view(),
            i <= n,
            first_node_with(all, *id) == first_node_with(all.subrange(i as int, n as int), *id),
        decreases n - i,
    {
        let ghost rest = all.subrange(i as int, n as int);
        if nodes[i].id == *id {
            proof {
                assert(rest[0] == all[i as int]);
            }
            return Ok(&nodes[i]);
        }
        proof {
            assert(rest[0] == all[i as int]);
            assert(rest.subrange(1, rest.len() as int) =~= all.subrange(i + 1, n as int));
        }
        i += 1;
    }
    proof {
        assert(all.subrange(n as int, n as int) =~= Seq::<NodeView>::empty());
    }
    Err(NodeError::UnknownSender)
}

/// Resolves a transaction's sender among the network's peers.
pub(crate) fn find_sender<'a>(network: &'a Network, id: &NodeId) -> (r: Result<
    &'a Node,
    NodeError,
>)
    ensures
        r matches Ok(n) ==> first_node_with(network.spec_nodes(), *id) == Some(n@),
        r is Err ==> !sender_known(network.spec_nodes(), *id) && r == Err::<&'a Node, NodeError>(
            NodeError::UnknownSender,
        ),
{
    proof {
        crate::network::lemma_network_fields(network);
    }
    find_node(&network.nodes, id)
}

/// Passes a transaction's balance check: the sender must be known and its
/// balance must exceed amount plus fee strictly; an exact balance is
/// rejected.  A sender-less transaction is waved through here and held to
/// the reward shape afterwards.
pub(crate) fn map_to_affordable(network: &Network, transaction: Transaction) -> (r: Result<
    AffordableTransaction,
    NodeError,
>)
    ensures
        transaction.from is None ==> (r matches Ok(a) && a.0 == transaction),
        transaction.from matches Some(s) ==> {
            &&& !sender_known(network.spec_nodes(), s) ==> r == Err::<
                AffordableTransaction,
                NodeError,
            >(NodeError::UnknownSender)
            &&& sender_known(network.spec_nodes(), s) && crate::blockchain::wrap64(
                crate::wallet::wallet_int(s, network.spec_chain()),
            ) <= transaction.amount.0 + transaction.fee.0 ==> r == Err::<
                AffordableTransaction,
                NodeError,
            >(NodeError::InsufficientFunds)
            &&& sender_known(network.spec_nodes(), s) && crate::blockchain::wrap64(
                crate::wallet::wallet_int(s, network.spec_chain()),
            ) > transaction.amount.0 + transaction.fee.0 ==> (r matches Ok(a) && a.0
                == transaction)
        },
{
    match &transaction.from {
        None => Ok(AffordableTransaction(transaction)),
        Some(s) => {
            proof {
                use_type_invariant(network);
                crate::network::lemma_network_fields(network);
                broadcast use vstd::std_specs::hash::group_hash_axioms;

            }
            match find_sender(network, s) {
                Ok(_) => {
                },
                Err(e) => {
                    return Err(e);
                },
            }
            let cash: NoCoin = match network.cache.wallet.get(&s.0) {
                Some(c) => *c,
                None => crate::wallet::calculate_wallet(s, &network.blockchain),
            };
            assert(cash.0 == crate::blockchain::wrap64(
                crate::wallet::wallet_int(*s, network.spec_chain()),
            ));
            let total: i128 = transaction.amount.0 as i128 + transaction.fee.0 as i128;
            if cash.0 as i128 <= total {
                Err(NodeError::InsufficientFunds)
            } else {
                Ok(AffordableTransaction(transaction))
            }
        },
    }
}

/// Checks a signature over an affordable transaction's canonical bytes
/// under the resolved sender's key.
fn prove_transaction(network: &Network, transaction: AffordableTransaction, signature: Vec<u8>)
    -> (r: Result<ProvenTransaction, NodeError>)
    requires
        transaction.0.from matches Some(s) && sender_known(network.spec_nodes(), s),
    ensures
        ({
            let s = transaction.0.from->0;
            let ok = crate::rsa_verification::rsa_verify_ok(
                tx_bytes(transaction.0),
                signature@,
                sender_key(network.spec_nodes(), s),
            );
            &&& ok ==> (r matches Ok(pt) && pt@.transaction == transaction.0 && pt@.proof == Some(
                signature@,
            ))
            &&& !ok ==> r == Err::<ProvenTransaction, NodeError>(NodeError::BadSignature)
        }),
{
    let sender = match &transaction.0.from {
        Some(s) => {
            match find_sender(network, s) {
                Ok(n) => n,
                Err(_) => {
                    proof {
                        assert(false);
                    }
                    return Err(NodeError::UnknownSender);
                },
            }
        },
        None => {
            proof {
                assert(false);
            }
            return Err(NodeError::Internal);
        },
    };
    let serialized = serialize_transaction(&transaction.0);
    match crate::rsa_verification::verify_message(
        serialized.as_slice(),
        signature,
        &sender.pub_key,
    ) {
        Ok(msg) => Ok(ProvenTransaction { transaction, proof: Some(msg) }),
        Err(e) => Err(e),
    }
}

/// Verifies a foreign transaction: affordability, then the signature; a
/// sender-less transaction is accepted exactly when it is a well-shaped
/// mining reward, and needs no proof.
pub fn verify_transaction(network: &Network, transaction: Transaction, signature: Vec<u8>) -> (r:
    Result<ProvenTransaction, NodeError>)
    ensures
        r is Ok <==> tx_ok(network.spec_nodes(), network.spec_chain(), transaction, signature@),
        r matches Ok(pt) ==> pt@ == tx_proven_view(transaction, signature@),
        r matches Err(e) ==> e == tx_err(
            network.spec_nodes(),
            network.spec_chain(),
            transaction,
            signature@,
        ),
{
    let affordable = match map_to_affordable(network, transaction) {
        Ok(a) => a,
        Err(e) => {
            return Err(e);
        },
    };
    match &affordable.0.from {
        None => {
            if affordable.0.amount.0 == crate::MINING_REWARD && affordable.0.fee.0 == 0 {
                Ok(ProvenTransaction { transaction: affordable, proof: None })
            } else {
                Err(NodeError::MalformedReward)
            }
        },
        Some(_) => prove_transaction(network, affordable, signature),
    }
}

/// Signs an affordable transaction with the local user's key.  Canonical
/// transaction bytes always fit the signing primitive's limit, so this
/// succeeds exactly when the primitive signs under that key at all.
fn approve(transaction: AffordableTransaction, user: &User) -> (r: Result<
    ProvenTransaction,
    NodeError,
>)
    ensures
        r is Ok <==> crate::rsa_verification::rsa_sign_of(
            tx_bytes(transaction.0),
            user@.priv_key,
        ) is Some,
        r matches Ok(pt) ==> pt@.transaction == transaction.0 && pt@.proof
            == crate::rsa_verification::rsa_sign_of(tx_bytes(transaction.0), user@.priv_key),
        r is Err ==> r == Err::<ProvenTransaction, NodeError>(NodeError::Internal),
{
    let serialized = serialize_transaction(&transaction.0);
    proof {
        lemma_tx_bytes_len(transaction.0);
    }
    match crate::rsa_verification::encode_message(serialized.as_slice(), &user.priv_key) {
        Ok(msg) => Ok(ProvenTransaction { transaction, proof: Some(msg) }),
        Err(_) => Err(NodeError::Internal),
    }
}

/// Builds, balance-checks and signs a transfer from the local user to
/// `recipient`.  The canonical bytes of any transaction fit the signing
/// primitive's limit, so on a known, affordable sender this succeeds
/// exactly when the primitive signs under the user's key.
pub fn create_transaction(
    network: &Network,
    recipient: &NodeId,
    amount: NoCoin,
    fee: NoCoin,
) -> (r: Result<ProvenTransaction, NodeError>)
    ensures
        ({
            let t = Transaction {
                from: Some(network.spec_user().node.id),
                to: *recipient,
                fee,
                amount,
            };
            let known = sender_known(network.spec_nodes(), network.spec_user().node.id);
            let affordable = crate::blockchain::wrap64(
                crate::wallet::wallet_int(network.spec_user().node.id, network.spec_chain()),
            ) > amount.0 + fee.0;
            let signed = crate::rsa_verification::rsa_sign_of(
                tx_bytes(t),
                network.spec_user().priv_key,
            );
            &&& !known ==> r == Err::<ProvenTransaction, NodeError>(NodeError::UnknownSender)
            &&& known && !affordable ==> r == Err::<ProvenTransaction, NodeError>(
                NodeError::InsufficientFunds,
            )
            &&& known && affordable && signed is None ==> r == Err::<
                ProvenTransaction,
                NodeError,
            >(NodeError::Internal)
            &&& known && affordable && signed is Some ==> (r matches Ok(pt) && pt@.transaction
                == t && pt@.proof == signed)
        }),
{
    proof {
        crate::network::lemma_network_fields(network);
    }
    let transaction = Transaction::new(
        Some(network.user.node.id),
        *recipient,
        fee,
        amount,
    );
    let affordable = match map_to_affordable(network, transaction) {
        Ok(a) => a,
        Err(e) => {
            return Err(e);
        },
    };
    approve(affordable, &network.user)
}

/// The errors a batch of raw transactions draws, in order; accepted items
/// contribute nothing.
pub open spec fn collect_errors(
    nodes: Seq<NodeView>,
    chain: Seq<BlockView>,
    items: Seq<(Transaction, Vec<u8>)>,
) -> Seq<NodeError>
    decreases items.len(),
{
    if items.len() == 0 {
        Seq::empty()
    } else {
        collect_errors(nodes, chain, items.drop_last()) + (if tx_ok(
            nodes,
            chain,
            items.last().0,
            items.last().1@,
        ) {
            Seq::empty()
        } else {
            seq![tx_err(nodes, chain, items.last().0, items.last().1@)]
        })
    }
}

/// A batch draws no errors exactly when every item passes verification.
pub proof fn lemma_collect_errors_empty(
    nodes: Seq<NodeView>,
    chain: Seq<BlockView>,
    items: Seq<(Transaction, Vec<u8>)>,
)
    ensures
        collect_errors(nodes, chain, items).len() == 0 <==> (forall|i: int|
            0 <= i < items.len() ==> tx_ok(
                nodes,
                chain,
                (#[trigger] items[i]).0,
                items[i].1@,
            )),
    decreases items.len(),
{
    if items.len() > 0 {
        lemma_collect_errors_empty(nodes, chain, items.drop_last());
        assert(forall|i: int|
            0 <= i < items.len() - 1 ==> (#[trigger] items[i]) == items.drop_last()[i]);
        assert(items.last() == items[items.len() - 1]);
    }
}

/// The proven form of a whole accepted batch, in order.
pub open spec fn proven_views(items: Seq<(Transaction, Vec<u8>)>) -> Seq<ProvenTransactionView> {
    Seq::new(items.len(), |i: int| tx_proven_view(items[i].0, items[i].1@))
}

/// The canonical bytes of a block's transactions, as a fresh buffer.
pub fn serialize_transactions(txs: &Vec<ProvenTransaction>) -> (r: Vec<u8>)
    ensures
        r@ == payload_bytes(txs.deep_view()),
{
    proof {
        reveal_strlit("[");
        reveal_strlit("]");
        reveal_strlit(",");
    }
    let mut out: Vec<u8> = Vec::new();
    push_ascii(&mut out, "[");
    let ghost opened = out@;
    let n = txs.len();
    let mut i: usize = 0;
    while i < n
        invariant
            n == txs@.len(),
            i <= n,
            out@ == opened + proven_tx_items(txs.deep_view().take(i as int)),
            opened == ascii_bytes("["@),
        decreases n - i,
    {
        proof {
            reveal_strlit(",");
        }
        if i > 0 {
            push_ascii(&mut out, ",");
        }
        push_proven_transaction(&mut out, &txs[i]);
        proof {
            crate::serialization::lemma_take_succ(txs.deep_view(), i as int);
            let tv = txs.deep_view().take(i + 1);
            if i == 0 {
                assert(tv.len() == 1);
                assert(tv[0] == txs.deep_view()[0]);
                assert(out@ =~= opened + proven_tx_items(tv));
            } else {
                assert(tv.len() >= 2);
                assert(out@ =~= opened + proven_tx_items(tv));
            }
        }
        i += 1;
    }
    proof {
        assert(txs.deep_view().take(n as int) =~= txs.deep_view());
    }
    push_ascii(&mut out, "]");
    assert(out@ =~= payload_bytes(txs.deep_view()));
    out
}

} // verus!
