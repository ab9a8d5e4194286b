//! Peer records and the node's aggregate in-memory state.
use vstd::prelude::*;

use std::collections::HashMap;

use crate::blockchain::{
    chain_linked, chain_ok, chain_pow_ok, chain_view, genesis_ok, wrap64, Block, Blockchain,
    BlockView, NoCoin,
};
use crate::errors::NodeError;
use crate::rsa_verification::{PrivKey, PubKey};
use crate::transaction::{ProvenTransaction, ProvenTransactionView, Transaction};
use crate::wallet::wallet_int;

verus! {

/// A peer's identity; by convention a node's id equals its listening port.
#[derive(Debug, Clone, Copy, PartialEq, Eq, Structural)]
pub struct NodeId(pub u64);

/// A peer's socket address, as host text and port.
#[derive(Debug)]
pub struct NetAddr {
    pub host: String,
    pub port: u16,
}

pub ghost struct NetAddrView {
    pub host: Seq<char>,
    pub port: u16,
}

impl View for NetAddr {
    type V = NetAddrView;

    open spec fn view(&self) -> NetAddrView {
        NetAddrView { host: self.host@, port: self.port }
    }
}

impl Clone for NetAddr {
    fn clone(&self) -> (r: Self)
        ensures
            r@ == self@,
    {
        NetAddr { host: self.host.clone(), port: self.port }
    }
}

/// A peer record: its id, address, and the key its signatures verify with.
#[derive(Debug)]
pub struct Node {
    pub id: NodeId,
    pub addr: NetAddr,
    pub pub_key: PubKey,
}

pub ghost struct NodeView {
    pub id: NodeId,
    pub addr: NetAddrView,
    pub pub_key: Seq<char>,
}

impl View for Node {
    type V = NodeView;

    open spec fn view(&self) -> NodeView {
        NodeView { id: self.id, addr: self.addr@, pub_key: self.pub_key.0@ }
    }
}

impl DeepView for Node {
    type V = NodeView;

    open spec fn deep_view(&self) -> NodeView {
        self@
    }
}

impl Clone for Node {
    fn clone(&self) -> (r: Self)
        ensures
            r@ == self@,
    {
        Node { id: self.id, addr: self.addr.clone(), pub_key: self.pub_key.clone() }
    }
}

/// The local identity: this node's own record and its private key.
#[derive(Debug)]
pub struct User {
    pub node: Node,
    pub priv_key: PrivKey,
}

pub ghost struct UserView {
    pub node: NodeView,
    pub priv_key: Seq<char>,
}

impl View for User {
    type V = UserView;

    open spec fn view(&self) -> UserView {
        UserView { node: self.node@, priv_key: self.priv_key.0@ }
    }
}

/// Memoized balances; cleared whenever the chain grows, so whatever it
/// holds always agrees with a recomputation over the current chain.
#[derive(Debug)]
pub struct Cache {
    pub wallet: HashMap<u64, NoCoin>,
}

/// No two known peers share an id.
pub open spec fn nodes_unique(nodes: Seq<NodeView>) -> bool {
    forall|i: int, j: int| 0 <= i < j < nodes.len() ==> nodes[i].id != nodes[j].id
}

/// The aggregate state of one node: its identity, the peers it knows, the
/// chain, the pending pool, and the balance cache.
#[derive(Debug)]
pub struct Network {
    pub(crate) user: User,
    pub(crate) nodes: Vec<Node>,
    pub(crate) blockchain: Blockchain,
    pub(crate) transactions_poll: Vec<ProvenTransaction>,
    pub(crate) cache: Cache,
}

impl Network {
    /// The structural facts every reachable network satisfies: a valid,
    /// linked, proof-of-work-clearing chain; distinct peer ids; and a cache
    /// that agrees with the chain.
    ///
    /// Two facts of the data model are deliberately not invariants here.
    /// The user's own record sits in `nodes` for a freshly started network
    /// (its constructor says so), but adoption takes the bootstrap peer's
    /// list as given, which need not mention this node.  And the pool is
    /// only as fresh and as affordable as it was when each entry was
    /// verified: verification never checks chain membership, and accepting
    /// a block moves balances without re-checking the entries it leaves
    /// behind, so neither "no pool entry is already committed" nor "every
    /// pool entry is affordable at the current tip" survives every
    /// operation.  The operations' contracts state the pool exactly
    /// instead.
    #[verifier::type_invariant]
    pub(crate) open spec fn wf(&self) -> bool {
        &&& chain_ok(self.blockchain.0.deep_view())
        &&& nodes_unique(self.nodes.deep_view())
        &&& forall|id: u64| #[trigger]
            self.cache.wallet@.contains_key(id) ==> self.cache.wallet@[id].0 == wrap64(
                wallet_int(NodeId(id), self.blockchain.0.deep_view()),
            )
    }

    /// The local user.
    pub closed spec fn spec_user(&self) -> UserView {
        self.user@
    }

    /// The known peers.
    pub closed spec fn spec_nodes(&self) -> Seq<NodeView> {
        self.nodes.deep_view()
    }

    /// The chain.
    pub closed spec fn spec_chain(&self) -> Seq<BlockView> {
        self.blockchain.0.deep_view()
    }

    /// The pending pool.
    pub closed spec fn spec_pool(&self) -> Seq<ProvenTransactionView> {
        self.transactions_poll.deep_view()
    }

    /// The balance cache.
    pub closed spec fn spec_cache(&self) -> Map<u64, NoCoin> {
        self.cache.wallet@
    }

    /// The local user's record and key.
    pub fn user(&self) -> (r: &User)
        ensures
            r@ == self.spec_user(),
    {
        &self.user
    }

    /// The known peers.
    pub fn nodes(&self) -> (r: &Vec<Node>)
        ensures
            r.deep_view() == self.spec_nodes(),
            nodes_unique(self.spec_nodes()),
    {
        proof {
            use_type_invariant(self);
        }
        &self.nodes
    }

    /// The chain.
    pub fn blockchain(&self) -> (r: &Blockchain)
        ensures
            chain_view(r) == self.spec_chain(),
            chain_ok(self.spec_chain()),
    {
        proof {
            use_type_invariant(self);
        }
        &self.blockchain
    }

    /// The pending pool.
    pub fn transactions_poll(&self) -> (r: &Vec<ProvenTransaction>)
        ensures
            r.deep_view() == self.spec_pool(),
    {
        &self.transactions_poll
    }
}

/// Ties the hidden state images to the aggregate's fields, and surfaces the
/// type invariant, for this crate's other modules.
pub(crate) proof fn lemma_network_fields(network: &Network)
    ensures
        network.spec_user() == network.user@,
        network.spec_nodes() == network.nodes.deep_view(),
        network.spec_chain() == network.blockchain.0.deep_view(),
        network.spec_pool() == network.transactions_poll.deep_view(),
        network.spec_cache() == network.cache.wallet@,
{
}

/// Derives a node id from a listening address: the id is the port.
pub open spec fn id_of_addr(addr: NetAddrView) -> NodeId {
    NodeId(addr.port as u64)
}

/// Registers a new peer reached at `addr`: derives its id from the port,
/// refuses a known id, and otherwise appends and returns the new record.
pub fn try_create_node(network: &mut Network, addr: NetAddr, key: PubKey) -> (r: Result<
    Node,
    NodeError,
>)
    ensures
        old(network).spec_user() == final(network).spec_user(),
        old(network).spec_chain() == final(network).spec_chain(),
        old(network).spec_pool() == final(network).spec_pool(),
        old(network).spec_cache() == final(network).spec_cache(),
        crate::transaction::sender_known(old(network).spec_nodes(), id_of_addr(addr@)) ==> r
            == Err::<Node, NodeError>(NodeError::DuplicateNode) && final(network).spec_nodes()
            == old(network).spec_nodes(),
        !crate::transaction::sender_known(old(network).spec_nodes(), id_of_addr(addr@)) ==> (
        r matches Ok(n) && n@ == (NodeView { id: id_of_addr(addr@), addr: addr@, pub_key: key.0@ })
            && final(network).spec_nodes() == old(network).spec_nodes().push(n@)),
{
    proof {
        use_type_invariant(&*network);
    }
    let id = NodeId(addr.port as u64);
    match crate::transaction::find_node(&network.nodes, &id) {
        Ok(_) => Err(NodeError::DuplicateNode),
        Err(_) => {
            let node = Node { id, addr, pub_key: key };
            let result = node.clone();
            let mut nodes: Vec<Node> = Vec::new();
            std::mem::swap(&mut nodes, &mut network.nodes);
            nodes.push(node);
            proof {
                crate::transaction::lemma_first_node_none(old(network).nodes.deep_view(), id);
                assert(nodes.deep_view() =~= old(network).nodes.deep_view().push(result@));
                assert(nodes_unique(nodes.deep_view()));
            }
            network.nodes = nodes;
            Ok(result)
        },
    }
}

/// Accepts another peer's announcement of a new node: refuses a known id,
/// appends otherwise.
pub fn acknowledge_node(network: &mut Network, node: Node) -> (r: Result<(), NodeError>)
    ensures
        old(network).spec_user() == final(network).spec_user(),
        old(network).spec_chain() == final(network).spec_chain(),
        old(network).spec_pool() == final(network).spec_pool(),
        old(network).spec_cache() == final(network).spec_cache(),
        crate::transaction::sender_known(old(network).spec_nodes(), node.id) ==> r == Err::<
            (),
            NodeError,
        >(NodeError::DuplicateNode) && final(network).spec_nodes() == old(network).spec_nodes(),
        !crate::transaction::sender_known(old(network).spec_nodes(), node.id) ==> r == Ok::<
            (),
            NodeError,
        >(()) && final(network).spec_nodes() == old(network).spec_nodes().push(node@),
{
    proof {
        use_type_invariant(&*network);
    }
    match crate::transaction::find_node(&network.nodes, &node.id) {
        Ok(_) => Err(NodeError::DuplicateNode),
        Err(_) => {
            let ghost nv = node@;
            let ghost the_id = node.id;
            let mut nodes: Vec<Node> = Vec::new();
            std::mem::swap(&mut nodes, &mut network.nodes);
            nodes.push(node);
            proof {
                crate::transaction::lemma_first_node_none(old(network).nodes.deep_view(), the_id);
                assert(nodes.deep_view() =~= old(network).nodes.deep_view().push(nv));
                assert(nodes_unique(nodes.deep_view()));
            }
            network.nodes = nodes;
            Ok(())
        },
    }
}

/// Verifies a transaction against the current state and, when it passes,
/// appends it to the pending pool.
pub fn try_add_transaction(network: &mut Network, transaction: Transaction, signature: Vec<u8>)
    -> (r: Result<(), NodeError>)
    ensures
        old(network).spec_user() == final(network).spec_user(),
        old(network).spec_chain() == final(network).spec_chain(),
        old(network).spec_nodes() == final(network).spec_nodes(),
        old(network).spec_cache() == final(network).spec_cache(),
        crate::transaction::tx_ok(
            old(network).spec_nodes(),
            old(network).spec_chain(),
            transaction,
            signature@,
        ) ==> r == Ok::<(), NodeError>(()) && final(network).spec_pool() == old(
            network,
        ).spec_pool().push(crate::transaction::tx_proven_view(transaction, signature@)),
        !crate::transaction::tx_ok(
            old(network).spec_nodes(),
            old(network).spec_chain(),
            transaction,
            signature@,
        ) ==> r == Err::<(), NodeError>(
            crate::transaction::tx_err(
                old(network).spec_nodes(),
                old(network).spec_chain(),
                transaction,
                signature@,
            ),
        ) && final(network).spec_pool() == old(network).spec_pool(),
{
    proof {
        use_type_invariant(&*network);
    }
    match crate::transaction::verify_transaction(network, transaction, signature) {
        Ok(proven) => {
            let ghost pv = proven@;
            let mut pool: Vec<ProvenTransaction> = Vec::new();
            std::mem::swap(&mut pool, &mut network.transactions_poll);
            pool.push(proven);
            network.transactions_poll = pool;
            proof {
                assert(network.transactions_poll.deep_view() =~= old(
                    network,
                ).transactions_poll.deep_view().push(pv));
            }
            Ok(())
        },
        Err(e) => Err(e),
    }
}

/// Whether a block extends the given chain: its proof-of-work clears its
/// difficulty and it names the tip's hash as its predecessor.
pub open spec fn extends_chain(b: BlockView, chain: Seq<BlockView>) -> bool {
    &&& crate::mining::pow_ok(b.transactions, b.nonce, b.difficulty)
    &&& b.prev_hash == chain.last().hash
}

/// Accepts a freshly mined or received block: its proof-of-work must clear,
/// it must extend the tip, and all but at most one of its transactions (the
/// reward) must sit in the pending pool.  Those pool entries are absorbed,
/// the block is appended, and the balance cache is dropped.
pub fn try_add_block(network: &mut Network, block: Block) -> (r: Result<(), NodeError>)
    ensures
        old(network).spec_user() == final(network).spec_user(),
        old(network).spec_nodes() == final(network).spec_nodes(),
        ({
            let accepted = extends_chain(block@, old(network).spec_chain()) && crate
                ::transaction::absent_count(old(network).spec_pool(), block@.transactions) <= 1;
            if accepted {
                r == Ok::<(), NodeError>(()) && final(network).spec_chain() == old(
                    network,
                ).spec_chain().push(block@) && final(network).spec_pool() == crate
                    ::transaction::pool_after(old(network).spec_pool(), block@.transactions)
                    && final(network).spec_cache() == Map::<u64, NoCoin>::empty() && chain_ok(
                    final(network).spec_chain(),
                )
            } else {
                r == Err::<(), NodeError>(NodeError::BadBlock) && final(network).spec_chain()
                    == old(network).spec_chain() && final(network).spec_pool() == old(
                    network,
                ).spec_pool() && final(network).spec_cache() == old(network).spec_cache()
            }
        }),
{
    proof {
        use_type_invariant(&*network);
    }
    match crate::mining::prove_mined_block(
        &block.transactions.0,
        block.header.difficulty,
        block.nonce,
    ) {
        Ok(()) => {
        },
        Err(_) => {
            return Err(NodeError::BadBlock);
        },
    }
    let chain_len = network.blockchain.0.len();
    let tip = &network.blockchain.0[chain_len - 1];
    if !(block.header.prev_hash == tip.header.hash) {
        return Err(NodeError::BadBlock);
    }
    // Count how many of the block's transactions the pool is missing; more
    // than one means the block carries foreign transactions.
    let btxs = &block.transactions.0;
    let m = btxs.len();
    let mut missing: usize = 0;
    let mut j: usize = 0;
    while j < m
        invariant
            m == block@.transactions.len(),
            btxs == &block.transactions.0,
            j <= m,
            missing <= j,
            missing == crate::transaction::absent_count(
                network.transactions_poll.deep_view(),
                block@.transactions.take(j as int),
            ),
        decreases m - j,
    {
        let present = crate::transaction::pool_contains_tx(
            &network.transactions_poll,
            &btxs[j].transaction.0,
        );
        if !present {
            missing += 1;
        }
        proof {
            crate::serialization::lemma_take_succ(block@.transactions, j as int);
        }
        j += 1;
    }
    proof {
        assert(block@.transactions.take(m as int) =~= block@.transactions);
    }
    if missing > 1 {
        return Err(NodeError::BadBlock);
    }
    // Absorb the block's transactions out of the pool.
    let pool_len = network.transactions_poll.len();
    let mut kept: Vec<ProvenTransaction> = Vec::new();
    let mut i: usize = 0;
    while i < pool_len
        invariant
            pool_len == network.transactions_poll.deep_view().len(),
            i <= pool_len,
            block == &block,
            kept.deep_view() == crate::transaction::pool_after(
                network.transactions_poll.deep_view().take(i as int),
                block@.transactions,
            ),
        decreases pool_len - i,
    {
        let ghost pre = kept.deep_view();
        let in_block = crate::transaction::pool_contains_tx(
            &block.transactions.0,
            &network.transactions_poll[i].transaction.0,
        );
        if !in_block {
            let entry = network.transactions_poll[i].clone();
            kept.push(entry);
        }
        proof {
            crate::serialization::lemma_take_succ(
                network.transactions_poll.deep_view(),
                i as int,
            );
            if !in_block {
                assert(kept.deep_view() =~= pre + seq![
                    network.transactions_poll.deep_view()[i as int],
                ]);
            }
        }
        i += 1;
    }
    proof {
        assert(network.transactions_poll.deep_view().take(pool_len as int)
            =~= network.transactions_poll.deep_view());
    }
    let ghost old_chain = network.blockchain.0.deep_view();
    let ghost bv = block@;
    network.transactions_poll = kept;
    network.cache = Cache { wallet: HashMap::new() };
    proof {
        broadcast use vstd::std_specs::hash::group_hash_axioms;

        assert(network.cache.wallet@ =~= Map::<u64, NoCoin>::empty());
    }
    let cl = network.blockchain.0.len();
    let mut new_chain: Vec<Block> = Vec::new();
    let mut ci: usize = 0;
    while ci < cl
        invariant
            cl == network.blockchain.0@.len(),
            old_chain == network.blockchain.0.deep_view(),
            ci <= cl,
            new_chain@.len() == ci,
            forall|j: int|
                0 <= j < ci ==> #[trigger] new_chain@[j]@ == network.blockchain.0@[j]@,
        decreases cl - ci,
    {
        new_chain.push(network.blockchain.0[ci].clone());
        ci += 1;
    }
    new_chain.push(block);
    proof {
        let nc = new_chain.deep_view();
        assert forall|j: int| 0 <= j < cl implies nc[j] == old_chain[j] by {
            assert(new_chain@[j]@ == network.blockchain.0@[j]@);
        }
        assert(nc =~= old_chain.push(bv));
        assert(chain_linked(nc)) by {
            assert(forall|i: int|
                1 <= i < old_chain.len() ==> #[trigger] nc[i].prev_hash == nc[i - 1].hash);
            assert(nc[old_chain.len() as int].prev_hash == nc[old_chain.len() - 1].hash);
        };
        assert(chain_pow_ok(nc)) by {
            assert(forall|i: int| 0 <= i < old_chain.len() ==> nc[i] == #[trigger] old_chain[i]);
            assert(nc[old_chain.len() as int] == bv);
        };
        assert(genesis_ok(nc[0]));
    }
    network.blockchain = Blockchain(new_chain);
    Ok(())
}

/// Builds a fresh network: a newly mined genesis chain, the local user as
/// the sole known peer, an empty pool, an empty cache.
pub fn try_start_new_network(addr: NetAddr, priv_key: PrivKey, pub_key: PubKey) -> (r: Result<
    Network,
    NodeError,
>)
    ensures
        r matches Ok(n) ==> {
            &&& n.spec_chain().len() == 1
            &&& genesis_ok(n.spec_chain()[0])
            &&& chain_ok(n.spec_chain())
            &&& n.spec_user().node.id == id_of_addr(addr@)
            &&& n.spec_user().node.addr == addr@
            &&& n.spec_user().node.pub_key == pub_key.0@
            &&& n.spec_user().priv_key == priv_key.0@
            &&& n.spec_nodes() =~= seq![n.spec_user().node]
            &&& n.spec_pool() =~= Seq::<ProvenTransactionView>::empty()
            &&& n.spec_cache() =~= Map::<u64, NoCoin>::empty()
        },
        r is Err ==> r == Err::<Network, NodeError>(NodeError::Internal) && (forall|n: u32|
            n < u32::MAX ==> !crate::mining::pow_ok(
                Seq::<ProvenTransactionView>::empty(),
                n,
                crate::GENESIS_DIFFICULTY,
            )),
{
    proof {
        broadcast use vstd::std_specs::hash::group_hash_axioms;
    }
    let genesis = match crate::blockchain::genesis_block() {
        Ok(b) => b,
        Err(_) => {
            return Err(NodeError::Internal);
        },
    };
    let id = NodeId(addr.port as u64);
    let node = Node { id, addr, pub_key };
    let user = User { node, priv_key };
    let mut nodes: Vec<Node> = Vec::new();
    nodes.push(user.node.clone());
    let mut chain_vec: Vec<Block> = Vec::new();
    chain_vec.push(genesis);
    let network = Network {
        user,
        nodes,
        blockchain: Blockchain(chain_vec),
        transactions_poll: Vec::new(),
        cache: Cache { wallet: HashMap::new() },
    };
    proof {
        assert(network.blockchain.0.deep_view().len() == 1);
        assert(chain_ok(network.blockchain.0.deep_view()));
        assert(nodes_unique(network.nodes.deep_view()));
        assert(network.cache.wallet@ =~= Map::<u64, NoCoin>::empty());
        assert(network.nodes.deep_view() =~= seq![network.user@.node]);
        assert(network.transactions_poll.deep_view() =~= Seq::<ProvenTransactionView>::empty());
    }
    Ok(network)
}

/// Adopts a peer's chain and peer set at bootstrap: the chain must pass
/// full validation and the peer records must carry distinct ids; the pool
/// starts empty and is filled separately.
#[verifier::loop_isolation(false)]
pub fn try_adopt_network(
    addr: NetAddr,
    priv_key: PrivKey,
    pub_key: PubKey,
    nodes: Vec<Node>,
    chain: Blockchain,
) -> (r: Result<Network, NodeError>)
    ensures
        !chain_ok(chain_view(&chain)) ==> r == Err::<Network, NodeError>(NodeError::BadChain),
        chain_ok(chain_view(&chain)) && !nodes_unique(nodes.deep_view()) ==> r == Err::<
            Network,
            NodeError,
        >(NodeError::DuplicateNode),
        chain_ok(chain_view(&chain)) && nodes_unique(nodes.deep_view()) ==> (r matches Ok(n) && {
            &&& n.spec_chain() == chain_view(&chain)
            &&& n.spec_nodes() == nodes.deep_view()
            &&& n.spec_user().node.id == id_of_addr(addr@)
            &&& n.spec_user().node.addr == addr@
            &&& n.spec_user().node.pub_key == pub_key.0@
            &&& n.spec_user().priv_key == priv_key.0@
            &&& n.spec_pool() =~= Seq::<ProvenTransactionView>::empty()
            &&& n.spec_cache() =~= Map::<u64, NoCoin>::empty()
        }),
{
    proof {
        broadcast use vstd::std_specs::hash::group_hash_axioms;
    }
    let chain = match crate::blockchain::verify_blockchain(chain) {
        Ok(c) => c,
        Err(_) => {
            return Err(NodeError::BadChain);
        },
    };
    // Refuse peer sets with colliding ids; the invariant demands distinct
    // ids of every reachable state.
    let n = nodes.len();
    let mut i: usize = 0;
    while i < n
        invariant
            n == nodes.deep_view().len(),
            i <= n,
            forall|a: int, b: int| 0 <= a < b < i ==> nodes.deep_view()[a].id != nodes.deep_view()[b].id,
        decreases n - i,
    {
        let mut j: usize = 0;
        while j < i
            invariant
                n == nodes.deep_view().len(),
                j <= i < n,
                forall|a: int, b: int|
                    0 <= a < b < i ==> nodes.deep_view()[a].id != nodes.deep_view()[b].id,
                forall|a: int| 0 <= a < j ==> nodes.deep_view()[a].id != nodes.deep_view()[i as int].id,
            decreases i - j,
        {
            if nodes[j].id == nodes[i].id {
                proof {
                    assert(nodes.deep_view()[j as int].id == nodes.deep_view()[i as int].id);
                    assert(!nodes_unique(nodes.deep_view()));
                }
                return Err(NodeError::DuplicateNode);
            }
            j += 1;
        }
        i += 1;
    }
    let id = NodeId(addr.port as u64);
    let node = Node { id, addr, pub_key };
    let user = User { node, priv_key };
    let network = Network {
        user,
        nodes,
        blockchain: chain,
        transactions_poll: Vec::new(),
        cache: Cache { wallet: HashMap::new() },
    };
    proof {
        assert(network.cache.wallet@ =~= Map::<u64, NoCoin>::empty());
        assert(network.transactions_poll.deep_view() =~= Seq::<ProvenTransactionView>::empty());
    }
    Ok(network)
}

/// Replaces the pending pool with a peer's pending transactions, all of
/// which must verify; a batch with any failing item leaves the pool alone
/// and reports every failure at once.
#[verifier::loop_isolation(false)]
pub fn try_adopt_pending_transactions(
    network: &mut Network,
    transactions: Vec<(Transaction, Vec<u8>)>,
) -> (r: Result<(), NodeError>)
    ensures
        old(network).spec_user() == final(network).spec_user(),
        old(network).spec_chain() == final(network).spec_chain(),
        old(network).spec_nodes() == final(network).spec_nodes(),
        old(network).spec_cache() == final(network).spec_cache(),
        ({
            let all_ok = forall|i: int|
                0 <= i < transactions@.len() ==> crate::transaction::tx_ok(
                    old(network).spec_nodes(),
                    old(network).spec_chain(),
                    (#[trigger] transactions@[i]).0,
                    transactions@[i].1@,
                );
            &&& all_ok ==> r == Ok::<(), NodeError>(()) && final(network).spec_pool() == crate
                ::transaction::proven_views(transactions@)
            &&& !all_ok ==> final(network).spec_pool() == old(network).spec_pool() && (
            r matches Err(e) && e matches NodeError::Multiple(es) && es@ == crate
                ::transaction::collect_errors(
                old(network).spec_nodes(),
                old(network).spec_chain(),
                transactions@,
            ))
        }),
{
    proof {
        use_type_invariant(&*network);
    }
    let n = transactions.len();
    let mut proven: Vec<ProvenTransaction> = Vec::new();
    let mut errors: Vec<NodeError> = Vec::new();
    let mut i: usize = 0;
    while i < n
        invariant
            i <= n,
            errors@ == crate::transaction::collect_errors(
                network.spec_nodes(),
                network.spec_chain(),
                transactions@.take(i as int),
            ),
            errors@.len() == 0 ==> proven@.len() == i && (forall|j: int|
                0 <= j < i ==> (#[trigger] proven@[j])@ == crate::transaction::tx_proven_view(
                    transactions@[j].0,
                    transactions@[j].1@,
                )),
        decreases n - i,
    {
        let ghost pre_errors = errors@;
        let t = transactions[i].0;
        let sig = transactions[i].1.clone();
        proof {
            assert(sig@ =~= transactions@[i as int].1@);
            crate::serialization::lemma_take_succ(transactions@, i as int);
        }
        match crate::transaction::verify_transaction(&*network, t, sig) {
            Ok(pt) => {
                proven.push(pt);
                proof {
                    assert(errors@ =~= crate::transaction::collect_errors(
                        network.spec_nodes(),
                        network.spec_chain(),
                        transactions@.take(i + 1),
                    ));
                }
            },
            Err(e) => {
                errors.push(e);
                proof {
                    assert(errors@ =~= crate::transaction::collect_errors(
                        network.spec_nodes(),
                        network.spec_chain(),
                        transactions@.take(i + 1),
                    ));
                }
            },
        }
        i += 1;
    }
    proof {
        assert(transactions@.take(n as int) =~= transactions@);
        crate::transaction::lemma_collect_errors_empty(
            network.spec_nodes(),
            network.spec_chain(),
            transactions@,
        );
    }
    if errors.len() == 0 {
        network.transactions_poll = proven;
        proof {
            assert(network.transactions_poll.deep_view() =~= crate::transaction::proven_views(
                transactions@,
            ));
        }
        Ok(())
    } else {
        Err(NodeError::Multiple(errors))
    }
}

} // verus!
