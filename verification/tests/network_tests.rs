use nocoin::blockchain::{genesis_block, verify_blockchain, Block, BlockHeader, BlockIndex,
    Blockchain, BlocksTransactions, NoCoin, Nonce, create_mined_block};
use nocoin::errors::NodeError;
use nocoin::mining::{try_mine_any, BlockHash};
use nocoin::network::{acknowledge_node, try_add_block, try_add_transaction,
    try_adopt_network, try_adopt_pending_transactions, try_create_node, try_start_new_network,
    NetAddr, Network, Node, NodeId};
use nocoin::rsa_verification::{generate_key, PrivKey, PubKey};
use nocoin::transaction::{create_mining_reward, create_transaction, verify_transaction,
    AffordableTransaction, Transaction};
use nocoin::wallet::calculate_wallet;

fn addr(port: u16) -> NetAddr {
    NetAddr { host: "127.0.0.1".to_string(), port }
}

fn fresh_network(port: u16) -> Network {
    let (priv_key, pub_key) = generate_key().unwrap();
    try_start_new_network(addr(port), priv_key, pub_key).unwrap()
}

/// A network whose user starts with one mined reward of balance, built by
/// adopting a hand-made chain: genesis plus a difficulty-zero block whose
/// single transaction rewards the user.
fn funded_network(port: u16) -> Network {
    let (priv_key, pub_key) = generate_key().unwrap();
    let genesis = genesis_block().unwrap();
    let funding = Block {
        header: BlockHeader {
            index: BlockIndex(1),
            prev_hash: genesis.header.hash.clone(),
            hash: BlockHash::default(),
            timestamp: 0,
            difficulty: 0,
        },
        mined_by: NodeId(0),
        transactions: BlocksTransactions(vec![create_mining_reward(NodeId(port as u64))]),
        nonce: Nonce(0),
    };
    let nodes = vec![Node { id: NodeId(port as u64), addr: addr(port), pub_key: pub_key.clone() }];
    let chain = Blockchain(vec![genesis, funding]);
    try_adopt_network(addr(port), priv_key, pub_key, nodes, chain).unwrap()
}

#[test]
fn solo_bootstrap() {
    let net = fresh_network(8100);
    assert_eq!(net.blockchain().0.len(), 1);
    assert!(net.transactions_poll().is_empty());
    assert_eq!(net.nodes().len(), 1);
    assert_eq!(net.user().node.id, NodeId(8100));
    assert_eq!(net.nodes()[0].id, NodeId(8100));
    let genesis = &net.blockchain().0[0];
    assert!(genesis.transactions.0.is_empty());
    assert_eq!(genesis.header.prev_hash.0, "0".repeat(64));
    assert_eq!(genesis.header.difficulty, nocoin::GENESIS_DIFFICULTY);
}

#[test]
fn create_node_rejects_duplicate_port() {
    let mut net = fresh_network(8100);
    let (_, other_key) = generate_key().unwrap();
    let err = try_create_node(&mut net, addr(8100), other_key.clone()).unwrap_err();
    assert_eq!(err, NodeError::DuplicateNode);

    let node = try_create_node(&mut net, addr(8101), other_key).unwrap();
    assert_eq!(node.id, NodeId(8101));
    assert_eq!(net.nodes().len(), 2);
}

#[test]
fn acknowledge_rejects_duplicate() {
    let mut net = fresh_network(8100);
    let (_, other_key) = generate_key().unwrap();
    let twin = Node { id: NodeId(8100), addr: addr(9000), pub_key: other_key.clone() };
    assert_eq!(acknowledge_node(&mut net, twin).unwrap_err(), NodeError::DuplicateNode);

    let fresh = Node { id: NodeId(8102), addr: addr(8102), pub_key: other_key };
    acknowledge_node(&mut net, fresh).unwrap();
    assert_eq!(net.nodes().len(), 2);
}

#[test]
fn transaction_without_balance_is_rejected() {
    let net = fresh_network(8100);
    let err = create_transaction(&net, &NodeId(8101), NoCoin(1), NoCoin(0)).unwrap_err();
    assert_eq!(err, NodeError::InsufficientFunds);
}

#[test]
fn exact_balance_is_rejected() {
    let net = funded_network(8100);
    assert_eq!(calculate_wallet(&NodeId(8100), net.blockchain()), NoCoin(10));
    let err = create_transaction(&net, &NodeId(8101), NoCoin(10), NoCoin(0)).unwrap_err();
    assert_eq!(err, NodeError::InsufficientFunds);
}

#[test]
fn unknown_sender_is_rejected() {
    let mut net = fresh_network(8100);
    let raw = Transaction::new(Some(NodeId(9999)), NodeId(8100), NoCoin(0), NoCoin(1));
    let err = try_add_transaction(&mut net, raw, vec![1, 2, 3]).unwrap_err();
    assert_eq!(err, NodeError::UnknownSender);
    assert!(net.transactions_poll().is_empty());
}

#[test]
fn malformed_reward_is_rejected() {
    let mut net = fresh_network(8100);
    let raw = Transaction::new(None, NodeId(8100), NoCoin(0), NoCoin(5));
    let err = try_add_transaction(&mut net, raw, Vec::new()).unwrap_err();
    assert_eq!(err, NodeError::MalformedReward);

    let good = Transaction::new(None, NodeId(8100), NoCoin(0), NoCoin(10));
    try_add_transaction(&mut net, good, Vec::new()).unwrap();
    assert_eq!(net.transactions_poll().len(), 1);
}

#[test]
fn bad_signature_is_rejected() {
    let mut net = funded_network(8100);
    let raw = Transaction::new(Some(NodeId(8100)), NodeId(8101), NoCoin(0), NoCoin(1));
    let err = try_add_transaction(&mut net, raw, vec![0; 128]).unwrap_err();
    assert_eq!(err, NodeError::BadSignature);
}

#[test]
fn signed_transaction_round_trips_into_pool() {
    let mut net = funded_network(8100);
    let proven = create_transaction(&net, &NodeId(8101), NoCoin(3), NoCoin(1)).unwrap();
    let raw = proven.transaction.0;
    let signature = proven.proof.unwrap().0;
    try_add_transaction(&mut net, raw, signature).unwrap();
    assert_eq!(net.transactions_poll().len(), 1);
}

#[test]
fn tampered_signed_bytes_fail_verification() {
    let net = funded_network(8100);
    let proven = create_transaction(&net, &NodeId(8101), NoCoin(3), NoCoin(1)).unwrap();
    let raw = proven.transaction.0;
    let mut signature = proven.proof.unwrap().0;
    signature[0] = signature[0].wrapping_add(1);
    let err = verify_transaction(&net, raw, signature).unwrap_err();
    assert_eq!(err, NodeError::BadSignature);
}

#[test]
fn mined_block_is_accepted_and_credited() {
    let mut net = fresh_network(8100);
    let miner = net.user().node.id;
    let reward = create_mining_reward(miner);
    let batch = vec![reward];
    let (hash, nonce, chosen) = try_mine_any(nocoin::GENESIS_DIFFICULTY, &batch).unwrap();
    let tip = net.blockchain().0.last().unwrap().clone();
    let block = create_mined_block(&tip, hash, nonce, chosen, miner, 0);
    try_add_block(&mut net, block).unwrap();

    assert_eq!(net.blockchain().0.len(), 2);
    assert_eq!(net.blockchain().0[1].transactions.0.len(), 1);
    assert_eq!(calculate_wallet(&miner, net.blockchain()), NoCoin(10));
}

#[test]
fn block_absorbs_pool_transactions() {
    let mut net = funded_network(8100);
    let proven = create_transaction(&net, &NodeId(8101), NoCoin(2), NoCoin(0)).unwrap();
    let raw = proven.transaction.0;
    let signature = proven.proof.clone().unwrap().0;
    try_add_transaction(&mut net, raw, signature).unwrap();
    assert_eq!(net.transactions_poll().len(), 1);

    let miner = net.user().node.id;
    let mut batch = vec![create_mining_reward(miner)];
    batch.push(net.transactions_poll()[0].clone());
    let (hash, nonce, chosen) = try_mine_any(0, &batch).unwrap();
    let tip = net.blockchain().0.last().unwrap().clone();
    let block = create_mined_block(&tip, hash, nonce, chosen, miner, 0);
    try_add_block(&mut net, block).unwrap();

    // The pool transaction was absorbed; only the reward was allowed to be
    // absent from the pool.
    assert!(net.transactions_poll().is_empty());
    assert_eq!(net.blockchain().0.len(), 3);
}

#[test]
fn block_with_foreign_transactions_is_rejected() {
    let mut net = funded_network(8100);
    let miner = net.user().node.id;
    let foreign = vec![
        create_mining_reward(miner),
        create_mining_reward(NodeId(4242)),
    ];
    let (hash, nonce, chosen) = try_mine_any(0, &foreign).unwrap();
    let tip = net.blockchain().0.last().unwrap().clone();
    let block = create_mined_block(&tip, hash, nonce, chosen, miner, 0);
    let err = try_add_block(&mut net, block).unwrap_err();
    assert_eq!(err, NodeError::BadBlock);
    assert_eq!(net.blockchain().0.len(), 2);
}

#[test]
fn tampered_block_is_rejected() {
    let mut net = fresh_network(8100);
    let miner = net.user().node.id;
    let batch = vec![create_mining_reward(miner)];
    let (hash, nonce, chosen) = try_mine_any(nocoin::GENESIS_DIFFICULTY, &batch).unwrap();
    let tip = net.blockchain().0.last().unwrap().clone();
    let block = create_mined_block(&tip, hash, Nonce(nonce.0.wrapping_add(1)), chosen, miner, 0);
    let err = try_add_block(&mut net, block).unwrap_err();
    assert_eq!(err, NodeError::BadBlock);
    assert_eq!(net.blockchain().0.len(), 1);
}

#[test]
fn block_off_the_tip_is_rejected() {
    let mut net = fresh_network(8100);
    let miner = net.user().node.id;
    let batch = vec![create_mining_reward(miner)];
    let (hash, nonce, chosen) = try_mine_any(nocoin::GENESIS_DIFFICULTY, &batch).unwrap();
    let tip = net.blockchain().0.last().unwrap().clone();
    let mut block = create_mined_block(&tip, hash, nonce, chosen, miner, 0);
    block.header.prev_hash = BlockHash::default();
    let err = try_add_block(&mut net, block).unwrap_err();
    assert_eq!(err, NodeError::BadBlock);
}

#[test]
fn adopting_a_valid_chain_succeeds() {
    let net = funded_network(8100);
    assert_eq!(net.blockchain().0.len(), 2);
    assert_eq!(net.nodes().len(), 1);
    assert!(net.transactions_poll().is_empty());
    assert_eq!(net.user().node.id, NodeId(8100));
}

#[test]
fn adopting_a_broken_chain_fails() {
    let (priv_key, pub_key) = generate_key().unwrap();
    let genesis = genesis_block().unwrap();
    let bad = Block {
        header: BlockHeader {
            index: BlockIndex(1),
            // Does not name the genesis hash, so the chain is not linked.
            prev_hash: BlockHash::default(),
            hash: BlockHash::default(),
            timestamp: 0,
            difficulty: 0,
        },
        mined_by: NodeId(0),
        transactions: BlocksTransactions(Vec::new()),
        nonce: Nonce(0),
    };
    let chain = Blockchain(vec![genesis, bad]);
    let err = try_adopt_network(addr(8100), priv_key, pub_key, Vec::new(), chain).unwrap_err();
    assert_eq!(err, NodeError::BadChain);
}

#[test]
fn adopting_duplicate_peers_fails() {
    let (priv_key, pub_key) = generate_key().unwrap();
    let genesis = genesis_block().unwrap();
    let chain = Blockchain(vec![genesis]);
    let nodes = vec![
        Node { id: NodeId(7), addr: addr(7), pub_key: pub_key.clone() },
        Node { id: NodeId(7), addr: addr(8), pub_key: pub_key.clone() },
    ];
    let err = try_adopt_network(addr(8100), priv_key, pub_key, nodes, chain).unwrap_err();
    assert_eq!(err, NodeError::DuplicateNode);
}

#[test]
fn verify_blockchain_rejects_headless_chain() {
    let err = verify_blockchain(Blockchain(Vec::new())).unwrap_err();
    assert_eq!(err, NodeError::BadChain);
}

#[test]
fn adopt_pending_transactions_replaces_pool() {
    let mut net = funded_network(8100);
    let first = create_transaction(&net, &NodeId(8101), NoCoin(1), NoCoin(0)).unwrap();
    let second = create_transaction(&net, &NodeId(8102), NoCoin(2), NoCoin(1)).unwrap();
    let batch = vec![
        (first.transaction.0, first.proof.unwrap().0),
        (second.transaction.0, second.proof.unwrap().0),
    ];
    try_adopt_pending_transactions(&mut net, batch).unwrap();
    assert_eq!(net.transactions_poll().len(), 2);
}

#[test]
fn adopt_pending_transactions_reports_every_failure() {
    let mut net = funded_network(8100);
    let good = create_transaction(&net, &NodeId(8101), NoCoin(1), NoCoin(0)).unwrap();
    let batch = vec![
        (good.transaction.0, good.proof.unwrap().0),
        (
            Transaction::new(Some(NodeId(9999)), NodeId(8100), NoCoin(0), NoCoin(1)),
            vec![1, 2, 3],
        ),
        (Transaction::new(None, NodeId(8100), NoCoin(1), NoCoin(10)), Vec::new()),
    ];
    let err = try_adopt_pending_transactions(&mut net, batch).unwrap_err();
    match err {
        NodeError::Multiple(errors) => {
            assert_eq!(errors, vec![NodeError::UnknownSender, NodeError::MalformedReward]);
        },
        other => panic!("expected combined errors, got {:?}", other),
    }
    assert!(net.transactions_poll().is_empty());
}

#[test]
fn affordable_wrapper_carries_the_transaction() {
    let t = Transaction::new(Some(NodeId(1)), NodeId(2), NoCoin(0), NoCoin(1));
    let a = AffordableTransaction(t);
    assert_eq!(a.0, t);
}

#[test]
fn pub_key_survives_node_clone() {
    let (_priv_key, pub_key): (PrivKey, PubKey) = generate_key().unwrap();
    let node = Node { id: NodeId(1), addr: addr(1), pub_key };
    let cloned = node.clone();
    assert_eq!(cloned.pub_key.0, node.pub_key.0);
    assert_eq!(cloned.addr.host, node.addr.host);
}
