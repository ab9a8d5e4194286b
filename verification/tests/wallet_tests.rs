use nocoin::blockchain::{Block, BlockHeader, BlockIndex, Blockchain, BlocksTransactions, NoCoin,
    Nonce};
use nocoin::mining::BlockHash;
use nocoin::network::NodeId;
use nocoin::transaction::{AffordableTransaction, ProvenTransaction, Transaction};
use nocoin::wallet::{calculate_all_wallets, calculate_wallet};
use nocoin::MINING_REWARD;

fn tx(from: Option<u64>, to: u64, fee: i64, amount: i64) -> ProvenTransaction {
    ProvenTransaction {
        transaction: AffordableTransaction(Transaction::new(
            from.map(NodeId),
            NodeId(to),
            NoCoin(fee),
            NoCoin(amount),
        )),
        proof: None,
    }
}

fn block(miner: u64, txs: Vec<ProvenTransaction>) -> Block {
    Block {
        header: BlockHeader {
            index: BlockIndex(0),
            prev_hash: BlockHash::default(),
            hash: BlockHash::default(),
            timestamp: 0,
            difficulty: 0,
        },
        mined_by: NodeId(miner),
        transactions: BlocksTransactions(txs),
        nonce: Nonce(0),
    }
}

#[test]
fn calculate_transaction_gain_no_fees_no_rewards() {
    let target = NodeId(0);
    let blockchain = Blockchain(vec![block(
        0,
        vec![
            tx(Some(2), 0, 0, 5),
            tx(Some(1), 0, 0, 6),
            tx(Some(0), 1, 0, 3),
            tx(Some(0), 2, 0, 2),
        ],
    )]);

    assert_eq!(calculate_wallet(&target, &blockchain), NoCoin(5 + 6 - 3 - 2));
}

#[test]
fn calculate_wallet_fees_rewards() {
    let target = NodeId(0);
    let blockchain = Blockchain(vec![
        block(
            0,
            vec![
                tx(None, 0, 1, 3),
                tx(Some(1), 0, 1, 0),
                tx(Some(3), 4, 1, 0),
                tx(Some(4), 5, 1, 0),
            ],
        ),
        block(
            1,
            vec![
                tx(Some(2), 0, 2, 0),
                tx(Some(1), 0, 2, 0),
                tx(Some(5), 1, 2, 0),
                tx(Some(6), 2, 2, 0),
            ],
        ),
    ]);

    assert_eq!(calculate_wallet(&target, &blockchain), NoCoin(7));
}

#[test]
fn calculate_all_wallets_properly() {
    let blockchain = Blockchain(vec![
        block(
            2,
            vec![tx(Some(0), 1, 1, 5), tx(Some(2), 1, 2, 3), tx(None, 2, 0, 10)],
        ),
        block(
            1,
            vec![tx(Some(2), 0, 1, 2), tx(Some(2), 1, 2, 3), tx(None, 1, 0, 10)],
        ),
        block(
            0,
            vec![tx(Some(1), 2, 1, 5), tx(Some(2), 0, 2, 3), tx(None, 0, 0, 10)],
        ),
    ]);

    let wallets = calculate_all_wallets(&blockchain);

    assert_eq!(wallets[&0], NoCoin(12));
    assert_eq!(wallets[&1], NoCoin(18));
    assert_eq!(wallets[&2], NoCoin(0));
}

// Conservation on concrete values: fees cancel, each reward mints exactly
// the mining reward, so all balances together equal the reward times the
// number of reward transactions.
#[test]
fn wallet_conservation_concrete() {
    let blockchain = Blockchain(vec![
        block(
            2,
            vec![tx(Some(0), 1, 1, 5), tx(Some(2), 1, 2, 3), tx(None, 2, 0, 10)],
        ),
        block(
            1,
            vec![tx(Some(2), 0, 1, 2), tx(Some(2), 1, 2, 3), tx(None, 1, 0, 10)],
        ),
        block(
            0,
            vec![tx(Some(1), 2, 1, 5), tx(Some(2), 0, 2, 3), tx(None, 0, 0, 10)],
        ),
    ]);

    let wallets = calculate_all_wallets(&blockchain);
    let total: i64 = wallets.values().map(|c| c.0).sum();
    assert_eq!(total, MINING_REWARD * 3);
}

#[test]
fn self_transfer_nets_the_fee() {
    let blockchain = Blockchain(vec![block(1, vec![tx(Some(0), 0, 2, 5)])]);
    assert_eq!(calculate_wallet(&NodeId(0), &blockchain), NoCoin(-2));
    assert_eq!(calculate_wallet(&NodeId(1), &blockchain), NoCoin(2));
}

#[test]
fn untouched_account_has_no_entry() {
    let blockchain = Blockchain(vec![block(0, vec![tx(Some(1), 2, 0, 4)])]);
    let wallets = calculate_all_wallets(&blockchain);
    assert!(wallets.contains_key(&0));
    assert!(wallets.contains_key(&1));
    assert!(wallets.contains_key(&2));
    assert!(!wallets.contains_key(&3));
    assert_eq!(calculate_wallet(&NodeId(3), &blockchain), NoCoin(0));
}
