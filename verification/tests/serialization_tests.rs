use nocoin::blockchain::NoCoin;
use nocoin::mining::{hash_matches, BlockHash};
use nocoin::network::NodeId;
use nocoin::rsa_verification::RSAEncodedMsg;
use nocoin::transaction::{
    serialize_transaction, serialize_transactions, AffordableTransaction, ProvenTransaction,
    Transaction,
};

fn tx(from: Option<u64>, to: u64, fee: i64, amount: i64) -> Transaction {
    Transaction::new(
        from.map(NodeId),
        NodeId(to),
        NoCoin(fee),
        NoCoin(amount),
    )
}

fn proven(t: Transaction, proof: Option<Vec<u8>>) -> ProvenTransaction {
    ProvenTransaction {
        transaction: AffordableTransaction(t),
        proof: proof.map(RSAEncodedMsg),
    }
}

#[test]
fn transaction_bytes_exact() {
    let bytes = serialize_transaction(&tx(Some(5), 7, 1, 42));
    assert_eq!(bytes, b"{\"from\":5,\"to\":7,\"fee\":1,\"amount\":42}".to_vec());
}

#[test]
fn transaction_bytes_reward_and_negative() {
    let bytes = serialize_transaction(&tx(None, 8100, -3, 10));
    assert_eq!(
        bytes,
        b"{\"from\":null,\"to\":8100,\"fee\":-3,\"amount\":10}".to_vec()
    );
}

#[test]
fn transaction_bytes_extremes() {
    let bytes = serialize_transaction(&tx(Some(u64::MAX), 0, i64::MIN, i64::MAX));
    let expected = format!(
        "{{\"from\":{},\"to\":0,\"fee\":{},\"amount\":{}}}",
        u64::MAX,
        i64::MIN,
        i64::MAX
    );
    assert_eq!(bytes, expected.into_bytes());
    assert!(bytes.len() <= 112);
}

#[test]
fn payload_bytes_empty() {
    let txs: Vec<ProvenTransaction> = Vec::new();
    assert_eq!(serialize_transactions(&txs), b"[]".to_vec());
}

#[test]
fn payload_bytes_list() {
    let txs = vec![
        proven(tx(None, 1, 0, 10), None),
        proven(tx(Some(1), 2, 1, 3), Some(vec![0, 255])),
    ];
    let expected = "[{\"transaction\":{\"from\":null,\"to\":1,\"fee\":0,\"amount\":10},\"proof\":null},{\"transaction\":{\"from\":1,\"to\":2,\"fee\":1,\"amount\":3},\"proof\":[0,255]}]";
    assert_eq!(serialize_transactions(&txs), expected.as_bytes().to_vec());
}

#[test]
fn block_hash_length_check() {
    let ok = BlockHash::try_new("0".repeat(64)).unwrap();
    assert_eq!(ok.0, "0".repeat(64));
    assert!(BlockHash::try_new("0".repeat(63)).is_err());
    assert!(BlockHash::try_new(String::new()).is_err());
    assert_eq!(BlockHash::default().0, "0".repeat(64));
}

#[test]
fn block_hash_rejects_non_ascii() {
    // 64 characters, but not hash-shaped.
    assert!(BlockHash::try_new("\u{e9}".repeat(64)).is_err());
}

#[test]
fn hash_matches_counts_leading_zeroes() {
    assert!(hash_matches("00ab", 2));
    assert!(!hash_matches("0ab0", 2));
    assert!(hash_matches("abcd", 0));
    assert!(!hash_matches("a000", 1));
}
