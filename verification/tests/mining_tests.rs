use nocoin::blockchain::{NoCoin, Nonce};
use nocoin::mining::{prove_mined_block, try_mine_any};
use nocoin::network::NodeId;
use nocoin::rsa_verification::RSAEncodedMsg;
use nocoin::transaction::{AffordableTransaction, ProvenTransaction, Transaction};

fn some_transactions() -> Vec<ProvenTransaction> {
    (0..7u64)
        .map(|i| ProvenTransaction {
            proof: Some(RSAEncodedMsg(vec![i as u8, (i * 3) as u8])),
            transaction: AffordableTransaction(Transaction::new(
                Some(NodeId(i)),
                NodeId(i + 1),
                NoCoin(i as i64),
                NoCoin((i * 10) as i64),
            )),
        })
        .collect()
}

#[test]
fn possible_difficulty() {
    let transactions = some_transactions();
    for dif in 1..4u8 {
        let (hash, _nonce, _chosen) = try_mine_any(dif, &transactions).unwrap();
        assert_eq!(
            &hash.0[..dif as usize],
            "0".repeat(dif as usize),
            "Not zeroized for difficulty: {}",
            dif
        );
    }
}

#[test]
fn hash_and_verify() {
    let transactions = some_transactions();
    let difficulty = 3;

    let (_, nonce, chosen) = try_mine_any(difficulty, &transactions).unwrap();
    let proof = prove_mined_block(&chosen, difficulty, nonce);

    assert!(proof.is_ok());

    let invalid_proof = prove_mined_block(&chosen, difficulty, Nonce(nonce.0 + 1));

    assert!(invalid_proof.is_err());
}

// SHA-256 of b"[]" followed by the little-endian bytes of nonce 13 is
// 029956da...; of nonce 14 it is f86c9b18....  So over an empty batch,
// nonce 13 clears difficulty 1 and nonce 14 does not.
#[test]
fn proof_of_work_known_vector() {
    let empty: Vec<ProvenTransaction> = Vec::new();
    assert!(prove_mined_block(&empty, 1, Nonce(13)).is_ok());
    assert!(prove_mined_block(&empty, 1, Nonce(14)).is_err());

    let (hash, nonce, chosen) = try_mine_any(1, &empty).unwrap();
    assert_eq!(nonce.0, 13);
    assert!(chosen.is_empty());
    assert_eq!(
        hash.0,
        "029956daac093990fc2c7dae17d302e862bcd4357dc49ce4019e0eabdeee6213"
    );
}

#[test]
fn mining_empty_pool_gives_empty_batch() {
    let empty: Vec<ProvenTransaction> = Vec::new();
    let (_, _, chosen) = try_mine_any(2, &empty).unwrap();
    assert!(chosen.is_empty());
}

#[test]
fn mining_splits_the_pool_into_batches_of_ten() {
    let mut pool: Vec<ProvenTransaction> = Vec::new();
    for i in 0..25u64 {
        pool.push(ProvenTransaction {
            proof: None,
            transaction: AffordableTransaction(Transaction::new(
                None,
                NodeId(i),
                NoCoin(0),
                NoCoin(10),
            )),
        });
    }
    // At difficulty zero every hash clears, so the very first batch wins:
    // the first ten transactions of the pool.
    let (_, _, chosen) = try_mine_any(0, &pool).unwrap();
    assert_eq!(chosen.len(), 10);
    for (i, p) in chosen.iter().enumerate() {
        assert_eq!(p.transaction.0, pool[i].transaction.0);
    }
}

#[test]
fn oversized_difficulty_never_verifies() {
    let empty: Vec<ProvenTransaction> = Vec::new();
    assert!(prove_mined_block(&empty, 65, Nonce(13)).is_err());
}
