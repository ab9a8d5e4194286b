//! Error kinds reported by the node's operations.
use vstd::prelude::*;

verus! {

/// Why an operation on the node's state was rejected.
///
/// Each kind corresponds to one family of rejected inputs; the operations'
/// contracts state exactly which inputs produce which kind.
#[derive(Debug, PartialEq, Eq)]
pub enum NodeError {
    /// A payload that cannot be read at all, or a signature payload over the
    /// signing primitive's size limit.
    MalformedInput,
    /// A transaction whose sender is not a known peer.
    UnknownSender,
    /// A transaction its sender cannot pay for.
    InsufficientFunds,
    /// A signature that does not verify against the sender's public key.
    BadSignature,
    /// A reward transaction whose amount or fee is not the fixed reward.
    MalformedReward,
    /// A peer announcement that collides with a known node id.
    DuplicateNode,
    /// A block that fails proof-of-work, does not extend the tip, or carries
    /// more than one transaction missing from the pending pool.
    BadBlock,
    /// A foreign chain that fails validation.
    BadChain,
    /// An unrecoverable fault in a primitive the node relies on.
    Internal,
    /// Several rejections collected from one batch of inputs.
    Multiple(Vec<NodeError>),
}

} // verus!
