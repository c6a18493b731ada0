//! The ways in which building, signing or moving a transaction can fail.

use vstd::prelude::*;
use crate::pskt::Role;

verus! {

#[derive(Clone, Copy, Debug, PartialEq, Eq, Structural)]
pub enum Error {
    /// The entries ran out before the payments and fees were covered.
    InsufficientFunds,
    /// Even the smallest transaction that could be built is over the mass limit.
    MassExceeded,
    /// A sum of amounts does not fit in 64 bits.
    AmountOverflow,
    /// The priority fee is larger than the amount of the inputs.
    PriorityFeeExceedsInputs,
    /// An output of zero amount, which no mass can be computed for.
    ZeroOutputAmount,
    /// An input index past the end of the inputs.
    InputIndexOutOfRange,
    /// A signature script that does not verify.
    InvalidSignature,
    /// The input has no unspent output attached to it.
    MissingUtxoEntry,
    /// The secret key is not a valid key.
    InvalidSecretKey,
    /// The input is signed already.
    AlreadySigned,
    /// Some input is left without a signature after full signing was asked for.
    NotFullySigned,
    /// A role change that the state machine does not allow.
    State { attempted: Role, actual: Role },
    /// An operation that only the given role may perform.
    ExpectedState { expected: Role, actual: Role },
    /// A creator cannot be made from a state that carries a payload.
    CreateNotAllowed,
    /// The state carries no transaction yet.
    NotInitialized,
    /// A sequence number for an input that does not exist.
    SequenceOutOfRange,
    /// An input has no final signature script yet.
    NotFinalized,
    /// The mass of inputs that carry a redeem script cannot be estimated.
    RedeemScriptNotSupported,
    /// A partially signed transaction document that cannot be read.
    Serialization,
}

} // verus!
