//! The cross-chain messages that the pallets hand to the XCM transport, as
//! plain values.
use vstd::prelude::*;

verus! {

/// How the receiving chain dispatches a transacted call.
#[derive(Clone, Copy, Debug, PartialEq, Eq, Structural)]
pub enum OriginKind {
    Native,
    SovereignAccount,
    Superuser,
    Xcm,
}

/// A parachain seen from a chain: `parents` levels up, then down into
/// `parachain`.
#[derive(Clone, Copy, Debug, PartialEq, Eq, Structural)]
pub struct Destination {
    pub parents: u8,
    pub parachain: u32,
}

/// A `Transact` instruction: dispatch the encoded `call` on the receiving
/// chain with the given origin kind and at most the given weight.
#[derive(Clone, Debug, PartialEq, Eq)]
pub struct Transact {
    pub origin_kind: OriginKind,
    pub require_weight_at_most: u64,
    pub call: Vec<u8>,
}

/// A message to send, with its destination.
#[derive(Clone, Debug, PartialEq, Eq)]
pub struct OutgoingXcm {
    pub dest: Destination,
    pub message: Transact,
}

/// A failure of the XCM transport, by the index of its variant in the
/// transport's error type.
#[derive(Clone, Copy, Debug, PartialEq, Eq, Structural)]
pub struct XcmError {
    pub code: u8,
}

} // verus!
