//! Validator side of the collator protocol.
//!
//! The library holds the decisions of the subsystem that talks to collators on behalf of a
//! validator: which collators are accepted, which advertised collations are fetched, what
//! reputation change each peer earns and when a peer is disconnected. Everything that waits
//! (network, runtime queries, timers, the message bus) is done by the embedding program, which
//! hands the outcome in as plain values and performs the [`state::Action`]s that come back.
//!
//! Identities are plain values: peers, relay-chain blocks and candidate commitments are
//! integer handles chosen by the embedding program, which also hands in the bytes of each
//! peer's network identity when it connects (a collator's declaration signs those bytes).
//! Collators are identified by their sr25519 public key, and time is a count of milliseconds
//! on a monotonic clock.
use vstd::prelude::*;

pub mod assoc;
pub mod view;
pub mod crypto;
pub mod peer;
pub mod registry;
pub mod assignments;
pub mod fetch;
pub mod metrics;
pub mod state;
pub mod laws;

verus! {

/// A network peer.
pub type PeerId = u64;

/// A relay-chain block, used as relay parent of a collation.
pub type BlockHash = u64;

/// A parachain.
pub type ParaId = u32;

/// A collator, identified by its sr25519 public key.
pub type CollatorId = [u8; 32];

/// An sr25519 signature.
pub type CollatorSignature = [u8; 64];

/// A point in time: milliseconds on a monotonic clock.
pub type Instant = u64;

/// A span of time in milliseconds.
pub type Duration = u64;

/// How long a collation fetch may take before it is considered timed out.
pub const COLLATION_FETCH_TIMEOUT: Duration = 2000;

/// How often all peers are checked for inactivity.
pub const ACTIVITY_POLL: Duration = 1000;

/// How long peers may stay quiet before they are disconnected.
#[derive(Clone, Copy, Debug, PartialEq, Eq)]
pub struct CollatorEvictionPolicy {
    /// How long a collator may go without advertising a collation.
    pub inactive_collator: Duration,
    /// How long a connected peer may go without declaring itself a collator.
    pub undeclared: Duration,
}

} // verus!
