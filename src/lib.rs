//! Section-authenticated messaging for a self-organising peer-to-peer overlay.
//!
//! Sections sign their messages with BLS threshold keys and keep a chain of their keys,
//! each signed by its predecessor. This crate holds the data structures and rules around
//! those chains: proof chains and their trust check, message envelopes and their wire
//! form, the accumulation of signature shares, the per-node chain state and the bounce
//! protocol that repairs trust gaps.
use vstd::prelude::*;

pub mod accumulator;
pub mod bootstrap;
pub mod bounce;
pub mod bytes;
pub mod chain;
pub mod chain_state;
pub mod codec;
pub mod consensus;
pub mod crypto;
pub mod event;
pub mod id;
pub mod location;
pub mod member_info;
pub mod message;
pub mod variant;

verus! {

/// Quorum is reached with strictly more than `QUORUM_NUMERATOR / QUORUM_DENOMINATOR` of the
/// voters: `votes * QUORUM_DENOMINATOR > voters * QUORUM_NUMERATOR`.
pub const QUORUM_NUMERATOR: usize = 2;

/// See `QUORUM_NUMERATOR`.
pub const QUORUM_DENOMINATOR: usize = 3;

/// Default minimal section size.
pub const MIN_SECTION_SIZE: usize = 3;

/// Minimal safe section size.
pub const SAFE_SECTION_SIZE: usize = 100;

/// Number of elders per section.
pub const ELDER_SIZE: usize = 7;

/// Whether `votes` out of `voters` is a supermajority.
pub open spec fn is_quorum_spec(votes: int, voters: int) -> bool {
    votes * (QUORUM_DENOMINATOR as int) > voters * (QUORUM_NUMERATOR as int)
}

/// Returns whether `votes` out of `voters` is a supermajority.
pub fn is_quorum(votes: usize, voters: usize) -> (r: bool)
    ensures
        r == is_quorum_spec(votes as int, voters as int),
{
    (votes as u128) * (QUORUM_DENOMINATOR as u128) > (voters as u128) * (QUORUM_NUMERATOR as u128)
}

} // verus!
