//! Events raised for the user of a node.
use vstd::prelude::*;
use crate::chain::SectionKey;
use crate::location::{DstLocation, Prefix, SrcLocation, XorName};

verus! {

/// How a node completed joining.
#[derive(Clone, Copy, Debug, PartialEq, Eq, Structural)]
pub enum Connected {
    /// Node first joining the network.
    First,
    /// Node relocating from one section to another.
    Relocate,
}

/// An event for the user of a node.
#[derive(Debug)]
pub enum Event {
    /// The node has connected to the network.
    Connected(Connected),
    /// A message was received.
    MessageReceived { content: Vec<u8>, src: SrcLocation, dst: DstLocation },
    /// Consensus on a custom event.
    Consensus(Vec<u8>),
    /// The node has been promoted to elder.
    PromotedToElder,
    /// The node has been demoted from elder.
    Demoted,
    /// A node joined our section.
    MemberJoined { name: XorName, age: u8 },
    /// A node left our section.
    MemberLeft { name: XorName, age: u8 },
    /// The elders of our section changed.
    EldersChanged { prefix: Prefix, key: SectionKey, elders: Vec<XorName> },
    /// Disconnected or failed to connect: restart required.
    RestartRequired,
    /// Startup failed, or a chain invariant broke: terminate.
    Terminated,
}

} // verus!
