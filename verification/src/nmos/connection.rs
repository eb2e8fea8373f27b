//! What a Sender and a Receiver are each doing, in the project's own words.
//!
//! IS-04 says `active` at both ends. That word stops here. A Sender that is
//! putting its Flow on the network and a Receiver that is taking a stream are
//! different facts, and neither of them means "connected" — only a pair is
//! connected, and answering that needs every Node, which is the inventory's
//! job.

use vstd::prelude::*;

verus! {

/// What a Sender is doing.
#[derive(Debug, Clone, Copy, PartialEq, Eq, Structural, PartialOrd, Ord, Hash)]
pub enum Transmission {
    /// Putting its Flow on the network. Says nothing about whether anyone is
    /// listening.
    Transmitting,
    /// Not transmitting.
    Idle,
}

impl Transmission {
    /// Whether the Sender is putting its Flow on the network.
    pub fn is_transmitting(self) -> (r: bool)
        ensures
            r == (self == Transmission::Transmitting),
    {
        matches!(self, Transmission::Transmitting)
    }

    /// The state as the glossary writes it.
    pub fn to_string(&self) -> (r: String)
        ensures
            r@ == (match *self {
                Transmission::Transmitting => "transmitting"@,
                Transmission::Idle => "idle"@,
            }),
    {
        match self {
            Transmission::Transmitting => "transmitting".to_owned(),
            Transmission::Idle => "idle".to_owned(),
        }
    }
}

/// What a Receiver is doing.
#[derive(Debug, Clone, Copy, PartialEq, Eq, Structural, PartialOrd, Ord, Hash)]
pub enum Reception {
    /// Taking a stream. Which Sender it takes may still be unresolved.
    Subscribed,
    /// Taking nothing.
    Unsubscribed,
}

impl Reception {
    /// Whether the Receiver is taking a stream.
    pub fn is_subscribed(self) -> (r: bool)
        ensures
            r == (self == Reception::Subscribed),
    {
        matches!(self, Reception::Subscribed)
    }

    /// The state as the glossary writes it.
    pub fn to_string(&self) -> (r: String)
        ensures
            r@ == (match *self {
                Reception::Subscribed => "subscribed"@,
                Reception::Unsubscribed => "unsubscribed"@,
            }),
    {
        match self {
            Reception::Subscribed => "subscribed".to_owned(),
            Reception::Unsubscribed => "unsubscribed".to_owned(),
        }
    }
}

} // verus!
