//! A sync client that accepts everything and shares everything: the simplest
//! client the sync layer can run with.
use vstd::prelude::*;

verus! {

/// A group or message identifier.
pub type ID = [u8; 32];

/// A message handed between the sync layer and a client.
#[derive(Debug, PartialEq, Eq, Clone, Copy)]
pub struct Message {}

/// What the client decides about a message.
#[derive(Debug, PartialEq, Eq, Clone, Copy)]
pub struct MessageDestiny {}

/// A remote device, known by its public key.
#[derive(Debug, PartialEq, Eq, Clone, Copy)]
pub struct Peer {
    pub key: [u8; 32],
}

/// The client that accepts and shares every message.
#[derive(Debug, PartialEq, Eq, Clone, Copy)]
pub struct Stub {}

impl Stub {
    /// A message never depends on other messages.
    pub fn parse_dependencies(&self, msg: &Message) -> (deps: Vec<ID>)
        ensures
            deps@.len() == 0,
    {
        Vec::new()
    }

    /// Every group is shared with every peer.
    pub fn get_will_share_group(&self, peer: &Peer, group: &ID) -> (share: bool)
        ensures
            share,
    {
        true
    }

    /// Every message is valid.
    pub fn validate(&self, msg: &Message) -> (valid: bool)
        ensures
            valid,
    {
        true
    }

    /// Every message gets the default destiny.
    pub fn get_message_destiny(&self, msg: &Message) -> (destiny: MessageDestiny)
        ensures
            destiny == (MessageDestiny {}),
    {
        MessageDestiny {}
    }

    /// The next message is the empty message.
    pub fn get_next_message(&self) -> (msg: Message)
        ensures
            msg == (Message {}),
    {
        Message {}
    }

    /// Delivery needs no work.
    pub fn deliver(&self, msg: &Message) {
    }
}

} // verus!
