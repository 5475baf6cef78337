//! Exchanges: short request and response correlations within a session.

use vstd::prelude::*;

verus! {

/// Which side opened an exchange.
#[derive(Debug, PartialEq, Eq, Clone, Copy, Structural)]
pub enum ExchangeRole {
    Initiator,
    Responder,
}

/// One exchange: its identifier, our role in it, and the counter of a
/// message that still waits for its acknowledgement, if any.
#[derive(Debug, PartialEq, Eq, Clone, Copy, Structural)]
pub struct Exchange {
    pub id: u16,
    pub role: ExchangeRole,
    pub pending_ack: Option<u32>,
}

impl Exchange {
    /// An exchange with no acknowledgement pending.
    pub fn new(id: u16, role: ExchangeRole) -> (e: Exchange)
        ensures
            e == (Exchange { id, role, pending_ack: None }),
    {
        Exchange { id, role, pending_ack: None }
    }

    /// Whether this is the exchange with the given identifier and role.
    pub fn is_match(&self, id: u16, role: ExchangeRole) -> (b: bool)
        ensures
            b == (self.id == id && self.role == role),
    {
        self.id == id && self.role == role
    }

    /// Notes that the message with counter `ack_ctr` waits for its
    /// acknowledgement; an earlier note is replaced.
    pub fn ack_pending(&mut self, ack_ctr: u32)
        ensures
            *final(self) == (Exchange { pending_ack: Some(ack_ctr), ..*old(self) }),
    {
        self.pending_ack = Some(ack_ctr);
    }
}

} // verus!
