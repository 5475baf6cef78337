//! The fail-safe that guards commissioning: while it is armed, only the
//! session that armed it may go on, and commissioning completes only after
//! that session has received its operational credentials.

use vstd::prelude::*;
use crate::data_model::objects::SessionMode;
use crate::error::Error;

verus! {

/// Whether operational credentials were received while the fail-safe was
/// armed, and for which fabric.
#[derive(Debug, PartialEq, Eq, Clone, Copy, Structural)]
pub enum NocState {
    NocNotRecvd,
    AddNocRecvd(u8),
    UpdateNocRecvd(u8),
}

/// What an armed fail-safe holds: the session that armed it, the seconds
/// until it expires, and the state of the credentials.
#[derive(Debug, PartialEq, Eq, Clone, Copy, Structural)]
pub struct ArmedCtx {
    pub session_mode: SessionMode,
    pub timeout: u8,
    pub noc_state: NocState,
}

/// The state of the fail-safe.
#[derive(Debug, PartialEq, Eq, Clone, Copy, Structural)]
pub enum FailSafeState {
    Idle,
    Armed(ArmedCtx),
}

/// The fail-safe.
#[derive(Debug, PartialEq, Eq, Clone, Copy, Structural)]
pub struct FailSafe {
    pub state: FailSafeState,
}

/// What arming comes to: an idle fail-safe is armed by the session; an
/// armed one is armed anew, with the new timeout, by the session that
/// armed it, and is `Invalid` for any other.
pub open spec fn armed_by(f: FailSafe, timeout: u8, session_mode: SessionMode) -> Result<
    FailSafe,
    Error,
> {
    match f.state {
        FailSafeState::Idle => Ok(
            FailSafe {
                state: FailSafeState::Armed(
                    ArmedCtx { session_mode, timeout, noc_state: NocState::NocNotRecvd },
                ),
            },
        ),
        FailSafeState::Armed(c) => if c.session_mode != session_mode {
            Err(Error::Invalid)
        } else {
            Ok(FailSafe { state: FailSafeState::Armed(ArmedCtx { timeout, ..c }) })
        },
    }
}

/// What disarming comes to: the fail-safe becomes idle where it is armed,
/// credentials were received for a fabric, and the session asking is the
/// operational session of that fabric; it is `Invalid` otherwise.
pub open spec fn disarmed_by(f: FailSafe, session_mode: SessionMode) -> Result<FailSafe, Error> {
    match f.state {
        FailSafeState::Idle => Err(Error::Invalid),
        FailSafeState::Armed(c) => match c.noc_state {
            NocState::NocNotRecvd => Err(Error::Invalid),
            NocState::AddNocRecvd(idx) => if session_mode == SessionMode::Case(idx) {
                Ok(FailSafe { state: FailSafeState::Idle })
            } else {
                Err(Error::Invalid)
            },
            NocState::UpdateNocRecvd(idx) => if session_mode == SessionMode::Case(idx) {
                Ok(FailSafe { state: FailSafeState::Idle })
            } else {
                Err(Error::Invalid)
            },
        },
    }
}

/// What the receipt of new credentials for a fabric comes to: it is noted
/// where the fail-safe is armed and none were received before; it is
/// `Invalid` otherwise.
pub open spec fn noc_added(f: FailSafe, fabric_index: u8) -> Result<FailSafe, Error> {
    match f.state {
        FailSafeState::Idle => Err(Error::Invalid),
        FailSafeState::Armed(c) => if c.noc_state == NocState::NocNotRecvd {
            Ok(
                FailSafe {
                    state: FailSafeState::Armed(
                        ArmedCtx { noc_state: NocState::AddNocRecvd(fabric_index), ..c },
                    ),
                },
            )
        } else {
            Err(Error::Invalid)
        },
    }
}

impl FailSafe {
    /// An idle fail-safe.
    pub fn new() -> (f: FailSafe)
        ensures
            f.state == FailSafeState::Idle,
    {
        FailSafe { state: FailSafeState::Idle }
    }

    /// Arms the fail-safe for a session. On failure nothing changes.
    pub fn arm(&mut self, timeout: u8, session_mode: SessionMode) -> (r: Result<(), Error>)
        ensures
            match armed_by(*old(self), timeout, session_mode) {
                Ok(f) => r is Ok && *final(self) == f,
                Err(e) => r == Err::<(), Error>(e) && *final(self) == *old(self),
            },
    {
        match self.state {
            FailSafeState::Idle => {
                self.state = FailSafeState::Armed(
                    ArmedCtx { session_mode, timeout, noc_state: NocState::NocNotRecvd },
                );
                Ok(())
            },
            FailSafeState::Armed(c) => {
                if c.session_mode != session_mode {
                    return Err(Error::Invalid);
                }
                self.state = FailSafeState::Armed(
                    ArmedCtx { session_mode: c.session_mode, timeout, noc_state: c.noc_state },
                );
                Ok(())
            },
        }
    }

    /// Disarms the fail-safe for a session. On failure nothing changes.
    pub fn disarm(&mut self, session_mode: SessionMode) -> (r: Result<(), Error>)
        ensures
            match disarmed_by(*old(self), session_mode) {
                Ok(f) => r is Ok && *final(self) == f,
                Err(e) => r == Err::<(), Error>(e) && *final(self) == *old(self),
            },
    {
        match self.state {
            FailSafeState::Idle => Err(Error::Invalid),
            FailSafeState::Armed(c) => {
                let idx: u8 = match c.noc_state {
                    NocState::NocNotRecvd => {
                        return Err(Error::Invalid);
                    },
                    NocState::AddNocRecvd(idx) => idx,
                    NocState::UpdateNocRecvd(idx) => idx,
                };
                if session_mode != SessionMode::Case(idx) {
                    return Err(Error::Invalid);
                }
                self.state = FailSafeState::Idle;
                Ok(())
            },
        }
    }

    /// Whether the fail-safe is armed.
    pub fn is_armed(&self) -> (b: bool)
        ensures
            b == (self.state is Armed),
    {
        match self.state {
            FailSafeState::Idle => false,
            FailSafeState::Armed(_) => true,
        }
    }

    /// Notes that credentials for a fabric were received. On failure
    /// nothing changes.
    pub fn record_add_noc(&mut self, fabric_index: u8) -> (r: Result<(), Error>)
        ensures
            match noc_added(*old(self), fabric_index) {
                Ok(f) => r is Ok && *final(self) == f,
                Err(e) => r == Err::<(), Error>(e) && *final(self) == *old(self),
            },
    {
        match self.state {
            FailSafeState::Idle => Err(Error::Invalid),
            FailSafeState::Armed(c) => {
                if c.noc_state != NocState::NocNotRecvd {
                    return Err(Error::Invalid);
                }
                self.state = FailSafeState::Armed(
                    ArmedCtx {
                        session_mode: c.session_mode,
                        timeout: c.timeout,
                        noc_state: NocState::AddNocRecvd(fabric_index),
                    },
                );
                Ok(())
            },
        }
    }

    /// Takes note that the time of an armed fail-safe has run out: the
    /// fail-safe becomes idle, so that the commissioning it guarded can no
    /// longer complete. Returns whether it was armed.
    pub fn expire(&mut self) -> (was_armed: bool)
        ensures
            was_armed == (old(self).state is Armed),
            final(self).state == FailSafeState::Idle,
    {
        let was_armed: bool = self.is_armed();
        self.state = FailSafeState::Idle;
        was_armed
    }
}

} // verus!
