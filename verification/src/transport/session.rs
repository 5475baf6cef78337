//! Sessions with peers and the table that holds them.

use vstd::prelude::*;
use crate::error::Error;
use crate::transport::exchange::{Exchange, ExchangeRole};

verus! {

/// The most exchanges that a session holds.
pub const MAX_EXCHANGES: usize = 4;

/// The most sessions that the table holds.
pub const MAX_SESSIONS: usize = 16;

#[verifier::external_type_specification]
#[verifier::external_body]
#[verifier::reject_recursive_types(T)]
pub struct ExHeaplessVec<T, const N: usize>(heapless::Vec<T, N>);

/// The exchanges that a bounded vector holds, in the order in which they
/// were added.
pub uninterp spec fn exchanges_of(v: heapless::Vec<Exchange, 4>) -> Seq<Exchange>;

/// `heapless::Vec::new`: the new vector holds nothing.
#[verifier::external_body]
fn exchanges_new() -> (v: heapless::Vec<Exchange, 4>)
    ensures
        exchanges_of(v) == Seq::<Exchange>::empty(),
{
    heapless::Vec::new()
}

/// `heapless::Vec::len`: the number of items held, which is at most the
/// capacity.
#[verifier::external_body]
fn exchanges_len(v: &heapless::Vec<Exchange, 4>) -> (n: usize)
    ensures
        n == exchanges_of(*v).len(),
        n <= MAX_EXCHANGES,
{
    v.len()
}

/// `heapless::Vec::push`: the item is added at the end where fewer items
/// are held than the capacity; else it is handed back and nothing changes.
#[verifier::external_body]
fn exchanges_push(v: &mut heapless::Vec<Exchange, 4>, e: Exchange) -> (r: Result<(), Exchange>)
    ensures
        match r {
            Ok(_) => exchanges_of(*old(v)).len() < MAX_EXCHANGES && exchanges_of(*final(v))
                == exchanges_of(*old(v)).push(e),
            Err(back) => exchanges_of(*old(v)).len() >= MAX_EXCHANGES && back == e
                && exchanges_of(*final(v)) == exchanges_of(*old(v)),
        },
{
    v.push(e)
}

/// Indexing a `heapless::Vec`, which goes through its slice: a copy of the
/// item at place `i`.
#[verifier::external_body]
fn exchanges_get(v: &heapless::Vec<Exchange, 4>, i: usize) -> (e: Exchange)
    requires
        i < exchanges_of(*v).len(),
    ensures
        e == exchanges_of(*v)[i as int],
{
    v[i]
}

/// Indexing a `heapless::Vec` for writing, which goes through its slice:
/// the item at place `i`; what the caller writes to it is what the vector
/// then holds at that place.
#[verifier::external_body]
fn exchanges_get_mut(v: &mut heapless::Vec<Exchange, 4>, i: usize) -> (e: &mut Exchange)
    requires
        i < exchanges_of(*old(v)).len(),
    ensures
        *e == exchanges_of(*old(v))[i as int],
        exchanges_of(*final(v)) == exchanges_of(*old(v)).update(i as int, *final(e)),
{
    &mut v[i]
}

/// The address of a peer: an IPv4 address as a number of 32 bits, an IPv6
/// address as a number of 128 bits, most significant byte first.
#[derive(Debug, PartialEq, Eq, Clone, Copy, Structural)]
pub enum PeerAddr {
    V4(u32),
    V6(u128),
}

/// A secure session with a peer.
pub struct Session {
    pub peer_addr: Option<PeerAddr>,
    pub dec_key: [u8; 16],
    pub enc_key: [u8; 16],
    pub session_id: u16,
    pub exchanges: heapless::Vec<Exchange, 4>,
}

/// The place of the first exchange with the given identifier and role.
pub open spec fn find_exchange(items: Seq<Exchange>, id: u16, role: ExchangeRole) -> Option<int>
    decreases items.len(),
{
    if items.len() == 0 {
        None
    } else {
        match find_exchange(items.drop_last(), id, role) {
            Some(i) => Some(i),
            None => if items.last().id == id && items.last().role == role {
                Some(items.len() - 1)
            } else {
                None
            },
        }
    }
}

/// What is found in a run is found at the same place in every longer run.
pub proof fn lemma_find_exchange_prefix(items: Seq<Exchange>, id: u16, role: ExchangeRole, n: int)
    requires
        0 <= n <= items.len(),
        find_exchange(items.subrange(0, n), id, role) is Some,
    ensures
        find_exchange(items, id, role) == find_exchange(items.subrange(0, n), id, role),
    decreases items.len() - n,
{
    if n < items.len() {
        assert(items.subrange(0, n + 1).drop_last() =~= items.subrange(0, n));
        lemma_find_exchange_prefix(items, id, role, n + 1);
    } else {
        assert(items.subrange(0, n) =~= items);
    }
}

/// The role that we have in an exchange: responder where the peer opened
/// it, initiator where we did.
pub open spec fn our_role(is_peer_initiator: bool) -> ExchangeRole {
    if is_peer_initiator {
        ExchangeRole::Responder
    } else {
        ExchangeRole::Initiator
    }
}

impl Session {
    /// The identifier of the session.
    pub open spec fn id(&self) -> u16 {
        self.session_id
    }

    /// The address of the peer.
    pub open spec fn peer(&self) -> Option<PeerAddr> {
        self.peer_addr
    }

    /// The exchanges of the session, in the order in which they were
    /// opened.
    pub open spec fn exchanges(&self) -> Seq<Exchange> {
        exchanges_of(self.exchanges)
    }

    /// A session without exchanges.
    pub fn new(
        session_id: u16,
        dec_key: [u8; 16],
        enc_key: [u8; 16],
        peer_addr: PeerAddr,
    ) -> (s: Session)
        ensures
            s.id() == session_id,
            s.peer() == Some(peer_addr),
            s.dec_key == dec_key,
            s.enc_key == enc_key,
            s.exchanges() == Seq::<Exchange>::empty(),
    {
        Session {
            peer_addr: Some(peer_addr),
            dec_key,
            enc_key,
            session_id,
            exchanges: exchanges_new(),
        }
    }

    /// The identifier of the session.
    pub fn get_session_id(&self) -> (id: u16)
        ensures
            id == self.id(),
    {
        self.session_id
    }

    /// Whether this is the session with the given identifier and peer.
    pub fn is_for(&self, session_id: u16, peer_addr: PeerAddr) -> (b: bool)
        ensures
            b == (self.id() == session_id && self.peer() == Some(peer_addr)),
    {
        self.session_id == session_id && match self.peer_addr {
            Some(a) => a == peer_addr,
            None => false,
        }
    }

    /// The number of exchanges of the session.
    pub fn exchange_count(&self) -> (n: usize)
        ensures
            n == self.exchanges().len(),
            n <= MAX_EXCHANGES,
    {
        exchanges_len(&self.exchanges)
    }

    /// The exchange with the given identifier in which we have the role
    /// that `is_peer_initiator` implies. Where there is none and the peer
    /// opened the exchange, a new one is added and returned, unless the
    /// session holds four exchanges already. What the caller writes to the
    /// exchange returned is what the session then holds.
    pub fn get_exchange(&mut self, id: u16, is_peer_initiator: bool) -> (r: Option<&mut Exchange>)
        ensures
            final(self).id() == old(self).id(),
            final(self).peer() == old(self).peer(),
            final(self).dec_key == old(self).dec_key,
            final(self).enc_key == old(self).enc_key,
            match find_exchange(old(self).exchanges(), id, our_role(is_peer_initiator)) {
                Some(i) => r is Some && *r->Some_0 == old(self).exchanges()[i] && final(self).exchanges() == old(self).exchanges().update(i, *final(r->Some_0)),
                None => if is_peer_initiator && old(self).exchanges().len() < MAX_EXCHANGES {
                    &&& r is Some
                    &&& *r->Some_0 == (Exchange {
                        id,
                        role: ExchangeRole::Responder,
                        pending_ack: None,
                    })
                    &&& final(self).exchanges() == old(self).exchanges().push(*final(r->Some_0))
                } else {
                    r is None && final(self).exchanges() == old(self).exchanges()
                },
            },
    {
        let role: ExchangeRole = if is_peer_initiator {
            ExchangeRole::Responder
        } else {
            ExchangeRole::Initiator
        };
        let ghost items = self.exchanges();
        let n: usize = exchanges_len(&self.exchanges);
        let mut i: usize = 0;
        proof {
            assert(items.subrange(0, 0) =~= Seq::<Exchange>::empty());
        }
        while i < n
            invariant
                i <= n,
                n == items.len(),
                items == exchanges_of(self.exchanges),
                *self == *old(self),
                role == our_role(is_peer_initiator),
                find_exchange(items.subrange(0, i as int), id, role) is None,
            decreases n - i,
        {
            let ghost next = items.subrange(0, i + 1);
            proof {
                assert(next.drop_last() =~= items.subrange(0, i as int));
                assert(next.last() == items[i as int]);
            }
            if exchanges_get(&self.exchanges, i).is_match(id, role) {
                proof {
                    lemma_find_exchange_prefix(items, id, role, i + 1);
                }
                return Some(exchanges_get_mut(&mut self.exchanges, i));
            }
            i = i + 1;
        }
        proof {
            assert(items.subrange(0, i as int) =~= items);
        }
        // the peer opens an exchange with its first message
        if is_peer_initiator {
            let e = Exchange::new(id, role);
            match exchanges_push(&mut self.exchanges, e) {
                Ok(()) => {
                    let ghost pushed = items.push(e);
                    let r = exchanges_get_mut(&mut self.exchanges, n);
                    proof {
                        assert(pushed.update(n as int, *final(r)) =~= items.push(*final(r)));
                    }
                    Some(r)
                },
                Err(_) => None,
            }
        } else {
            // an answer to an exchange that we never opened
            None
        }
    }
}

/// The sessions that a bounded vector holds, in the order in which they
/// were added.
pub uninterp spec fn sessions_of(v: heapless::Vec<Session, 16>) -> Seq<Session>;

/// `heapless::Vec::new`: the new vector holds nothing.
#[verifier::external_body]
fn sessions_new() -> (v: heapless::Vec<Session, 16>)
    ensures
        sessions_of(v) == Seq::<Session>::empty(),
{
    heapless::Vec::new()
}

/// `heapless::Vec::len`: the number of items held, which is at most the
/// capacity.
#[verifier::external_body]
fn sessions_len(v: &heapless::Vec<Session, 16>) -> (n: usize)
    ensures
        n == sessions_of(*v).len(),
        n <= MAX_SESSIONS,
{
    v.len()
}

/// `heapless::Vec::push`: the item is added at the end where fewer items
/// are held than the capacity; else it is handed back and nothing changes.
#[verifier::external_body]
fn sessions_push(v: &mut heapless::Vec<Session, 16>, s: Session) -> (r: Result<(), Session>)
    ensures
        match r {
            Ok(_) => sessions_of(*old(v)).len() < MAX_SESSIONS && sessions_of(*final(v))
                == sessions_of(*old(v)).push(s),
            Err(back) => sessions_of(*old(v)).len() >= MAX_SESSIONS && back == s && sessions_of(*final(v)) == sessions_of(*old(v)),
        },
{
    v.push(s)
}

/// Indexing a `heapless::Vec`, which goes through its slice: the item at
/// place `i`.
#[verifier::external_body]
fn sessions_get(v: &heapless::Vec<Session, 16>, i: usize) -> (s: &Session)
    requires
        i < sessions_of(*v).len(),
    ensures
        *s == sessions_of(*v)[i as int],
{
    &v[i]
}

/// Indexing a `heapless::Vec` for writing, which goes through its slice:
/// the item at place `i`; what the caller writes to it is what the vector
/// then holds at that place.
#[verifier::external_body]
fn sessions_get_mut(v: &mut heapless::Vec<Session, 16>, i: usize) -> (s: &mut Session)
    requires
        i < sessions_of(*old(v)).len(),
    ensures
        *s == sessions_of(*old(v))[i as int],
        sessions_of(*final(v)) == sessions_of(*old(v)).update(i as int, *final(s)),
{
    &mut v[i]
}

/// The place of the first session with the given identifier and peer.
pub open spec fn find_session(items: Seq<Session>, session_id: u16, peer_addr: PeerAddr)
    -> Option<int>
    decreases items.len(),
{
    if items.len() == 0 {
        None
    } else {
        match find_session(items.drop_last(), session_id, peer_addr) {
            Some(i) => Some(i),
            None => if items.last().id() == session_id && items.last().peer() == Some(peer_addr) {
                Some(items.len() - 1)
            } else {
                None
            },
        }
    }
}

/// What is found in a run is found at the same place in every longer run.
pub proof fn lemma_find_session_prefix(
    items: Seq<Session>,
    session_id: u16,
    peer_addr: PeerAddr,
    n: int,
)
    requires
        0 <= n <= items.len(),
        find_session(items.subrange(0, n), session_id, peer_addr) is Some,
    ensures
        find_session(items, session_id, peer_addr) == find_session(
            items.subrange(0, n),
            session_id,
            peer_addr,
        ),
    decreases items.len() - n,
{
    if n < items.len() {
        assert(items.subrange(0, n + 1).drop_last() =~= items.subrange(0, n));
        lemma_find_session_prefix(items, session_id, peer_addr, n + 1);
    } else {
        assert(items.subrange(0, n) =~= items);
    }
}

/// The table of sessions.
pub struct SessionMgr {
    pub sessions: heapless::Vec<Session, 16>,
}

impl View for SessionMgr {
    type V = Seq<Session>;

    open spec fn view(&self) -> Seq<Session> {
        sessions_of(self.sessions)
    }
}

impl SessionMgr {
    /// An empty table.
    pub fn new() -> (m: SessionMgr)
        ensures
            m@ == Seq::<Session>::empty(),
    {
        SessionMgr { sessions: sessions_new() }
    }

    /// The number of sessions in the table.
    pub fn len(&self) -> (n: usize)
        ensures
            n == self@.len(),
            n <= MAX_SESSIONS,
    {
        sessions_len(&self.sessions)
    }

    /// Adds a session without exchanges at the end of the table. Fails
    /// with `NoSpace`, and changes nothing, where the table holds sixteen
    /// sessions.
    pub fn add(
        &mut self,
        session_id: u16,
        dec_key: [u8; 16],
        enc_key: [u8; 16],
        peer_addr: PeerAddr,
    ) -> (r: Result<(), Error>)
        ensures
            old(self)@.len() < MAX_SESSIONS ==> {
                &&& r is Ok
                &&& final(self)@.len() == old(self)@.len() + 1
                &&& final(self)@.subrange(0, old(self)@.len() as int) == old(self)@
                &&& final(self)@.last().id() == session_id
                &&& final(self)@.last().peer() == Some(peer_addr)
                &&& final(self)@.last().dec_key == dec_key
                &&& final(self)@.last().enc_key == enc_key
                &&& final(self)@.last().exchanges() == Seq::<Exchange>::empty()
            },
            old(self)@.len() >= MAX_SESSIONS ==> r == Err::<(), Error>(Error::NoSpace) && final(self)@ == old(self)@,
    {
        let session = Session::new(session_id, dec_key, enc_key, peer_addr);
        match sessions_push(&mut self.sessions, session) {
            Ok(()) => {
                assert(self@.subrange(0, old(self)@.len() as int) =~= old(self)@);
                Ok(())
            },
            Err(_) => Err(Error::NoSpace),
        }
    }

    /// The first session with the given identifier and peer. What the
    /// caller writes to the session returned is what the table then holds.
    pub fn get(&mut self, session_id: u16, peer_addr: PeerAddr) -> (r: Option<&mut Session>)
        ensures
            match find_session(old(self)@, session_id, peer_addr) {
                Some(i) => r is Some && *r->Some_0 == old(self)@[i] && final(self)@ == old(
                    self,
                )@.update(i, *final(r->Some_0)),
                None => r is None && final(self)@ == old(self)@,
            },
    {
        let ghost items = self@;
        let n: usize = sessions_len(&self.sessions);
        let mut i: usize = 0;
        proof {
            assert(items.subrange(0, 0) =~= Seq::<Session>::empty());
        }
        while i < n
            invariant
                i <= n,
                n == items.len(),
                items == sessions_of(self.sessions),
                *self == *old(self),
                find_session(items.subrange(0, i as int), session_id, peer_addr) is None,
            decreases n - i,
        {
            let ghost next = items.subrange(0, i + 1);
            proof {
                assert(next.drop_last() =~= items.subrange(0, i as int));
                assert(next.last() == items[i as int]);
            }
            if sessions_get(&self.sessions, i).is_for(session_id, peer_addr) {
                proof {
                    lemma_find_session_prefix(items, session_id, peer_addr, i + 1);
                }
                return Some(sessions_get_mut(&mut self.sessions, i));
            }
            i = i + 1;
        }
        proof {
            assert(items.subrange(0, i as int) =~= items);
        }
        None
    }
}

} // verus!
