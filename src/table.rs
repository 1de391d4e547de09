//! The session table of a server that multiplexes every transfer on one
//! port: datagrams are routed by their source (address, port), and an event
//! for one client touches that client's session alone.
use vstd::prelude::*;
use std::collections::HashMap;
use crate::session::{Action, Phase, Session};

verus! {

broadcast use vstd::std_specs::hash::group_hash_axioms;

/// Source of a datagram: IPv4 address and UDP port.
#[derive(Debug, Clone, Copy, PartialEq, Eq, Structural, Hash)]
pub struct ClientKey {
    pub addr: u32,
    pub port: u16,
}

/// The table's key for a client: address and port side by side.
pub open spec fn key_of(c: ClientKey) -> u64 {
    (c.addr * 65536 + c.port) as u64
}

fn client_id(c: ClientKey) -> (r: u64)
    ensures
        r == key_of(c),
{
    (c.addr as u64) * 65536 + (c.port as u64)
}

/// A session that ended leaves the table; one that goes on is stored back.
pub open spec fn settle(m: Map<u64, Session>, k: u64, s: Session) -> Map<u64, Session> {
    if s.is_live() {
        m.insert(k, s)
    } else {
        m.remove(k)
    }
}

/// The table after an ACK from `c`, and what to send back.
pub open spec fn ack_table_spec(m: Map<u64, Session>, c: ClientKey, n: u16) -> (
    Map<u64, Session>,
    Option<Action>,
) {
    let k = key_of(c);
    if m.contains_key(k) {
        let (s, a) = m[k].ack_spec(n);
        (settle(m, k, s), Some(a))
    } else {
        (m, None)
    }
}

/// The table after the wait on `c`'s transfer expired, and what to send.
pub open spec fn timeout_table_spec(m: Map<u64, Session>, c: ClientKey) -> (
    Map<u64, Session>,
    Option<Action>,
) {
    let k = key_of(c);
    if m.contains_key(k) {
        let (s, a) = m[k].timeout_spec();
        (settle(m, k, s), Some(a))
    } else {
        (m, None)
    }
}

pub open spec fn live_entry(s: Session) -> bool {
    s.wf() && s.is_live()
}

pub struct SessionTable {
    sessions: HashMap<u64, Session>,
}

impl View for SessionTable {
    type V = Map<u64, Session>;

    closed spec fn view(&self) -> Map<u64, Session> {
        self.sessions@
    }
}

impl SessionTable {
    /// Every stored session is well formed and still waits on its peer.
    pub open spec fn wf(&self) -> bool {
        forall|k: u64| #[trigger] self@.contains_key(k) ==> live_entry(self@[k])
    }

    /// Entries other than `k` come from `before`, where all were live; entry
    /// `k`, if any, is live.
    proof fn lemma_kept_live(&self, before: &SessionTable, k: u64)
        requires
            before.wf(),
            forall|j: u64| j != k ==> (#[trigger] self@.contains_key(j) == before@.contains_key(j)
                && (self@.contains_key(j) ==> self@[j] == before@[j])),
            self@.contains_key(k) ==> live_entry(self@[k]),
        ensures
            self.wf(),
    {
        assert forall|j: u64| #[trigger] self@.contains_key(j) implies live_entry(self@[j]) by {
            if j != k {
                assert(before@.contains_key(j));
            }
        }
    }

    pub fn new() -> (r: SessionTable)
        ensures
            r.wf(),
            r@ == Map::<u64, Session>::empty(),
    {
        SessionTable { sessions: HashMap::new() }
    }

    pub fn len(&self) -> (r: usize)
        ensures
            r == self@.len(),
    {
        self.sessions.len()
    }

    /// The session of client `c`, if it has one.
    pub fn get(&self, c: ClientKey) -> (r: Option<Session>)
        ensures
            r == (if self@.contains_key(key_of(c)) {
                Some(self@[key_of(c)])
            } else {
                None
            }),
    {
        let k = client_id(c);
        match self.sessions.get(&k) {
            Some(s) => Some(*s),
            None => None,
        }
    }

    /// Stores a new session for `c`, unless `c` already has one; tells
    /// whether it was stored.
    pub fn open(&mut self, c: ClientKey, s: Session) -> (r: bool)
        requires
            old(self).wf(),
            s.wf(),
            s.is_live(),
        ensures
            final(self).wf(),
            r == !old(self)@.contains_key(key_of(c)),
            final(self)@ == (if r {
                old(self)@.insert(key_of(c), s)
            } else {
                old(self)@
            }),
    {
        let k = client_id(c);
        if self.sessions.contains_key(&k) {
            false
        } else {
            self.sessions.insert(k, s);
            proof {
                self.lemma_kept_live(old(self), k);
            }
            true
        }
    }

    fn store(&mut self, k: u64, s: Session)
        requires
            old(self).wf(),
            s.wf(),
        ensures
            final(self).wf(),
            final(self)@ == settle(old(self)@, k, s),
    {
        if s.phase == Phase::Sending || s.phase == Phase::Negotiating {
            self.sessions.insert(k, s);
        } else {
            self.sessions.remove(&k);
        }
        proof {
            self.lemma_kept_live(old(self), k);
        }
    }

    /// Routes an ACK from `c` to its session.
    pub fn on_ack(&mut self, c: ClientKey, n: u16) -> (r: Option<Action>)
        requires
            old(self).wf(),
        ensures
            final(self).wf(),
            (final(self)@, r) == ack_table_spec(old(self)@, c, n),
    {
        let k = client_id(c);
        let found = match self.sessions.get(&k) {
            Some(s) => Some(*s),
            None => None,
        };
        match found {
            Some(s) => {
                proof {
                    assert(self@.contains_key(k));
                }
                let mut s = s;
                let a = s.on_ack(n);
                self.store(k, s);
                Some(a)
            },
            None => None,
        }
    }

    /// Routes the expiry of `c`'s wait for an ACK to its session.
    pub fn on_timeout(&mut self, c: ClientKey) -> (r: Option<Action>)
        requires
            old(self).wf(),
        ensures
            final(self).wf(),
            (final(self)@, r) == timeout_table_spec(old(self)@, c),
    {
        let k = client_id(c);
        let found = match self.sessions.get(&k) {
            Some(s) => Some(*s),
            None => None,
        };
        match found {
            Some(s) => {
                proof {
                    assert(self@.contains_key(k));
                }
                let mut s = s;
                let a = s.on_timeout();
                self.store(k, s);
                Some(a)
            },
            None => None,
        }
    }

    /// Drops `c`'s session after it sent an ERROR; tells whether it had one.
    pub fn on_error(&mut self, c: ClientKey) -> (r: bool)
        requires
            old(self).wf(),
        ensures
            final(self).wf(),
            r == old(self)@.contains_key(key_of(c)),
            final(self)@ == old(self)@.remove(key_of(c)),
    {
        let k = client_id(c);
        let r = match self.sessions.remove(&k) {
            Some(_) => true,
            None => false,
        };
        proof {
            self.lemma_kept_live(old(self), k);
        }
        r
    }
}

/// Distinct clients have distinct keys, so their sessions never share an
/// entry.
pub proof fn lemma_keys_distinct(a: ClientKey, b: ClientKey)
    requires
        a != b,
    ensures
        key_of(a) != key_of(b),
{
    assert(key_of(a) == a.addr * 65536 + a.port);
    assert(key_of(b) == b.addr * 65536 + b.port);
    if a.addr == b.addr {
    } else if a.addr < b.addr {
        assert(a.addr * 65536 + 65536 <= b.addr * 65536) by (nonlinear_arith)
            requires
                a.addr < b.addr,
        ;
    } else {
        assert(b.addr * 65536 + 65536 <= a.addr * 65536) by (nonlinear_arith)
            requires
                b.addr < a.addr,
        ;
    }
}

/// Sessions are isolated: an ACK or a timeout of one client leaves every
/// other client's session exactly as it was.
pub proof fn lemma_sessions_isolated(m: Map<u64, Session>, c: ClientKey, other: ClientKey, n: u16)
    requires
        c != other,
    ensures
        ack_table_spec(m, c, n).0.contains_key(key_of(other)) == m.contains_key(key_of(other)),
        m.contains_key(key_of(other)) ==> ack_table_spec(m, c, n).0[key_of(other)] == m[key_of(
            other,
        )],
        timeout_table_spec(m, c).0.contains_key(key_of(other)) == m.contains_key(key_of(other)),
        m.contains_key(key_of(other)) ==> timeout_table_spec(m, c).0[key_of(other)] == m[key_of(
            other,
        )],
{
    lemma_keys_distinct(c, other);
}

} // verus!
