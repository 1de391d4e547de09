//! The demultiplexing step of a single-port server: one datagram from one
//! client in, one reply out. A lookup of the file named by a granted read is
//! the caller's; it then opens the session with `request::open_transfer` and
//! `SessionTable::open`.
use vstd::prelude::*;
use crate::packet::{decode, parse, PacketModel, TftpMessage, TransferOption};
use crate::request::{judge_request, verdict_spec, Verdict};
use crate::session::{Action, Session};
use crate::table::{
    ack_table_spec, key_of, lemma_keys_distinct, lemma_sessions_isolated, ClientKey, SessionTable,
};

verus! {

/// What the server does with a datagram.
#[derive(Debug, Clone, PartialEq, Eq)]
pub enum Reply {
    /// Nothing: the datagram was malformed, repeated a request, or ended a
    /// transfer.
    Drop,
    /// Carry out what the client's session decided.
    Act(Action),
    /// A read was granted: look up `path` under the root, then open a
    /// session with `options`.
    Lookup { path: Vec<u8>, options: Vec<TransferOption> },
    /// Send an ERROR packet with this code.
    Refuse { code: u16 },
}

/// A reply as a mathematical value, with the table it leaves.
pub enum ReplyModel {
    Drop,
    Act(Action),
    Lookup { path: Seq<u8> },
    Refuse { code: u16 },
}

pub open spec fn reply_view(r: Reply) -> ReplyModel {
    match r {
        Reply::Drop => ReplyModel::Drop,
        Reply::Act(a) => ReplyModel::Act(a),
        Reply::Lookup { path, .. } => ReplyModel::Lookup { path: path@ },
        Reply::Refuse { code } => ReplyModel::Refuse { code },
    }
}

pub open spec fn dispatch_spec(m: Map<u64, Session>, c: ClientKey, b: Seq<u8>) -> (
    Map<u64, Session>,
    ReplyModel,
) {
    let known = m.contains_key(key_of(c));
    match parse(b) {
        None => (m, ReplyModel::Drop),
        Some(PacketModel::Ack { block }) if known => {
            let (m2, a) = ack_table_spec(m, c, block);
            (m2, ReplyModel::Act(a->0))
        },
        Some(PacketModel::Error { .. }) => (m.remove(key_of(c)), ReplyModel::Drop),
        Some(msg) => if known {
            (m, ReplyModel::Drop)
        } else {
            match verdict_spec(msg) {
                Ok(path) => (m, ReplyModel::Lookup { path }),
                Err(code) => (m, ReplyModel::Refuse { code }),
            }
        },
    }
}

/// Handles one datagram from client `c`. A malformed datagram is dropped
/// and touches no session; an ACK goes to the client's session; an ERROR
/// ends it; a message from a client without a session is judged as a new
/// request. Only `c`'s entry of the table can change.
pub fn dispatch(table: &mut SessionTable, c: ClientKey, datagram: &[u8]) -> (r: Reply)
    requires
        old(table).wf(),
    ensures
        final(table).wf(),
        (final(table)@, reply_view(r)) == dispatch_spec(old(table)@, c, datagram@),
        r matches Reply::Lookup { options, .. } ==> parse(datagram@) matches Some(
            PacketModel::ReadRequest { options: o, .. },
        ) && o == crate::packet::options_model(options@),
{
    let known = table.get(c).is_some();
    match decode(datagram) {
        Err(_) => Reply::Drop,
        Ok(msg) => match msg {
            TftpMessage::Ack { block } if known => match table.on_ack(c, block) {
                Some(a) => Reply::Act(a),
                None => Reply::Drop,
            },
            TftpMessage::Error { .. } => {
                table.on_error(c);
                Reply::Drop
            },
            other => {
                if known {
                    Reply::Drop
                } else {
                    match judge_request(&other) {
                        Verdict::Serve { path } => match other {
                            TftpMessage::ReadRequest { options, .. } => Reply::Lookup {
                                path,
                                options,
                            },
                            _ => Reply::Drop,
                        },
                        Verdict::Refuse { code } => Reply::Refuse { code },
                    }
                }
            },
        },
    }
}

/// Concurrent transfers stay apart: whatever a datagram from one client
/// holds, every other client's session is left exactly as it was.
pub proof fn lemma_dispatch_isolated(m: Map<u64, Session>, c: ClientKey, other: ClientKey, b: Seq<u8>)
    requires
        c != other,
    ensures
        dispatch_spec(m, c, b).0.contains_key(key_of(other)) == m.contains_key(key_of(other)),
        m.contains_key(key_of(other)) ==> dispatch_spec(m, c, b).0[key_of(other)] == m[key_of(
            other,
        )],
{
    lemma_keys_distinct(c, other);
    match parse(b) {
        Some(PacketModel::Ack { block }) => {
            lemma_sessions_isolated(m, c, other, block);
        },
        _ => {},
    }
}

} // verus!
