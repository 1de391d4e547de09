//! What the server answers to a message on its well-known port, and how a
//! granted read starts. Whether a file exists is for the caller to find out;
//! it hands in the length it found, if any.
use vstd::prelude::*;
use vstd::string::StringSliceAdditionalSpecFns;
use crate::options::{blksize_from, negotiate_block_size};
use crate::packet::{nul_free, options_model, PacketModel, TftpMessage, TransferOption};
use crate::path::{escapes_root, resolve_request, skip_slashes, PathError};
use crate::service::TftpSettings;
use crate::session::{Phase, Session, ILLEGAL_OPERATION};

verus! {

pub const DEFAULT_BLOCK_SIZE: usize = 512;

pub const FILE_NOT_FOUND: u16 = 1;
pub const ACCESS_VIOLATION: u16 = 2;
pub const UNKNOWN_TRANSFER_ID: u16 = 5;

/// The answer to a message that opens no session yet.
#[derive(Debug, Clone, PartialEq, Eq)]
pub enum Verdict {
    /// Look up this path, relative to the served root, and send it.
    Serve { path: Vec<u8> },
    /// Send an ERROR packet with this code; no session is made.
    Refuse { code: u16 },
}

/// The answer to `m` as a mathematical value: `Ok` holds the path to serve,
/// `Err` the error code.
pub open spec fn verdict_spec(m: PacketModel) -> Result<Seq<u8>, u16> {
    match m {
        PacketModel::ReadRequest { filename, .. } => {
            if escapes_root(filename) {
                Err(ACCESS_VIOLATION)
            } else if skip_slashes(filename, 0) == filename.len() {
                Err(FILE_NOT_FOUND)
            } else {
                Ok(filename.subrange(skip_slashes(filename, 0), filename.len() as int))
            }
        },
        PacketModel::WriteRequest { .. } => Err(ACCESS_VIOLATION),
        _ => Err(UNKNOWN_TRANSFER_ID),
    }
}

pub open spec fn verdict_view(v: Verdict) -> Result<Seq<u8>, u16> {
    match v {
        Verdict::Serve { path } => Ok(path@),
        Verdict::Refuse { code } => Err(code),
    }
}

/// Judges a message that no session claims: a read inside the root is
/// served, a read that would leave it is an access violation, a write is
/// refused on this read-only server, and anything else belongs to no
/// transfer.
pub fn judge_request(m: &TftpMessage) -> (r: Verdict)
    ensures
        verdict_view(r) == verdict_spec(m@),
{
    match m {
        TftpMessage::ReadRequest { filename, .. } => match resolve_request(filename.as_slice()) {
            Ok(path) => Verdict::Serve { path },
            Err(PathError::Traversal) => Verdict::Refuse { code: ACCESS_VIOLATION },
            Err(PathError::Empty) => Verdict::Refuse { code: FILE_NOT_FOUND },
        },
        TftpMessage::WriteRequest { .. } => Verdict::Refuse { code: ACCESS_VIOLATION },
        _ => Verdict::Refuse { code: UNKNOWN_TRANSFER_ID },
    }
}

/// The session a granted read starts, as a mathematical value.
pub open spec fn opened_spec(
    file_len: usize,
    options: Seq<(Seq<u8>, Seq<u8>)>,
    settings: TftpSettings,
) -> Session {
    match blksize_from(options, 0) {
        Some((n, _)) => Session {
            file_len,
            block_size: n as usize,
            offset: 0,
            block: 1,
            retries: 0,
            max_retries: settings.max_retries,
            duplicates: settings.duplicate_packets,
            phase: Phase::Negotiating,
        },
        None => Session {
            file_len,
            block_size: DEFAULT_BLOCK_SIZE,
            offset: 0,
            block: 1,
            retries: 0,
            max_retries: settings.max_retries,
            duplicates: settings.duplicate_packets,
            phase: Phase::Sending,
        },
    }
}

/// Starts the transfer of a granted read, given the length of the file that
/// was found, or `None` where there was none. A valid `blksize` option makes
/// the session negotiate that block size first; otherwise blocks are 512
/// bytes and the first one goes out at once.
pub fn open_transfer(
    file_len: Option<usize>,
    options: &Vec<TransferOption>,
    settings: &TftpSettings,
) -> (r: Result<Session, u16>)
    requires
        settings.duplicate_packets >= 1,
    ensures
        match file_len {
            None => r == Err::<Session, u16>(FILE_NOT_FOUND),
            Some(n) => r == Ok::<Session, u16>(
                opened_spec(n, options_model(options@), *settings),
            ),
        },
        r matches Ok(s) ==> s.wf(),
{
    match file_len {
        None => Err(FILE_NOT_FOUND),
        Some(n) => match negotiate_block_size(options) {
            Some((size, _)) => Ok(
                Session::negotiated(n, size, settings.max_retries, settings.duplicate_packets),
            ),
            None => Ok(
                Session::new(
                    n,
                    DEFAULT_BLOCK_SIZE,
                    settings.max_retries,
                    settings.duplicate_packets,
                ),
            ),
        },
    }
}

fn copy_bytes(v: &Vec<u8>) -> (r: Vec<u8>)
    ensures
        r@ == v@,
{
    let mut out: Vec<u8> = Vec::new();
    let mut k: usize = 0;
    while k < v.len()
        invariant
            k <= v@.len(),
            out@ == v@.subrange(0, k as int),
        decreases v@.len() - k,
    {
        out.push(v[k]);
        k = k + 1;
    }
    assert(v@.subrange(0, v@.len() as int) =~= v@);
    out
}

/// The OACK that accepts the request's `blksize` option as sent, and no
/// other; `None` where the request has no valid one.
pub fn option_ack(options: &Vec<TransferOption>) -> (r: Option<TftpMessage>)
    ensures
        match blksize_from(options_model(options@), 0) {
            Some((_, i)) => r matches Some(m) && m@ == (PacketModel::OptionAck {
                options: seq![options_model(options@)[i]],
            }),
            None => r is None,
        },
{
    match negotiate_block_size(options) {
        Some((_, i)) => {
            let accepted = TransferOption {
                name: copy_bytes(&options[i].name),
                value: copy_bytes(&options[i].value),
            };
            let mut list: Vec<TransferOption> = Vec::new();
            list.push(accepted);
            assert(options_model(list@) =~= seq![options_model(options@)[i as int]]);
            Some(TftpMessage::OptionAck { options: list })
        },
        None => None,
    }
}

/// The text that goes with an error code.
pub open spec fn error_text(code: u16) -> &'static str {
    if code == FILE_NOT_FOUND {
        "File not found"
    } else if code == ACCESS_VIOLATION {
        "Access violation"
    } else if code == UNKNOWN_TRANSFER_ID {
        "Unknown transfer ID"
    } else if code == ILLEGAL_OPERATION {
        "Illegal TFTP operation"
    } else {
        "Transfer abandoned"
    }
}

/// The ERROR message for a code, with the text RFC 1350 gives it.
pub fn error_message(code: u16) -> (r: TftpMessage)
    ensures
        r matches TftpMessage::Error { code: c, message } && c == code && message@
            == error_text(code).spec_bytes() && message@.len() > 0 && nul_free(message@),
{
    let text: &str = if code == FILE_NOT_FOUND {
        "File not found"
    } else if code == ACCESS_VIOLATION {
        "Access violation"
    } else if code == UNKNOWN_TRANSFER_ID {
        "Unknown transfer ID"
    } else if code == ILLEGAL_OPERATION {
        "Illegal TFTP operation"
    } else {
        "Transfer abandoned"
    };
    proof {
        reveal_strlit("File not found");
        reveal_strlit("Access violation");
        reveal_strlit("Unknown transfer ID");
        reveal_strlit("Illegal TFTP operation");
        reveal_strlit("Transfer abandoned");
        broadcast use vstd::string::is_ascii_spec_bytes;
        assert(vstd::string::is_ascii(text));
    }
    let bytes = text.as_bytes();
    assert(bytes@.len() > 0);
    assert(nul_free(bytes@));
    let mut message: Vec<u8> = Vec::new();
    let mut k: usize = 0;
    while k < bytes.len()
        invariant
            k <= bytes@.len(),
            message@ == bytes@.subrange(0, k as int),
        decreases bytes@.len() - k,
    {
        message.push(bytes[k]);
        k = k + 1;
    }
    assert(bytes@.subrange(0, bytes@.len() as int) =~= bytes@);
    assert(text == error_text(code));
    TftpMessage::Error { code, message }
}

} // verus!
