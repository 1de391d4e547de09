//! One download, sender side. The caller owns the socket, the file and the
//! timer; the session decides what to send after each event.
use vstd::prelude::*;

verus! {

/// Where a transfer stands.
#[derive(PartialEq, Eq, Structural, Clone, Copy, Debug)]
pub enum Phase {
    /// An OACK went out; waiting for ACK 0 before the first block.
    Negotiating,
    Sending,
    Completed,
    Failed,
}

/// What the caller must do after an event.
#[derive(PartialEq, Eq, Structural, Clone, Copy, Debug)]
pub enum Action {
    /// Send the DATA packet numbered `block` carrying `file[start..end]`,
    /// `copies` times in a row.
    SendData { block: u16, start: usize, end: usize, copies: u8 },
    /// Send the OACK of the accepted options, `copies` times in a row.
    SendOptionAck { copies: u8 },
    /// Send an ERROR packet with this code and drop the session.
    SendError { code: u16 },
    /// The last block was acknowledged: the transfer is over.
    Done,
    /// Nothing to send.
    Idle,
}

/// Error code sent when the peer acknowledges a block not yet sent.
pub const ILLEGAL_OPERATION: u16 = 4;

/// Error code sent when the peer stopped answering.
pub const NOT_DEFINED: u16 = 0;

/// Sender state of one transfer.
#[derive(PartialEq, Eq, Structural, Clone, Copy, Debug)]
pub struct Session {
    pub file_len: usize,
    pub block_size: usize,
    /// Offset in the file of the block in flight.
    pub offset: usize,
    /// Wire number of the block in flight.
    pub block: u16,
    /// Consecutive timeouts since the block in flight was first sent.
    pub retries: u32,
    pub max_retries: u32,
    /// How many copies of each DATA packet go out.
    pub duplicates: u8,
    pub phase: Phase,
}

pub open spec fn next_block(b: u16) -> u16 {
    if b == 65535 { 0 } else { (b + 1) as u16 }
}

/// Block number `n` comes before `b` in serial-number order: it lies less
/// than half the number space behind `b`, counting across the wrap from
/// 65535 to 0. An ACK for such a block is stale.
pub open spec fn is_behind(n: u16, b: u16) -> bool {
    let d = (b - n + 65536) % 65536;
    0 < d < 32768
}

fn behind(n: u16, b: u16) -> (r: bool)
    ensures
        r == is_behind(n, b),
{
    let d: u32 = ((b as u32) + 65536 - (n as u32)) % 65536;
    0 < d && d < 32768
}

impl Session {
    pub open spec fn wf(self) -> bool {
        &&& self.block_size > 0
        &&& self.offset <= self.file_len
        &&& self.retries <= self.max_retries
        &&& self.duplicates >= 1
    }

    /// The block in flight is the last one: it is shorter than a full block,
    /// possibly empty.
    pub open spec fn is_last(self) -> bool {
        self.file_len - self.offset < self.block_size
    }

    /// End offset of the block in flight.
    pub open spec fn block_end(self) -> int {
        if self.is_last() { self.file_len as int } else { self.offset + self.block_size }
    }

    pub open spec fn data_action(self) -> Action {
        Action::SendData {
            block: self.block,
            start: self.offset,
            end: self.block_end() as usize,
            copies: self.duplicates,
        }
    }

    /// The session still waits on its peer.
    pub open spec fn is_live(self) -> bool {
        self.phase == Phase::Negotiating || self.phase == Phase::Sending
    }

    /// The state that follows an ACK numbered `n`, and what to send.
    pub open spec fn ack_spec(self, n: u16) -> (Session, Action) {
        if self.phase == Phase::Negotiating {
            if n == 0 {
                let s = Session { phase: Phase::Sending, retries: 0, ..self };
                (s, s.data_action())
            } else {
                (Session { phase: Phase::Failed, ..self }, Action::SendError { code: ILLEGAL_OPERATION })
            }
        } else if self.phase != Phase::Sending {
            (self, Action::Idle)
        } else if n == self.block {
            if self.is_last() {
                (Session { phase: Phase::Completed, ..self }, Action::Done)
            } else {
                let s = Session {
                    offset: (self.offset + self.block_size) as usize,
                    block: next_block(self.block),
                    retries: 0,
                    ..self
                };
                (s, s.data_action())
            }
        } else if is_behind(n, self.block) {
            (self, Action::Idle)
        } else {
            (Session { phase: Phase::Failed, ..self }, Action::SendError { code: ILLEGAL_OPERATION })
        }
    }

    /// The state that follows a timeout while waiting for an ACK.
    pub open spec fn timeout_spec(self) -> (Session, Action) {
        if !self.is_live() {
            (self, Action::Idle)
        } else if self.retries < self.max_retries {
            (
                Session { retries: (self.retries + 1) as u32, ..self },
                if self.phase == Phase::Negotiating {
                    Action::SendOptionAck { copies: self.duplicates }
                } else {
                    self.data_action()
                },
            )
        } else {
            (Session { phase: Phase::Failed, ..self }, Action::SendError { code: NOT_DEFINED })
        }
    }

    /// A session about to send the first block of a file of `file_len` bytes.
    pub fn new(file_len: usize, block_size: usize, max_retries: u32, duplicates: u8) -> (r: Session)
        requires
            block_size > 0,
            duplicates >= 1,
        ensures
            r.wf(),
            r == (Session {
                file_len,
                block_size,
                offset: 0,
                block: 1,
                retries: 0,
                max_retries,
                duplicates,
                phase: Phase::Sending,
            }),
    {
        Session {
            file_len,
            block_size,
            offset: 0,
            block: 1,
            retries: 0,
            max_retries,
            duplicates,
            phase: Phase::Sending,
        }
    }

    /// A session whose request carried options that were accepted: it sends
    /// an OACK and waits for ACK 0 before the first block.
    pub fn negotiated(file_len: usize, block_size: usize, max_retries: u32, duplicates: u8) -> (r:
        Session)
        requires
            block_size > 0,
            duplicates >= 1,
        ensures
            r.wf(),
            r == (Session {
                file_len,
                block_size,
                offset: 0,
                block: 1,
                retries: 0,
                max_retries,
                duplicates,
                phase: Phase::Negotiating,
            }),
    {
        Session {
            file_len,
            block_size,
            offset: 0,
            block: 1,
            retries: 0,
            max_retries,
            duplicates,
            phase: Phase::Negotiating,
        }
    }

    /// What to send first: the OACK while negotiating, else the block in
    /// flight.
    pub fn first_action(&self) -> (r: Action)
        requires
            self.wf(),
        ensures
            r == (if self.phase == Phase::Negotiating {
                Action::SendOptionAck { copies: self.duplicates }
            } else {
                self.data_action()
            }),
    {
        if self.phase == Phase::Negotiating {
            Action::SendOptionAck { copies: self.duplicates }
        } else {
            self.current_data()
        }
    }

    /// The DATA packet for the block in flight.
    pub fn current_data(&self) -> (r: Action)
        requires
            self.wf(),
        ensures
            r == self.data_action(),
    {
        let end = if self.file_len - self.offset < self.block_size {
            self.file_len
        } else {
            self.offset + self.block_size
        };
        Action::SendData { block: self.block, start: self.offset, end, copies: self.duplicates }
    }

    /// Handles an ACK numbered `n` from the peer.
    pub fn on_ack(&mut self, n: u16) -> (r: Action)
        requires
            old(self).wf(),
        ensures
            final(self).wf(),
            (*final(self), r) == old(self).ack_spec(n),
    {
        if self.phase == Phase::Negotiating {
            if n == 0 {
                self.phase = Phase::Sending;
                self.retries = 0;
                self.current_data()
            } else {
                self.phase = Phase::Failed;
                Action::SendError { code: ILLEGAL_OPERATION }
            }
        } else if self.phase != Phase::Sending {
            Action::Idle
        } else if n == self.block {
            if self.file_len - self.offset < self.block_size {
                self.phase = Phase::Completed;
                Action::Done
            } else {
                self.offset = self.offset + self.block_size;
                self.block = if self.block == 65535 { 0 } else { self.block + 1 };
                self.retries = 0;
                self.current_data()
            }
        } else if behind(n, self.block) {
            Action::Idle
        } else {
            self.phase = Phase::Failed;
            Action::SendError { code: ILLEGAL_OPERATION }
        }
    }

    /// Handles the expiry of the wait for an ACK.
    pub fn on_timeout(&mut self) -> (r: Action)
        requires
            old(self).wf(),
        ensures
            final(self).wf(),
            (*final(self), r) == old(self).timeout_spec(),
    {
        if self.phase != Phase::Sending && self.phase != Phase::Negotiating {
            Action::Idle
        } else if self.retries < self.max_retries {
            let a = self.first_action();
            self.retries = self.retries + 1;
            a
        } else {
            self.phase = Phase::Failed;
            Action::SendError { code: NOT_DEFINED }
        }
    }

    /// Handles an ERROR packet from the peer: the transfer ends.
    pub fn on_error(&mut self)
        requires
            old(self).wf(),
        ensures
            final(self).wf(),
            *final(self) == (Session {
                phase: if old(self).is_live() {
                    Phase::Failed
                } else {
                    old(self).phase
                },
                ..*old(self)
            }),
    {
        if self.phase == Phase::Sending || self.phase == Phase::Negotiating {
            self.phase = Phase::Failed;
        }
    }
}

/// The bytes a peer receives from state `s` on when it acknowledges every
/// block as soon as it arrives.
pub open spec fn transfer(s: Session, file: Seq<u8>) -> Seq<u8>
    decreases s.file_len - s.offset,
{
    if !s.wf() || s.phase != Phase::Sending {
        Seq::empty()
    } else {
        let chunk = file.subrange(s.offset as int, s.block_end());
        if s.is_last() {
            chunk
        } else {
            chunk + transfer(s.ack_spec(s.block).0, file)
        }
    }
}

/// From any point of a transfer, acknowledging every block in turn delivers
/// exactly the rest of the file.
pub proof fn lemma_transfer_delivers_rest(s: Session, file: Seq<u8>)
    requires
        s.wf(),
        s.phase == Phase::Sending,
        file.len() == s.file_len,
    ensures
        transfer(s, file) == file.subrange(s.offset as int, file.len() as int),
    decreases s.file_len - s.offset,
{
    if !s.is_last() {
        let t = s.ack_spec(s.block).0;
        lemma_transfer_delivers_rest(t, file);
        assert(file.subrange(s.offset as int, t.offset as int) + file.subrange(
            t.offset as int,
            file.len() as int,
        ) =~= file.subrange(s.offset as int, file.len() as int));
    }
}

/// A complete download through a fresh session reproduces the file's exact
/// bytes, whatever its size and the block size.
pub proof fn lemma_download_reproduces_file(
    file: Seq<u8>,
    block_size: usize,
    max_retries: u32,
    duplicates: u8,
)
    requires
        block_size > 0,
        duplicates >= 1,
        file.len() <= usize::MAX,
    ensures
        transfer(
            Session {
                file_len: file.len() as usize,
                block_size,
                offset: 0,
                block: 1,
                retries: 0,
                max_retries,
                duplicates,
                phase: Phase::Sending,
            },
            file,
        ) == file,
{
    let s = Session {
        file_len: file.len() as usize,
        block_size,
        offset: 0,
        block: 1,
        retries: 0,
        max_retries,
        duplicates,
        phase: Phase::Sending,
    };
    lemma_transfer_delivers_rest(s, file);
    assert(file.subrange(0, file.len() as int) =~= file);
}

/// The state after the same ACK came in `k` times in a row.
pub open spec fn acks_times(s: Session, n: u16, k: nat) -> Session
    decreases k,
{
    if k == 0 {
        s
    } else {
        acks_times(s, n, (k - 1) as nat).ack_spec(n).0
    }
}

/// An ACK for the block in flight that arrives any number of times in a
/// row is taken once: the copies after the first are stale, also across the
/// wrap from block 65535 to 0.
pub proof fn lemma_repeated_ack_taken_once(s: Session, k: nat)
    requires
        s.wf(),
        s.phase == Phase::Sending,
        k >= 1,
    ensures
        acks_times(s, s.block, k) == s.ack_spec(s.block).0,
        k >= 2 ==> acks_times(s, s.block, (k - 1) as nat).ack_spec(s.block).1 == Action::Idle,
    decreases k,
{
    assert(acks_times(s, s.block, 0) == s);
    if k > 1 {
        lemma_repeated_ack_taken_once(s, (k - 1) as nat);
    }
}

/// Lengths of the DATA payloads sent from state `s` on, in order, when every
/// block is acknowledged as soon as it arrives.
pub open spec fn payload_lengths(s: Session) -> Seq<int>
    decreases s.file_len - s.offset,
{
    if !s.wf() || s.phase != Phase::Sending {
        Seq::empty()
    } else if s.is_last() {
        seq![s.file_len - s.offset]
    } else {
        seq![s.block_size as int] + payload_lengths(s.ack_spec(s.block).0)
    }
}

proof fn lemma_layout_rest(s: Session)
    requires
        s.wf(),
        s.phase == Phase::Sending,
    ensures
        ({
            let x = s.file_len - s.offset;
            let l = payload_lengths(s);
            &&& l.len() == x / (s.block_size as int) + 1
            &&& l.last() == x % (s.block_size as int)
            &&& forall|i: int| 0 <= i < l.len() - 1 ==> l[i] == s.block_size
        }),
    decreases s.file_len - s.offset,
{
    let x = s.file_len - s.offset;
    let d = s.block_size as int;
    if s.is_last() {
        vstd::arithmetic::div_mod::lemma_basic_div(x, d);
        vstd::arithmetic::div_mod::lemma_small_mod(x as nat, d as nat);
    } else {
        let t = s.ack_spec(s.block).0;
        lemma_layout_rest(t);
        vstd::arithmetic::div_mod::lemma_div_plus_one(x - d, d);
        vstd::arithmetic::div_mod::lemma_mod_sub_multiples_vanish(x, d);
        let l = payload_lengths(s);
        let lt = payload_lengths(t);
        assert(l == seq![d] + lt);
        assert forall|i: int| 0 <= i < l.len() - 1 implies l[i] == s.block_size by {
            if i > 0 {
                assert(l[i] == lt[i - 1]);
            }
        }
    }
}

/// A download of a file of `L` bytes in blocks of `B` bytes takes
/// `L / B + 1` DATA packets: every one full but the last, which holds
/// `L % B` bytes (none when `B` divides `L`).
pub proof fn lemma_block_layout(file_len: usize, block_size: usize, max_retries: u32, duplicates: u8)
    requires
        block_size > 0,
        duplicates >= 1,
    ensures
        ({
            let l = payload_lengths(
                Session {
                    file_len,
                    block_size,
                    offset: 0,
                    block: 1,
                    retries: 0,
                    max_retries,
                    duplicates,
                    phase: Phase::Sending,
                },
            );
            &&& l.len() == file_len / block_size + 1
            &&& l.last() == file_len % block_size
            &&& forall|i: int| 0 <= i < l.len() - 1 ==> l[i] == block_size
        }),
{
    lemma_layout_rest(
        Session {
            file_len,
            block_size,
            offset: 0,
            block: 1,
            retries: 0,
            max_retries,
            duplicates,
            phase: Phase::Sending,
        },
    );
}

/// The state after `k` timeouts in a row.
pub open spec fn after_timeouts(s: Session, k: nat) -> Session
    decreases k,
{
    if k == 0 {
        s
    } else {
        after_timeouts(s, (k - 1) as nat).timeout_spec().0
    }
}

/// A session that never hears an ACK resends its block at each of the first
/// `max_retries` timeouts and fails at the next one: it never retries without
/// end.
pub proof fn lemma_retries_exhaust(s: Session, k: nat)
    requires
        s.wf(),
        s.phase == Phase::Sending,
        s.retries == 0,
        k <= s.max_retries,
    ensures
        after_timeouts(s, k) == (Session { retries: k as u32, ..s }),
        k < s.max_retries ==> after_timeouts(s, k).timeout_spec().1 == s.data_action(),
        k == s.max_retries ==> after_timeouts(s, k).timeout_spec() == (
        Session { phase: Phase::Failed, retries: k as u32, ..s },
        Action::SendError { code: NOT_DEFINED },
        ),
    decreases k,
{
    if k > 0 {
        lemma_retries_exhaust(s, (k - 1) as nat);
    }
}

} // verus!
