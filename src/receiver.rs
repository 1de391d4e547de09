//! One download, receiver side: DATA packets in, ACK numbers out. Copies of
//! a packet already taken are acknowledged again and otherwise ignored, so
//! a sender that repeats its packets yields each block once.
use vstd::prelude::*;
use crate::session::{acks_times, lemma_repeated_ack_taken_once, next_block, Phase, Session};

verus! {

pub struct Receiver {
    /// Wire number of the block awaited next.
    pub expected: u16,
    pub block_size: usize,
    /// The file so far.
    pub data: Vec<u8>,
    /// A short block came in: the file is complete.
    pub done: bool,
}

pub struct ReceiverModel {
    pub expected: u16,
    pub block_size: usize,
    pub data: Seq<u8>,
    pub done: bool,
}

impl View for Receiver {
    type V = ReceiverModel;

    open spec fn view(&self) -> ReceiverModel {
        ReceiverModel {
            expected: self.expected,
            block_size: self.block_size,
            data: self.data@,
            done: self.done,
        }
    }
}

/// The state after a DATA packet numbered `block`, and the ACK to send.
pub open spec fn receive_spec(r: ReceiverModel, block: u16, payload: Seq<u8>) -> (
    ReceiverModel,
    Option<u16>,
) {
    if !r.done && block == r.expected {
        (
            ReceiverModel {
                expected: next_block(r.expected),
                data: r.data + payload,
                done: payload.len() < r.block_size,
                ..r
            },
            Some(block),
        )
    } else if next_block(block) == r.expected {
        (r, Some(block))
    } else {
        (r, None)
    }
}

/// The state after the same DATA packet came in `k` times in a row.
pub open spec fn receive_times(r: ReceiverModel, block: u16, payload: Seq<u8>, k: nat) -> ReceiverModel
    decreases k,
{
    if k == 0 {
        r
    } else {
        receive_spec(receive_times(r, block, payload, (k - 1) as nat), block, payload).0
    }
}

impl Receiver {
    pub fn new(block_size: usize) -> (r: Receiver)
        ensures
            r@ == (ReceiverModel { expected: 1, block_size, data: Seq::empty(), done: false }),
    {
        Receiver { expected: 1, block_size, data: Vec::new(), done: false }
    }

    /// Takes a DATA packet; returns the block number to acknowledge, if any.
    pub fn on_data(&mut self, block: u16, payload: &[u8]) -> (r: Option<u16>)
        ensures
            (final(self)@, r) == receive_spec(old(self)@, block, payload@),
    {
        if !self.done && block == self.expected {
            let mut k: usize = 0;
            let ghost start = self.data@;
            while k < payload.len()
                invariant
                    k <= payload@.len(),
                    self.data@ == start + payload@.subrange(0, k as int),
                    self.expected == old(self).expected,
                    self.block_size == old(self).block_size,
                    !self.done,
                    start == old(self).data@,
                    block == self.expected,
                decreases payload@.len() - k,
            {
                self.data.push(payload[k]);
                k = k + 1;
                assert(self.data@ =~= start + payload@.subrange(0, k as int));
            }
            assert(payload@.subrange(0, payload@.len() as int) =~= payload@);
            self.expected = if self.expected == 65535 { 0 } else { self.expected + 1 };
            self.done = payload.len() < self.block_size;
            Some(block)
        } else if (if block == 65535 { 0 } else { block + 1 }) == self.expected {
            Some(block)
        } else {
            None
        }
    }
}

/// A DATA packet that arrives any number of times in a row is taken once:
/// the receiver ends as after its first copy, and every later copy is
/// acknowledged again.
pub proof fn lemma_repeated_packet_taken_once(r: ReceiverModel, block: u16, payload: Seq<u8>, k: nat)
    requires
        k >= 1,
    ensures
        receive_times(r, block, payload, k) == receive_spec(r, block, payload).0,
        k >= 2 ==> receive_spec(receive_times(r, block, payload, (k - 1) as nat), block, payload).1
            == receive_spec(r, block, payload).1,
    decreases k,
{
    assert(receive_times(r, block, payload, 0) == r);
    if k > 1 {
        lemma_repeated_packet_taken_once(r, block, payload, (k - 1) as nat);
    }
}

/// Sender and receiver after the rest of a transfer from sender state `s`:
/// each block goes out as many times as the sender sends it, every copy
/// reaches the receiver, and every ACK the receiver gives back reaches the
/// sender. The model stops where the sender stops moving forward.
pub open spec fn receive_transfer(s: Session, r: ReceiverModel, file: Seq<u8>) -> (
    Session,
    ReceiverModel,
)
    decreases s.file_len - s.offset,
{
    if !s.wf() || s.phase != Phase::Sending {
        (s, r)
    } else {
        let p = file.subrange(s.offset as int, s.block_end());
        let r1 = receive_times(r, s.block, p, s.duplicates as nat);
        let s1 = acks_times(s, s.block, s.duplicates as nat);
        if s1.phase == Phase::Sending && s1.file_len == s.file_len && s.offset < s1.offset
            <= s1.file_len {
            receive_transfer(s1, r1, file)
        } else {
            (s1, r1)
        }
    }
}

proof fn lemma_receive_rest(s: Session, r: ReceiverModel, file: Seq<u8>)
    requires
        s.wf(),
        s.phase == Phase::Sending,
        file.len() == s.file_len,
        !r.done,
        r.expected == s.block,
        r.block_size == s.block_size,
    ensures
        receive_transfer(s, r, file).1.data == r.data + file.subrange(
            s.offset as int,
            file.len() as int,
        ),
        receive_transfer(s, r, file).1.done,
        receive_transfer(s, r, file).0.phase == Phase::Completed,
    decreases s.file_len - s.offset,
{
    let p = file.subrange(s.offset as int, s.block_end());
    lemma_repeated_packet_taken_once(r, s.block, p, s.duplicates as nat);
    lemma_repeated_ack_taken_once(s, s.duplicates as nat);
    let r1 = receive_times(r, s.block, p, s.duplicates as nat);
    if s.is_last() {
        assert(p =~= file.subrange(s.offset as int, file.len() as int));
    } else {
        let t = s.ack_spec(s.block).0;
        lemma_receive_rest(t, r1, file);
        assert(r.data + p + file.subrange(t.offset as int, file.len() as int) =~= r.data
            + file.subrange(s.offset as int, file.len() as int));
    }
}

/// A fresh receiver fed a whole transfer from a fresh session, every DATA
/// packet arriving as many times as the session sends it and every one of
/// the receiver's ACKs, repeats included, going back to the session, ends
/// complete with exactly the file's bytes, and the session ends completed:
/// repeated copies never repeat data nor break the transfer, whatever the
/// file's size.
pub proof fn lemma_duplicated_transfer_reassembles(
    file: Seq<u8>,
    block_size: usize,
    max_retries: u32,
    duplicates: u8,
)
    requires
        block_size > 0,
        duplicates >= 1,
        file.len() <= usize::MAX,
    ensures
        ({
            let (s, r) = receive_transfer(
                Session {
                    file_len: file.len() as usize,
                    block_size,
                    offset: 0,
                    block: 1,
                    retries: 0,
                    max_retries,
                    duplicates,
                    phase: Phase::Sending,
                },
                ReceiverModel { expected: 1, block_size, data: Seq::empty(), done: false },
                file,
            );
            r.data == file && r.done && s.phase == Phase::Completed
        }),
{
    let s = Session {
        file_len: file.len() as usize,
        block_size,
        offset: 0,
        block: 1,
        retries: 0,
        max_retries,
        duplicates,
        phase: Phase::Sending,
    };
    let r = ReceiverModel { expected: 1, block_size, data: Seq::empty(), done: false };
    lemma_receive_rest(s, r, file);
    assert(Seq::<u8>::empty() + file.subrange(0, file.len() as int) =~= file);
}

} // verus!
