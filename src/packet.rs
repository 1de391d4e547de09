//! TFTP wire format: a 2-byte big-endian opcode, then the opcode's fields.
//! Strings are NUL-terminated; options are NUL-terminated name/value pairs
//! running to the end of the packet.
use vstd::prelude::*;

verus! {

pub const OP_READ: u16 = 1;
pub const OP_WRITE: u16 = 2;
pub const OP_DATA: u16 = 3;
pub const OP_ACK: u16 = 4;
pub const OP_ERROR: u16 = 5;
pub const OP_OPTION_ACK: u16 = 6;

/// A negotiated option, such as `blksize` = `1024`.
#[derive(Debug, Clone, PartialEq, Eq)]
pub struct TransferOption {
    pub name: Vec<u8>,
    pub value: Vec<u8>,
}

#[derive(Debug, Clone, PartialEq, Eq)]
pub enum TftpMessage {
    ReadRequest { filename: Vec<u8>, mode: Vec<u8>, options: Vec<TransferOption> },
    WriteRequest { filename: Vec<u8>, mode: Vec<u8>, options: Vec<TransferOption> },
    Data { block: u16, payload: Vec<u8> },
    Ack { block: u16 },
    Error { code: u16, message: Vec<u8> },
    OptionAck { options: Vec<TransferOption> },
}

/// A message as a mathematical value.
pub enum PacketModel {
    ReadRequest { filename: Seq<u8>, mode: Seq<u8>, options: Seq<(Seq<u8>, Seq<u8>)> },
    WriteRequest { filename: Seq<u8>, mode: Seq<u8>, options: Seq<(Seq<u8>, Seq<u8>)> },
    Data { block: u16, payload: Seq<u8> },
    Ack { block: u16 },
    Error { code: u16, message: Seq<u8> },
    OptionAck { options: Seq<(Seq<u8>, Seq<u8>)> },
}

/// Why bytes are not a message.
#[derive(Debug, Clone, Copy, PartialEq, Eq, Structural)]
pub enum DecodeError {
    MalformedPacket,
}

/// Why a message cannot be put on the wire.
#[derive(Debug, Clone, Copy, PartialEq, Eq, Structural)]
pub enum EncodeError {
    /// A DATA payload longer than the block size in force.
    PayloadTooLarge,
}

pub open spec fn options_model(o: Seq<TransferOption>) -> Seq<(Seq<u8>, Seq<u8>)> {
    o.map_values(|t: TransferOption| (t.name@, t.value@))
}

impl View for TftpMessage {
    type V = PacketModel;

    open spec fn view(&self) -> PacketModel {
        match self {
            TftpMessage::ReadRequest { filename, mode, options } => PacketModel::ReadRequest {
                filename: filename@,
                mode: mode@,
                options: options_model(options@),
            },
            TftpMessage::WriteRequest { filename, mode, options } => PacketModel::WriteRequest {
                filename: filename@,
                mode: mode@,
                options: options_model(options@),
            },
            TftpMessage::Data { block, payload } => PacketModel::Data {
                block: *block,
                payload: payload@,
            },
            TftpMessage::Ack { block } => PacketModel::Ack { block: *block },
            TftpMessage::Error { code, message } => PacketModel::Error {
                code: *code,
                message: message@,
            },
            TftpMessage::OptionAck { options } => PacketModel::OptionAck {
                options: options_model(options@),
            },
        }
    }
}

pub open spec fn be16(n: u16) -> Seq<u8> {
    seq![(n / 256) as u8, (n % 256) as u8]
}

pub open spec fn cstr(s: Seq<u8>) -> Seq<u8> {
    s.push(0u8)
}

pub open spec fn nul_free(s: Seq<u8>) -> bool {
    forall|i: int| 0 <= i < s.len() ==> s[i] != 0
}

pub open spec fn options_wire(o: Seq<(Seq<u8>, Seq<u8>)>) -> Seq<u8>
    decreases o.len(),
{
    if o.len() == 0 {
        Seq::empty()
    } else {
        options_wire(o.drop_last()) + cstr(o.last().0) + cstr(o.last().1)
    }
}

pub open spec fn options_nul_free(o: Seq<(Seq<u8>, Seq<u8>)>) -> bool {
    forall|i: int| 0 <= i < o.len() ==> nul_free(#[trigger] o[i].0) && nul_free(o[i].1)
}

/// The bytes of a message on the wire.
pub open spec fn wire(m: PacketModel) -> Seq<u8> {
    match m {
        PacketModel::ReadRequest { filename, mode, options } => be16(OP_READ) + cstr(filename)
            + cstr(mode) + options_wire(options),
        PacketModel::WriteRequest { filename, mode, options } => be16(OP_WRITE) + cstr(filename)
            + cstr(mode) + options_wire(options),
        PacketModel::Data { block, payload } => be16(OP_DATA) + be16(block) + payload,
        PacketModel::Ack { block } => be16(OP_ACK) + be16(block),
        PacketModel::Error { code, message } => be16(OP_ERROR) + be16(code) + cstr(message),
        PacketModel::OptionAck { options } => be16(OP_OPTION_ACK) + options_wire(options),
    }
}

/// A message whose strings hold no NUL, so that its wire form reads back.
pub open spec fn encodable(m: PacketModel) -> bool {
    match m {
        PacketModel::ReadRequest { filename, mode, options } => nul_free(filename) && nul_free(
            mode,
        ) && options_nul_free(options),
        PacketModel::WriteRequest { filename, mode, options } => nul_free(filename) && nul_free(
            mode,
        ) && options_nul_free(options),
        PacketModel::Data { .. } => true,
        PacketModel::Ack { .. } => true,
        PacketModel::Error { message, .. } => nul_free(message),
        PacketModel::OptionAck { options } => options_nul_free(options),
    }
}

/// Index of the first NUL at or after `i`, or `b.len()` where there is none.
pub open spec fn nul_from(b: Seq<u8>, i: int) -> int
    decreases b.len() - i,
{
    if i >= b.len() {
        b.len() as int
    } else if b[i] == 0 {
        i
    } else {
        nul_from(b, i + 1)
    }
}

/// Reads name/value pairs from `i` to the end of `b`, after those in `acc`.
pub open spec fn parse_options(b: Seq<u8>, i: int, acc: Seq<(Seq<u8>, Seq<u8>)>) -> Option<
    Seq<(Seq<u8>, Seq<u8>)>,
>
    decreases b.len() - i,
{
    if i >= b.len() {
        Some(acc)
    } else {
        let k = nul_from(b, i);
        let v = nul_from(b, k + 1);
        if k < i || v <= k || v >= b.len() {
            None
        } else {
            parse_options(b, v + 1, acc.push((b.subrange(i, k), b.subrange(k + 1, v))))
        }
    }
}

pub open spec fn opcode_of(b: Seq<u8>) -> int {
    b[0] * 256 + b[1]
}

/// The request fields after the opcode: filename, mode and options.
pub open spec fn parse_request(b: Seq<u8>) -> Option<(Seq<u8>, Seq<u8>, Seq<(Seq<u8>, Seq<u8>)>)> {
    let f = nul_from(b, 2);
    let m = nul_from(b, f + 1);
    if f < 2 || m <= f || m >= b.len() {
        None
    } else {
        match parse_options(b, m + 1, Seq::empty()) {
            Some(o) => Some((b.subrange(2, f), b.subrange(f + 1, m), o)),
            None => None,
        }
    }
}

/// The message that bytes encode, if they encode one.
pub open spec fn parse(b: Seq<u8>) -> Option<PacketModel> {
    if b.len() < 2 {
        None
    } else if opcode_of(b) == OP_READ || opcode_of(b) == OP_WRITE {
        match parse_request(b) {
            Some((filename, mode, options)) => Some(
                if opcode_of(b) == OP_READ {
                    PacketModel::ReadRequest { filename, mode, options }
                } else {
                    PacketModel::WriteRequest { filename, mode, options }
                },
            ),
            None => None,
        }
    } else if opcode_of(b) == OP_DATA {
        if b.len() < 4 {
            None
        } else {
            Some(
                PacketModel::Data {
                    block: (b[2] * 256 + b[3]) as u16,
                    payload: b.subrange(4, b.len() as int),
                },
            )
        }
    } else if opcode_of(b) == OP_ACK {
        if b.len() != 4 {
            None
        } else {
            Some(PacketModel::Ack { block: (b[2] * 256 + b[3]) as u16 })
        }
    } else if opcode_of(b) == OP_ERROR {
        if b.len() < 5 || nul_from(b, 4) != b.len() - 1 {
            None
        } else {
            Some(
                PacketModel::Error {
                    code: (b[2] * 256 + b[3]) as u16,
                    message: b.subrange(4, b.len() - 1),
                },
            )
        }
    } else if opcode_of(b) == OP_OPTION_ACK {
        match parse_options(b, 2, Seq::empty()) {
            Some(options) => Some(PacketModel::OptionAck { options }),
            None => None,
        }
    } else {
        None
    }
}

/// Position of the first NUL at or after `i`, or `b.len()`.
fn find_nul(b: &[u8], i: usize) -> (r: usize)
    requires
        i <= b@.len(),
    ensures
        r == nul_from(b@, i as int),
        i <= r <= b@.len(),
{
    let mut k = i;
    while k < b.len() && b[k] != 0
        invariant
            i <= k <= b@.len(),
            nul_from(b@, i as int) == nul_from(b@, k as int),
        decreases b@.len() - k,
    {
        k = k + 1;
    }
    k
}

/// A copy of `b[start..end]`.
fn copy_range(b: &[u8], start: usize, end: usize) -> (r: Vec<u8>)
    requires
        start <= end <= b@.len(),
    ensures
        r@ == b@.subrange(start as int, end as int),
{
    let mut out: Vec<u8> = Vec::new();
    let mut k = start;
    while k < end
        invariant
            start <= k <= end <= b@.len(),
            out@ == b@.subrange(start as int, k as int),
        decreases end - k,
    {
        out.push(b[k]);
        k = k + 1;
    }
    out
}

fn decode_options(b: &[u8], start: usize) -> (r: Option<Vec<TransferOption>>)
    requires
        start <= b@.len(),
    ensures
        match r {
            Some(v) => parse_options(b@, start as int, Seq::empty()) == Some(options_model(v@)),
            None => parse_options(b@, start as int, Seq::empty()) is None,
        },
{
    let mut out: Vec<TransferOption> = Vec::new();
    let mut i = start;
    assert(options_model(out@) =~= Seq::empty());
    while i < b.len()
        invariant
            i <= b@.len(),
            parse_options(b@, start as int, Seq::empty()) == parse_options(
                b@,
                i as int,
                options_model(out@),
            ),
        decreases b@.len() - i,
    {
        let k = find_nul(b, i);
        if k >= b.len() {
            return None;
        }
        let v = find_nul(b, k + 1);
        if v >= b.len() {
            return None;
        }
        let name = copy_range(b, i, k);
        let value = copy_range(b, k + 1, v);
        let opt = TransferOption { name, value };
        proof {
            assert(options_model(out@.push(opt)) =~= options_model(out@).push(
                (opt.name@, opt.value@),
            ));
        }
        out.push(opt);
        i = v + 1;
    }
    Some(out)
}

fn read_be16(hi: u8, lo: u8) -> (r: u16)
    ensures
        r == hi * 256 + lo,
{
    (hi as u16) * 256 + (lo as u16)
}

/// Reads one message from a datagram. Never panics: anything that is not a
/// well-formed message is `MalformedPacket`.
pub fn decode(b: &[u8]) -> (r: Result<TftpMessage, DecodeError>)
    ensures
        match r {
            Ok(m) => parse(b@) == Some(m@),
            Err(e) => parse(b@) is None && e == DecodeError::MalformedPacket,
        },
{
    if b.len() < 2 {
        return Err(DecodeError::MalformedPacket);
    }
    let op = read_be16(b[0], b[1]);
    if op == OP_READ || op == OP_WRITE {
        let f = find_nul(b, 2);
        if f >= b.len() {
            return Err(DecodeError::MalformedPacket);
        }
        let m = find_nul(b, f + 1);
        if m >= b.len() {
            return Err(DecodeError::MalformedPacket);
        }
        let options = match decode_options(b, m + 1) {
            Some(o) => o,
            None => {
                return Err(DecodeError::MalformedPacket);
            },
        };
        let filename = copy_range(b, 2, f);
        let mode = copy_range(b, f + 1, m);
        if op == OP_READ {
            Ok(TftpMessage::ReadRequest { filename, mode, options })
        } else {
            Ok(TftpMessage::WriteRequest { filename, mode, options })
        }
    } else if op == OP_DATA {
        if b.len() < 4 {
            return Err(DecodeError::MalformedPacket);
        }
        let payload = copy_range(b, 4, b.len());
        Ok(TftpMessage::Data { block: read_be16(b[2], b[3]), payload })
    } else if op == OP_ACK {
        if b.len() != 4 {
            return Err(DecodeError::MalformedPacket);
        }
        Ok(TftpMessage::Ack { block: read_be16(b[2], b[3]) })
    } else if op == OP_ERROR {
        if b.len() < 5 {
            return Err(DecodeError::MalformedPacket);
        }
        let n = find_nul(b, 4);
        if n != b.len() - 1 {
            return Err(DecodeError::MalformedPacket);
        }
        let message = copy_range(b, 4, n);
        Ok(TftpMessage::Error { code: read_be16(b[2], b[3]), message })
    } else if op == OP_OPTION_ACK {
        match decode_options(b, 2) {
            Some(options) => Ok(TftpMessage::OptionAck { options }),
            None => Err(DecodeError::MalformedPacket),
        }
    } else {
        Err(DecodeError::MalformedPacket)
    }
}

fn push_be16(out: &mut Vec<u8>, n: u16)
    ensures
        final(out)@ == old(out)@ + be16(n),
{
    out.push((n / 256) as u8);
    out.push((n % 256) as u8);
    assert(final(out)@ =~= old(out)@ + be16(n));
}

fn push_bytes(out: &mut Vec<u8>, s: &Vec<u8>)
    ensures
        final(out)@ == old(out)@ + s@,
{
    let ghost start = out@;
    let mut k: usize = 0;
    while k < s.len()
        invariant
            k <= s@.len(),
            out@ == start + s@.subrange(0, k as int),
        decreases s@.len() - k,
    {
        out.push(s[k]);
        k = k + 1;
        assert(out@ =~= start + s@.subrange(0, k as int));
    }
    assert(s@.subrange(0, s@.len() as int) =~= s@);
}

fn push_cstr(out: &mut Vec<u8>, s: &Vec<u8>)
    ensures
        final(out)@ == old(out)@ + cstr(s@),
{
    let ghost start = out@;
    push_bytes(out, s);
    out.push(0u8);
    assert(out@ =~= start + cstr(s@));
}

fn push_options(out: &mut Vec<u8>, o: &Vec<TransferOption>)
    ensures
        final(out)@ == old(out)@ + options_wire(options_model(o@)),
{
    let ghost start = out@;
    let ghost model = options_model(o@);
    let mut k: usize = 0;
    assert(options_wire(model.take(0)) =~= Seq::empty());
    assert(out@ =~= start + options_wire(model.take(0)));
    while k < o.len()
        invariant
            k <= o@.len(),
            model == options_model(o@),
            out@ == start + options_wire(model.take(k as int)),
        decreases o@.len() - k,
    {
        let ghost before = out@;
        push_cstr(out, &o[k].name);
        push_cstr(out, &o[k].value);
        proof {
            let t = model.take(k + 1);
            assert(t.drop_last() =~= model.take(k as int));
            assert(t.last() == (o@[k as int].name@, o@[k as int].value@));
            assert(out@ =~= start + options_wire(t));
        }
        k = k + 1;
    }
    assert(model.take(o@.len() as int) =~= model);
}

/// A DATA message whose payload exceeds the block size in force.
pub open spec fn oversized(m: PacketModel, block_size: usize) -> bool {
    match m {
        PacketModel::Data { payload, .. } => payload.len() > block_size,
        _ => false,
    }
}

/// Puts a message on the wire. A DATA payload may not exceed `block_size`.
pub fn encode(m: &TftpMessage, block_size: usize) -> (r: Result<Vec<u8>, EncodeError>)
    ensures
        match r {
            Ok(v) => !oversized(m@, block_size) && v@ == wire(m@),
            Err(e) => oversized(m@, block_size) && e == EncodeError::PayloadTooLarge,
        },
{
    let mut out: Vec<u8> = Vec::new();
    match m {
        TftpMessage::ReadRequest { filename, mode, options } => {
            push_be16(&mut out, OP_READ);
            push_cstr(&mut out, filename);
            push_cstr(&mut out, mode);
            push_options(&mut out, options);
        },
        TftpMessage::WriteRequest { filename, mode, options } => {
            push_be16(&mut out, OP_WRITE);
            push_cstr(&mut out, filename);
            push_cstr(&mut out, mode);
            push_options(&mut out, options);
        },
        TftpMessage::Data { block, payload } => {
            if payload.len() > block_size {
                return Err(EncodeError::PayloadTooLarge);
            }
            push_be16(&mut out, OP_DATA);
            push_be16(&mut out, *block);
            push_bytes(&mut out, payload);
        },
        TftpMessage::Ack { block } => {
            push_be16(&mut out, OP_ACK);
            push_be16(&mut out, *block);
        },
        TftpMessage::Error { code, message } => {
            push_be16(&mut out, OP_ERROR);
            push_be16(&mut out, *code);
            push_cstr(&mut out, message);
        },
        TftpMessage::OptionAck { options } => {
            push_be16(&mut out, OP_OPTION_ACK);
            push_options(&mut out, options);
        },
    }
    assert(out@ =~= wire(m@));
    Ok(out)
}

proof fn lemma_nul_at(b: Seq<u8>, i: int, k: int)
    requires
        0 <= i <= k < b.len(),
        b[k] == 0,
        forall|j: int| i <= j < k ==> b[j] != 0,
    ensures
        nul_from(b, i) == k,
    decreases k - i,
{
    if i < k {
        lemma_nul_at(b, i + 1, k);
    }
}

/// A NUL-free string followed by its terminator: the NUL sits right after it.
proof fn lemma_cstr_nul(pre: Seq<u8>, s: Seq<u8>, post: Seq<u8>)
    requires
        nul_free(s),
    ensures
        nul_from(pre + cstr(s) + post, pre.len() as int) == pre.len() + s.len(),
        (pre + cstr(s) + post).subrange(pre.len() as int, (pre.len() + s.len()) as int) == s,
{
    let b = pre + cstr(s) + post;
    assert forall|j: int| pre.len() <= j < pre.len() + s.len() implies b[j] != 0 by {
        assert(b[j] == s[j - pre.len()]);
    }
    lemma_nul_at(b, pre.len() as int, (pre.len() + s.len()) as int);
    assert(b.subrange(pre.len() as int, (pre.len() + s.len()) as int) =~= s);
}

proof fn lemma_options_wire_front(o: Seq<(Seq<u8>, Seq<u8>)>)
    requires
        o.len() > 0,
    ensures
        options_wire(o) == cstr(o[0].0) + cstr(o[0].1) + options_wire(o.drop_first()),
    decreases o.len(),
{
    if o.len() == 1 {
        assert(o.drop_last() =~= Seq::empty());
        assert(o.drop_first() =~= Seq::empty());
        assert(options_wire(o) =~= cstr(o[0].0) + cstr(o[0].1) + options_wire(o.drop_first()));
    } else {
        lemma_options_wire_front(o.drop_last());
        assert(o.drop_first().drop_last() =~= o.drop_last().drop_first());
        assert(options_wire(o) =~= cstr(o[0].0) + cstr(o[0].1) + options_wire(o.drop_first()));
    }
}

proof fn lemma_parse_options_wire(
    pre: Seq<u8>,
    o: Seq<(Seq<u8>, Seq<u8>)>,
    acc: Seq<(Seq<u8>, Seq<u8>)>,
)
    requires
        options_nul_free(o),
    ensures
        parse_options(pre + options_wire(o), pre.len() as int, acc) == Some(acc + o),
    decreases o.len(),
{
    let b = pre + options_wire(o);
    if o.len() == 0 {
        assert(acc + o =~= acc);
    } else {
        lemma_options_wire_front(o);
        let x = o[0];
        assert(nul_free(o[0].0) && nul_free(o[0].1));
        let rest = o.drop_first();
        let pre2 = pre + cstr(x.0) + cstr(x.1);
        assert(b =~= pre + cstr(x.0) + (cstr(x.1) + options_wire(rest)));
        lemma_cstr_nul(pre, x.0, cstr(x.1) + options_wire(rest));
        assert(b =~= (pre + cstr(x.0)) + cstr(x.1) + options_wire(rest));
        lemma_cstr_nul(pre + cstr(x.0), x.1, options_wire(rest));
        assert(b =~= pre2 + options_wire(rest));
        assert forall|i: int| 0 <= i < rest.len() implies nul_free(#[trigger] rest[i].0) && nul_free(
            rest[i].1,
        ) by {
            assert(rest[i] == o[i + 1]);
        }
        lemma_parse_options_wire(pre2, rest, acc.push(x));
        assert(acc.push(x) + rest =~= acc + o);
    }
}

/// Decoding the wire form of a message whose strings hold no NUL gives the
/// message back.
pub proof fn lemma_decode_encode(m: PacketModel)
    requires
        encodable(m),
    ensures
        parse(wire(m)) == Some(m),
{
    let b = wire(m);
    match m {
        PacketModel::ReadRequest { filename, mode, options } => {
            lemma_request_round_trip(be16(OP_READ), filename, mode, options);
        },
        PacketModel::WriteRequest { filename, mode, options } => {
            lemma_request_round_trip(be16(OP_WRITE), filename, mode, options);
        },
        PacketModel::Data { block, payload } => {
            assert(b.subrange(4, b.len() as int) =~= payload);
        },
        PacketModel::Ack { block } => {},
        PacketModel::Error { code, message } => {
            lemma_cstr_nul(be16(OP_ERROR) + be16(code), message, Seq::empty());
            assert(b =~= be16(OP_ERROR) + be16(code) + cstr(message) + Seq::empty());
        },
        PacketModel::OptionAck { options } => {
            lemma_parse_options_wire(be16(OP_OPTION_ACK), options, Seq::empty());
            assert(Seq::<(Seq<u8>, Seq<u8>)>::empty() + options =~= options);
        },
    }
}

proof fn lemma_request_round_trip(
    op: Seq<u8>,
    filename: Seq<u8>,
    mode: Seq<u8>,
    options: Seq<(Seq<u8>, Seq<u8>)>,
)
    requires
        op.len() == 2,
        nul_free(filename),
        nul_free(mode),
        options_nul_free(options),
    ensures
        parse_request(op + cstr(filename) + cstr(mode) + options_wire(options)) == Some(
            (filename, mode, options),
        ),
{
    let b = op + cstr(filename) + cstr(mode) + options_wire(options);
    assert(b =~= op + cstr(filename) + (cstr(mode) + options_wire(options)));
    lemma_cstr_nul(op, filename, cstr(mode) + options_wire(options));
    lemma_cstr_nul(op + cstr(filename), mode, options_wire(options));
    lemma_parse_options_wire(op + cstr(filename) + cstr(mode), options, Seq::empty());
    assert(Seq::<(Seq<u8>, Seq<u8>)>::empty() + options =~= options);
}

proof fn lemma_nul_from_bounds(b: Seq<u8>, i: int)
    requires
        0 <= i <= b.len(),
    ensures
        i <= nul_from(b, i) <= b.len(),
        nul_from(b, i) < b.len() ==> b[nul_from(b, i)] == 0,
        forall|j: int| i <= j < nul_from(b, i) ==> b[j] != 0,
    decreases b.len() - i,
{
    if i < b.len() && b[i] != 0 {
        lemma_nul_from_bounds(b, i + 1);
    }
}

proof fn lemma_field_nul_free(b: Seq<u8>, i: int)
    requires
        0 <= i <= b.len(),
    ensures
        nul_free(b.subrange(i, nul_from(b, i))),
{
    lemma_nul_from_bounds(b, i);
    let f = b.subrange(i, nul_from(b, i));
    assert forall|j: int| 0 <= j < f.len() implies f[j] != 0 by {
        assert(f[j] == b[i + j]);
    }
}

proof fn lemma_parse_options_inverse(b: Seq<u8>, i: int, acc: Seq<(Seq<u8>, Seq<u8>)>)
    requires
        0 <= i <= b.len(),
        parse_options(b, i, acc) is Some,
    ensures
        ({
            let res = parse_options(b, i, acc)->0;
            &&& res.len() >= acc.len()
            &&& res.take(acc.len() as int) == acc
            &&& options_wire(res.skip(acc.len() as int)) == b.subrange(i, b.len() as int)
            &&& options_nul_free(res.skip(acc.len() as int))
        }),
    decreases b.len() - i,
{
    let res = parse_options(b, i, acc)->0;
    if i >= b.len() {
        assert(res.take(acc.len() as int) =~= acc);
        assert(res.skip(acc.len() as int) =~= Seq::empty());
        assert(b.subrange(i, b.len() as int) =~= Seq::empty());
    } else {
        let k = nul_from(b, i);
        lemma_nul_from_bounds(b, i);
        let v = nul_from(b, k + 1);
        lemma_nul_from_bounds(b, k + 1);
        lemma_field_nul_free(b, i);
        lemma_field_nul_free(b, k + 1);
        let pair = (b.subrange(i, k), b.subrange(k + 1, v));
        let acc2 = acc.push(pair);
        lemma_parse_options_inverse(b, v + 1, acc2);
        let tail = res.skip(acc.len() as int);
        assert(res.take(acc.len() as int) =~= res.take(acc2.len() as int).take(acc.len() as int));
        assert(tail[0] == res[acc.len() as int]);
        assert(res[acc.len() as int] == res.take(acc2.len() as int)[acc.len() as int]);
        assert(tail.drop_first() =~= res.skip(acc2.len() as int));
        lemma_options_wire_front(tail);
        assert(b.subrange(i, b.len() as int) =~= cstr(pair.0) + cstr(pair.1) + b.subrange(
            v + 1,
            b.len() as int,
        ));
        assert forall|j: int| 0 <= j < tail.len() implies nul_free(#[trigger] tail[j].0) && nul_free(
            tail[j].1,
        ) by {
            if j > 0 {
                assert(tail[j] == tail.drop_first()[j - 1]);
            }
        }
    }
}

/// Bytes that decode are the exact wire form of what they decode to, and
/// that message reads back: decoding loses nothing.
pub proof fn lemma_encode_decode(b: Seq<u8>)
    requires
        parse(b) is Some,
    ensures
        wire(parse(b)->0) == b,
        encodable(parse(b)->0),
{
    let m = parse(b)->0;
    assert(b.subrange(0, 2) =~= seq![b[0], b[1]]);
    if opcode_of(b) == OP_READ || opcode_of(b) == OP_WRITE {
        let f = nul_from(b, 2);
        let md = nul_from(b, f + 1);
        lemma_nul_from_bounds(b, 2);
        lemma_nul_from_bounds(b, f + 1);
        lemma_field_nul_free(b, 2);
        lemma_field_nul_free(b, f + 1);
        lemma_parse_options_inverse(b, md + 1, Seq::empty());
        let o = parse_options(b, md + 1, Seq::empty())->0;
        assert(o.skip(0) =~= o);
        assert(b =~= be16(opcode_of(b) as u16) + cstr(b.subrange(2, f)) + cstr(b.subrange(f + 1, md))
            + b.subrange(md + 1, b.len() as int));
    } else if opcode_of(b) == OP_DATA {
        assert(b =~= be16(OP_DATA) + be16((b[2] * 256 + b[3]) as u16) + b.subrange(4, b.len() as int));
    } else if opcode_of(b) == OP_ACK {
        assert(b =~= be16(OP_ACK) + be16((b[2] * 256 + b[3]) as u16));
    } else if opcode_of(b) == OP_ERROR {
        lemma_nul_from_bounds(b, 4);
        lemma_field_nul_free(b, 4);
        assert(b =~= be16(OP_ERROR) + be16((b[2] * 256 + b[3]) as u16) + cstr(b.subrange(4, b.len() - 1)));
    } else {
        lemma_parse_options_inverse(b, 2, Seq::empty());
        let o = parse_options(b, 2, Seq::empty())->0;
        assert(o.skip(0) =~= o);
        assert(b =~= be16(OP_OPTION_ACK) + b.subrange(2, b.len() as int));
    }
}

} // verus!
