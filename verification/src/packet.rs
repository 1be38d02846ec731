//! Request-side packet codec: command catalog, XOR checksum, and the build
//! and parse operations for request packets.
//!
//! Wire format of a request: `[start flag][command]` for payload-free
//! commands, `[start flag][command][payload size][payload...][checksum]` for
//! payload-bearing ones.

use vstd::prelude::*;

verus! {

/// Marker byte that begins every request packet.
pub const START_FLAG: u8 = 0xA5;

/// The closed catalog of device commands, one wire byte each.
#[derive(Debug, Clone, Copy, PartialEq)]
pub enum Command {
    Stop,
    Reset,
    Scan,
    ExpressScan,
    ForceScan,
    GetInfo,
    GetHealth,
    GetSampleRate,
    GetLidarConf,
}

impl Command {
    /// Wire encoding of each command.
    pub open spec fn spec_byte(self) -> u8 {
        match self {
            Command::Stop => 0x25,
            Command::Reset => 0x40,
            Command::Scan => 0x20,
            Command::ExpressScan => 0x82,
            Command::ForceScan => 0x21,
            Command::GetInfo => 0x50,
            Command::GetHealth => 0x52,
            Command::GetSampleRate => 0x59,
            Command::GetLidarConf => 0x84,
        }
    }

    /// Which command, if any, a wire byte decodes to.
    pub open spec fn spec_parse(command: u8) -> Option<Command> {
        if command == 0x25 {
            Some(Command::Stop)
        } else if command == 0x40 {
            Some(Command::Reset)
        } else if command == 0x20 {
            Some(Command::Scan)
        } else if command == 0x82 {
            Some(Command::ExpressScan)
        } else if command == 0x21 {
            Some(Command::ForceScan)
        } else if command == 0x50 {
            Some(Command::GetInfo)
        } else if command == 0x52 {
            Some(Command::GetHealth)
        } else if command == 0x59 {
            Some(Command::GetSampleRate)
        } else if command == 0x84 {
            Some(Command::GetLidarConf)
        } else {
            None
        }
    }

    /// The fixed partition of the catalog: exactly `ExpressScan` and
    /// `GetLidarConf` carry a length-prefixed payload and a checksum.
    pub open spec fn spec_has_payload(self) -> bool {
        self is ExpressScan || self is GetLidarConf
    }

    /// Encode this command as its wire byte.
    pub fn as_byte(self) -> (r: u8)
        ensures
            r == self.spec_byte(),
    {
        match self {
            Command::Stop => 0x25,
            Command::Reset => 0x40,
            Command::Scan => 0x20,
            Command::ExpressScan => 0x82,
            Command::ForceScan => 0x21,
            Command::GetInfo => 0x50,
            Command::GetHealth => 0x52,
            Command::GetSampleRate => 0x59,
            Command::GetLidarConf => 0x84,
        }
    }

    /// Decode a wire byte; `None` when the byte is not in the catalog.
    pub fn parse(command: u8) -> (r: Option<Command>)
        ensures
            r == Command::spec_parse(command),
    {
        if command == 0x25 {
            Some(Command::Stop)
        } else if command == 0x40 {
            Some(Command::Reset)
        } else if command == 0x20 {
            Some(Command::Scan)
        } else if command == 0x82 {
            Some(Command::ExpressScan)
        } else if command == 0x21 {
            Some(Command::ForceScan)
        } else if command == 0x50 {
            Some(Command::GetInfo)
        } else if command == 0x52 {
            Some(Command::GetHealth)
        } else if command == 0x59 {
            Some(Command::GetSampleRate)
        } else if command == 0x84 {
            Some(Command::GetLidarConf)
        } else {
            None
        }
    }

    /// Whether this command carries a payload section.
    pub fn has_payload(self) -> (r: bool)
        ensures
            r == self.spec_has_payload(),
    {
        match self {
            Command::ExpressScan | Command::GetLidarConf => true,
            _ => false,
        }
    }
}

/// Encoding is injective: distinct commands have distinct wire bytes.
pub proof fn lemma_command_byte_injective(c1: Command, c2: Command)
    requires
        c1 != c2,
    ensures
        c1.spec_byte() != c2.spec_byte(),
{
}

/// Decoding inverts encoding: every command's wire byte decodes back to it.
pub proof fn lemma_command_parse_byte(c: Command)
    ensures
        Command::spec_parse(c.spec_byte()) == Some(c),
{
}

/// Encoding inverts decoding: a byte that decodes encodes back to itself.
pub proof fn lemma_command_byte_parse(b: u8)
    ensures
        Command::spec_parse(b) matches Some(c) ==> c.spec_byte() == b,
{
}

/// The two leading bytes of every request packet.
#[derive(Debug, Clone, Copy, PartialEq)]
pub struct PacketHeader {
    pub start_flag: u8,
    pub command: Command,
}

impl PacketHeader {
    /// Build a header from its two fields.
    pub fn new(start_flag: u8, command: Command) -> (r: Self)
        ensures
            r == (PacketHeader { start_flag, command }),
    {
        Self { start_flag, command }
    }
}

/// The payload section of a payload-bearing request: length byte, payload
/// bytes, checksum byte.
#[derive(Debug, Clone, PartialEq)]
pub struct PacketBody {
    pub payload_size: u8,
    pub payload: Vec<u8>,
    pub checksum: u8,
}

/// Mathematical model of a [`PacketBody`]: the payload as a byte sequence.
#[verifier::ext_equal]
pub struct PacketBodyView {
    pub payload_size: u8,
    pub payload: Seq<u8>,
    pub checksum: u8,
}

impl View for PacketBody {
    type V = PacketBodyView;

    open spec fn view(&self) -> PacketBodyView {
        PacketBodyView {
            payload_size: self.payload_size,
            payload: self.payload@,
            checksum: self.checksum,
        }
    }
}

impl PacketBody {
    /// Build a body from its three fields.
    pub fn new(payload_size: u8, payload: Vec<u8>, checksum: u8) -> (r: Self)
        ensures
            r@ == (PacketBodyView { payload_size, payload: payload@, checksum }),
    {
        Self { payload_size, payload, checksum }
    }
}

/// A request packet: header-only for payload-free commands, header plus body
/// for payload-bearing ones.
#[derive(Debug, Clone, PartialEq)]
pub enum Request {
    OnlyHeader(PacketHeader),
    Full(PacketHeader, PacketBody),
}

/// Mathematical model of a [`Request`].
#[verifier::ext_equal]
pub enum RequestView {
    OnlyHeader(PacketHeader),
    Full(PacketHeader, PacketBodyView),
}

impl View for Request {
    type V = RequestView;

    open spec fn view(&self) -> RequestView {
        match self {
            Request::OnlyHeader(header) => RequestView::OnlyHeader(*header),
            Request::Full(header, body) => RequestView::Full(*header, body@),
        }
    }
}

impl RequestView {
    /// A request is well formed when its start flag is the fixed marker, its
    /// variant agrees with its command's place in the payload partition, and
    /// a body's declared size and checksum match its payload.
    pub open spec fn wf(self) -> bool {
        match self {
            RequestView::OnlyHeader(header) => {
                &&& header.start_flag == START_FLAG
                &&& !header.command.spec_has_payload()
            },
            RequestView::Full(header, body) => {
                &&& header.start_flag == START_FLAG
                &&& header.command.spec_has_payload()
                &&& body.payload.len() == body.payload_size
                &&& body.checksum == spec_checksum(START_FLAG, header.command, body.payload_size, body.payload)
            },
        }
    }
}

/// Exclusive-or of an accumulator with every byte of a sequence, in order.
pub open spec fn xor_bytes(acc: u8, bytes: Seq<u8>) -> u8
    decreases bytes.len(),
{
    if bytes.len() == 0 {
        acc
    } else {
        xor_bytes(acc ^ bytes[0], bytes.drop_first())
    }
}

/// The packet checksum: the exclusive-or of the start flag, the command's
/// wire byte, the payload size, and every payload byte, in that order.
pub open spec fn spec_checksum(start_flag: u8, command: Command, payload_size: u8, payload: Seq<u8>) -> u8 {
    xor_bytes(start_flag ^ command.spec_byte() ^ payload_size, payload)
}

/// Compute the checksum over the framing fields and the payload.
pub fn calculate_checksum(start_flag: u8, command: Command, payload_size: u8, payload: &[u8]) -> (r: u8)
    ensures
        r == spec_checksum(start_flag, command, payload_size, payload@),
{
    let mut result: u8 = 0;
    result = result ^ start_flag;
    result = result ^ command.as_byte();
    result = result ^ payload_size;
    proof {
        let f = start_flag;
        let c = command.spec_byte();
        let n = payload_size;
        assert(((0u8 ^ f) ^ c) ^ n == (f ^ c) ^ n) by (bit_vector);
        assert(payload@.skip(0) =~= payload@);
    }
    let mut i: usize = 0;
    while i < payload.len()
        invariant
            i <= payload@.len(),
            xor_bytes(result, payload@.skip(i as int)) == spec_checksum(start_flag, command, payload_size, payload@),
        decreases payload@.len() - i,
    {
        proof {
            assert(payload@.skip(i as int).drop_first() =~= payload@.skip(i as int + 1));
            assert(payload@.skip(i as int)[0] == payload@[i as int]);
        }
        result = result ^ payload[i];
        i = i + 1;
    }
    result
}

/// Folding the same bytes onto distinct accumulators keeps them distinct.
proof fn lemma_xor_bytes_acc_injective(acc1: u8, acc2: u8, bytes: Seq<u8>)
    requires
        acc1 != acc2,
    ensures
        xor_bytes(acc1, bytes) != xor_bytes(acc2, bytes),
    decreases bytes.len(),
{
    if bytes.len() > 0 {
        let b = bytes[0];
        assert(acc1 ^ b != acc2 ^ b) by (bit_vector)
            requires
                acc1 != acc2,
        ;
        lemma_xor_bytes_acc_injective(acc1 ^ b, acc2 ^ b, bytes.drop_first());
    }
}

/// The checksum is a pure function: equal inputs always give equal results.
pub proof fn lemma_checksum_deterministic(
    f1: u8,
    c1: Command,
    n1: u8,
    p1: Seq<u8>,
    f2: u8,
    c2: Command,
    n2: u8,
    p2: Seq<u8>,
)
    requires
        f1 == f2,
        c1 == c2,
        n1 == n2,
        p1 == p2,
    ensures
        spec_checksum(f1, c1, n1, p1) == spec_checksum(f2, c2, n2, p2),
{
}

/// Changing the start flag, the command, or the declared payload size, with
/// everything else fixed, changes the checksum.
pub proof fn lemma_checksum_framing_sensitive(
    f1: u8,
    c1: Command,
    n1: u8,
    f2: u8,
    c2: Command,
    n2: u8,
    p: Seq<u8>,
)
    requires
        f1 != f2 && c1 == c2 && n1 == n2 || f1 == f2 && c1 != c2 && n1 == n2 || f1 == f2 && c1
            == c2 && n1 != n2,
    ensures
        spec_checksum(f1, c1, n1, p) != spec_checksum(f2, c2, n2, p),
{
    let b1 = c1.spec_byte();
    let b2 = c2.spec_byte();
    if c1 != c2 {
        lemma_command_byte_injective(c1, c2);
    }
    assert((f1 ^ b1) ^ n1 != (f2 ^ b2) ^ n2) by (bit_vector)
        requires
            f1 != f2 && b1 == b2 && n1 == n2 || f1 == f2 && b1 != b2 && n1 == n2 || f1 == f2 && b1
                == b2 && n1 != n2,
    ;
    lemma_xor_bytes_acc_injective((f1 ^ b1) ^ n1, (f2 ^ b2) ^ n2, p);
}

/// Changing exactly one payload byte, with everything else fixed, changes
/// the checksum.
pub proof fn lemma_checksum_payload_byte_sensitive(
    f: u8,
    c: Command,
    n: u8,
    p1: Seq<u8>,
    p2: Seq<u8>,
    j: int,
)
    requires
        p1.len() == p2.len(),
        0 <= j < p1.len(),
        p1[j] != p2[j],
        forall|k: int| 0 <= k < p1.len() && k != j ==> p1[k] == p2[k],
    ensures
        spec_checksum(f, c, n, p1) != spec_checksum(f, c, n, p2),
{
    lemma_xor_bytes_one_byte_sensitive(f ^ c.spec_byte() ^ n, p1, p2, j);
}

/// Folding two sequences that differ in exactly one byte onto the same
/// accumulator gives distinct results.
proof fn lemma_xor_bytes_one_byte_sensitive(acc: u8, p1: Seq<u8>, p2: Seq<u8>, j: int)
    requires
        p1.len() == p2.len(),
        0 <= j < p1.len(),
        p1[j] != p2[j],
        forall|k: int| 0 <= k < p1.len() && k != j ==> p1[k] == p2[k],
    ensures
        xor_bytes(acc, p1) != xor_bytes(acc, p2),
    decreases j,
{
    if j == 0 {
        let a = p1[0];
        let b = p2[0];
        assert(acc ^ a != acc ^ b) by (bit_vector)
            requires
                a != b,
        ;
        assert(p1.drop_first() =~= p2.drop_first());
        lemma_xor_bytes_acc_injective(acc ^ a, acc ^ b, p1.drop_first());
    } else {
        assert(forall|k: int|
            0 <= k < p1.drop_first().len() && k != j - 1 ==> p1.drop_first()[k]
                == p2.drop_first()[k]);
        lemma_xor_bytes_one_byte_sensitive(acc ^ p1[0], p1.drop_first(), p2.drop_first(), j - 1);
    }
}

/// Everything that can go wrong while building or parsing a request packet.
#[derive(Debug, Clone, Copy, PartialEq)]
pub enum PacketError {
    /// Buffer empty, or its first byte is not the start marker.
    MissingStartFlag,
    /// Buffer exhausted before the command byte.
    MissingCommand,
    /// Payload-bearing command, but the buffer is exhausted before the
    /// length byte.
    MissingPayloadSize,
    /// Buffer exhausted before the checksum byte.
    MissingChecksum,
    /// Fewer bytes remain than the declared payload size.
    IncompletePayload,
    /// Command byte read but not in the catalog.
    UnknownCommand { command: u8 },
    /// Checksum mismatch, with both values for diagnostics.
    InvalidChecksum { provided: u8, calculated: u8 },
    /// A payload longer than 255 bytes cannot be framed by the one-byte
    /// length field.
    PayloadTooLarge,
}

/// Outcome of verifying a checksum byte against the recomputed value.
pub open spec fn spec_check_checksum(
    start_flag: u8,
    command: Command,
    payload_size: u8,
    payload: Seq<u8>,
    expected: u8,
) -> Result<(), PacketError> {
    let calculated = spec_checksum(start_flag, command, payload_size, payload);
    if calculated == expected {
        Ok(())
    } else {
        Err(PacketError::InvalidChecksum { provided: expected, calculated })
    }
}

/// Verify a received checksum byte against the recomputed value.
pub fn check_checksum(
    start_flag: u8,
    command: Command,
    payload_size: u8,
    payload: &[u8],
    expected: u8,
) -> (r: Result<(), PacketError>)
    ensures
        r == spec_check_checksum(start_flag, command, payload_size, payload@, expected),
{
    let calculated = calculate_checksum(start_flag, command, payload_size, payload);
    if calculated != expected {
        return Err(PacketError::InvalidChecksum { provided: expected, calculated });
    }
    Ok(())
}

/// What parsing a body after a decoded command yields: the request together
/// with how many bytes of the body buffer it consumed. Payload-free commands
/// consume nothing; payload-bearing ones consume the length byte, the
/// payload, and the checksum byte, validating the checksum.
pub open spec fn spec_parse_body(command: Command, bytes: Seq<u8>) -> Result<(RequestView, int), PacketError> {
    if !command.spec_has_payload() {
        Ok((RequestView::OnlyHeader(PacketHeader { start_flag: START_FLAG, command }), 0))
    } else if bytes.len() == 0 {
        Err(PacketError::MissingPayloadSize)
    } else {
        let payload_size = bytes[0];
        if bytes.len() - 1 < payload_size {
            Err(PacketError::IncompletePayload)
        } else if bytes.len() - 1 == payload_size {
            Err(PacketError::MissingChecksum)
        } else {
            let payload = bytes.subrange(1, 1 + payload_size as int);
            let provided = bytes[1 + payload_size as int];
            let calculated = spec_checksum(START_FLAG, command, payload_size, payload);
            if calculated != provided {
                Err(PacketError::InvalidChecksum { provided, calculated })
            } else {
                Ok((
                    RequestView::Full(
                        PacketHeader { start_flag: START_FLAG, command },
                        PacketBodyView { payload_size, payload, checksum: provided },
                    ),
                    2 + payload_size as int,
                ))
            }
        }
    }
}

/// What parsing a raw buffer yields: the first request it holds together
/// with the unconsumed remainder, or the error that aborts the parse.
pub open spec fn spec_parse(bytes: Seq<u8>) -> Result<(RequestView, Seq<u8>), PacketError> {
    if bytes.len() == 0 {
        Err(PacketError::MissingStartFlag)
    } else if bytes[0] != START_FLAG {
        Err(PacketError::MissingStartFlag)
    } else if bytes.len() == 1 {
        Err(PacketError::MissingCommand)
    } else {
        match Command::spec_parse(bytes[1]) {
            None => Err(PacketError::UnknownCommand { command: bytes[1] }),
            Some(command) => match spec_parse_body(command, bytes.skip(2)) {
                Err(e) => Err(e),
                Ok((req, consumed)) => Ok((req, bytes.skip(2 + consumed))),
            },
        }
    }
}

/// The byte sequence a request occupies on the wire.
pub open spec fn spec_serialize(req: RequestView) -> Seq<u8> {
    match req {
        RequestView::OnlyHeader(header) => seq![header.start_flag, header.command.spec_byte()],
        RequestView::Full(header, body) => seq![
            header.start_flag,
            header.command.spec_byte(),
            body.payload_size,
        ] + body.payload + seq![body.checksum],
    }
}

impl Request {
    /// Build a header-only request for a payload-free command.
    pub fn only_command(command: Command) -> (r: Self)
        requires
            !command.spec_has_payload(),
        ensures
            r@ == RequestView::OnlyHeader(PacketHeader { start_flag: START_FLAG, command }),
            r@.wf(),
    {
        Self::from_header(PacketHeader::new(START_FLAG, command))
    }

    /// Build a full request for a payload-bearing command. The payload must
    /// fit the one-byte length field; a longer one is rejected with
    /// [`PacketError::PayloadTooLarge`].
    pub fn with_payload(command: Command, payload: Vec<u8>) -> (r: Result<Self, PacketError>)
        requires
            command.spec_has_payload(),
        ensures
            payload@.len() <= 255 ==> (r matches Ok(req) && req@ == RequestView::Full(
                PacketHeader { start_flag: START_FLAG, command },
                PacketBodyView {
                    payload_size: payload@.len() as u8,
                    payload: payload@,
                    checksum: spec_checksum(START_FLAG, command, payload@.len() as u8, payload@),
                },
            ) && req@.wf()),
            payload@.len() > 255 ==> r == Err::<Request, PacketError>(PacketError::PayloadTooLarge),
    {
        if payload.len() > 255 {
            return Err(PacketError::PayloadTooLarge);
        }
        let payload_size = payload.len() as u8;
        let checksum = calculate_checksum(START_FLAG, command, payload_size, payload.as_slice());
        Ok(Self::from_header_body(
            PacketHeader::new(START_FLAG, command),
            PacketBody::new(payload_size, payload, checksum),
        ))
    }

    fn from_header(header: PacketHeader) -> (r: Self)
        ensures
            r@ == RequestView::OnlyHeader(header),
    {
        Self::OnlyHeader(header)
    }

    fn from_header_body(header: PacketHeader, body: PacketBody) -> (r: Self)
        ensures
            r@ == RequestView::Full(header, body@),
    {
        Self::Full(header, body)
    }

    /// Parse the first request packet held in `bytes`. On success the
    /// decoded request comes with the unconsumed remainder of the buffer,
    /// so a caller can parse a following packet from the same buffer.
    pub fn parse(bytes: &[u8]) -> (r: Result<(Self, &[u8]), PacketError>)
        ensures
            match r {
                Ok((req, rest)) => {
                    &&& spec_parse(bytes@) matches Ok(p) && req@ == p.0 && rest@ == p.1
                    &&& req@.wf()
                },
                Err(e) => spec_parse(bytes@) == Err::<(RequestView, Seq<u8>), PacketError>(e),
            },
    {
        if bytes.len() == 0 {
            return Err(PacketError::MissingStartFlag);
        }
        let start_flag = bytes[0];
        if start_flag != START_FLAG {
            return Err(PacketError::MissingStartFlag);
        }
        if bytes.len() == 1 {
            return Err(PacketError::MissingCommand);
        }
        let command_byte = bytes[1];
        let command = match Command::parse(command_byte) {
            Some(command) => command,
            None => {
                return Err(PacketError::UnknownCommand { command: command_byte });
            },
        };
        let tail = vstd::slice::slice_subrange(bytes, 2, bytes.len());
        proof {
            assert(tail@ =~= bytes@.skip(2));
        }
        match parse_body(&command, tail) {
            Ok((packet, body_size)) => {
                let rest = vstd::slice::slice_subrange(bytes, 2 + body_size, bytes.len());
                proof {
                    assert(rest@ =~= bytes@.skip(2 + body_size as int));
                }
                Ok((packet, rest))
            },
            Err(e) => Err(e),
        }
    }

    /// Serialize this request into its wire bytes.
    pub fn to_bytes(&self) -> (r: Vec<u8>)
        ensures
            r@ == spec_serialize(self@),
    {
        let mut out: Vec<u8> = Vec::new();
        match self {
            Request::OnlyHeader(header) => {
                out.push(header.start_flag);
                out.push(header.command.as_byte());
                proof {
                    assert(out@ =~= spec_serialize(self@));
                }
            },
            Request::Full(header, body) => {
                out.push(header.start_flag);
                out.push(header.command.as_byte());
                out.push(body.payload_size);
                let mut i: usize = 0;
                while i < body.payload.len()
                    invariant
                        i <= body.payload@.len(),
                        out@ =~= seq![
                            header.start_flag,
                            header.command.spec_byte(),
                            body.payload_size,
                        ] + body.payload@.take(i as int),
                    decreases body.payload@.len() - i,
                {
                    out.push(body.payload[i]);
                    i = i + 1;
                    proof {
                        assert(body.payload@.take(i as int) =~= body.payload@.take(i as int - 1).push(body.payload@[i as int - 1]));
                    }
                }
                out.push(body.checksum);
                proof {
                    assert(body.payload@.take(body.payload@.len() as int) =~= body.payload@);
                    assert(out@ =~= spec_serialize(self@));
                }
            },
        }
        out
    }
}

/// Parse the rest of a packet once its command is known: nothing for a
/// payload-free command, the length-prefixed and checksummed payload for a
/// payload-bearing one. Returns the request and how many bytes it consumed.
fn parse_body(command: &Command, bytes: &[u8]) -> (r: Result<(Request, usize), PacketError>)
    ensures
        match r {
            Ok((req, consumed)) => {
                &&& spec_parse_body(*command, bytes@) == Ok::<(RequestView, int), PacketError>((req@, consumed as int))
                &&& consumed <= bytes@.len()
                &&& req@.wf()
            },
            Err(e) => spec_parse_body(*command, bytes@) == Err::<(RequestView, int), PacketError>(e),
        },
{
    if !command.has_payload() {
        return Ok((Request::from_header(PacketHeader::new(START_FLAG, *command)), 0));
    }
    if bytes.len() == 0 {
        return Err(PacketError::MissingPayloadSize);
    }
    let payload_size = bytes[0];
    let declared = payload_size as usize;
    if bytes.len() - 1 < declared {
        return Err(PacketError::IncompletePayload);
    }
    if bytes.len() - 1 == declared {
        return Err(PacketError::MissingChecksum);
    }
    let mut payload: Vec<u8> = Vec::new();
    let mut i: usize = 0;
    while i < declared
        invariant
            i <= declared,
            declared + 2 <= bytes@.len(),
            payload@ =~= bytes@.subrange(1, 1 + i as int),
        decreases declared - i,
    {
        payload.push(bytes[1 + i]);
        i = i + 1;
        proof {
            assert(payload@ =~= bytes@.subrange(1, 1 + i as int));
        }
    }
    let provided = bytes[1 + declared];
    match check_checksum(START_FLAG, *command, payload_size, payload.as_slice(), provided) {
        Ok(()) => {
            let req = Request::from_header_body(
                PacketHeader::new(START_FLAG, *command),
                PacketBody::new(payload_size, payload, provided),
            );
            Ok((req, 2 + declared))
        },
        Err(e) => Err(e),
    }
}

/// Round trip with residue: parsing the wire bytes of a well-formed request,
/// with any trailing bytes appended, yields exactly that request and exactly
/// the trailing bytes. With `rest` empty this is the plain round trip; with
/// `rest` a further packet it says a multi-packet buffer is split soundly.
pub proof fn lemma_parse_serialize(req: RequestView, rest: Seq<u8>)
    requires
        req.wf(),
    ensures
        spec_parse(spec_serialize(req) + rest) == Ok::<(RequestView, Seq<u8>), PacketError>(
            (req, rest),
        ),
{
    let bytes = spec_serialize(req) + rest;
    match req {
        RequestView::OnlyHeader(header) => {
            assert(bytes[0] == START_FLAG);
            assert(bytes[1] == header.command.spec_byte());
            lemma_command_parse_byte(header.command);
            assert(bytes.skip(2) =~= rest);
        },
        RequestView::Full(header, body) => {
            let n = body.payload_size as int;
            assert(bytes[0] == START_FLAG);
            assert(bytes[1] == header.command.spec_byte());
            lemma_command_parse_byte(header.command);
            let tail = bytes.skip(2);
            assert(tail =~= seq![body.payload_size] + body.payload + seq![body.checksum] + rest);
            assert(tail[0] == body.payload_size);
            assert(tail.len() == 2 + n + rest.len());
            assert(tail.subrange(1, 1 + n) =~= body.payload);
            assert(tail[1 + n] == body.checksum);
            assert(spec_parse_body(header.command, tail) == Ok::<(RequestView, int), PacketError>(
                (req, 2 + n),
            ));
            assert(bytes.skip(2 + (2 + n)) =~= rest);
        },
    }
}

/// Tamper detection: corrupting any single byte of a well-formed
/// payload-bearing packet's payload or checksum region makes parsing fail
/// with `InvalidChecksum`. A single-bit flip changes its byte, so this
/// covers every single-bit corruption of those regions.
pub proof fn lemma_tamper_detected(req: RequestView, corrupted: Seq<u8>, i: int)
    requires
        req.wf(),
        req is Full,
        corrupted.len() == spec_serialize(req).len(),
        3 <= i < corrupted.len(),
        corrupted[i] != spec_serialize(req)[i],
        forall|k: int|
            0 <= k < corrupted.len() && k != i ==> corrupted[k] == spec_serialize(req)[k],
    ensures
        spec_parse(corrupted) == Err::<(RequestView, Seq<u8>), PacketError>(
            PacketError::InvalidChecksum {
                provided: corrupted[corrupted.len() - 1],
                calculated: spec_checksum(
                    START_FLAG,
                    req->Full_0.command,
                    req->Full_1.payload_size,
                    corrupted.subrange(3, corrupted.len() - 1),
                ),
            },
        ),
{
    let header = req->Full_0;
    let body = req->Full_1;
    let n = body.payload_size as int;
    let wire = spec_serialize(req);
    assert(wire.len() == 4 + n);
    assert(wire[0] == START_FLAG);
    assert(wire[1] == header.command.spec_byte());
    assert(wire[2] == body.payload_size);
    assert(forall|k: int| 0 <= k < n ==> wire[3 + k] == body.payload[k]);
    assert(wire[3 + n] == body.checksum);
    lemma_command_parse_byte(header.command);
    let tail = corrupted.skip(2);
    assert(tail[0] == body.payload_size);
    assert(tail.len() == 2 + n);
    let payload = tail.subrange(1, 1 + n);
    assert(payload =~= corrupted.subrange(3, 3 + n));
    let provided = tail[1 + n];
    assert(provided == corrupted[3 + n]);
    let calculated = spec_checksum(START_FLAG, header.command, body.payload_size, payload);
    if i < 3 + n {
        // A payload byte was corrupted: the recomputed checksum moves away
        // from the untouched checksum byte.
        assert(payload[i - 3] != body.payload[i - 3]);
        assert(forall|k: int| 0 <= k < n && k != i - 3 ==> payload[k] == body.payload[k]);
        lemma_checksum_payload_byte_sensitive(
            START_FLAG,
            header.command,
            body.payload_size,
            payload,
            body.payload,
            i - 3,
        );
        assert(provided == body.checksum);
        assert(calculated != provided);
    } else {
        // The checksum byte itself was corrupted: the payload recomputes to
        // the original checksum, which the corrupted byte no longer equals.
        assert(payload =~= body.payload);
        assert(calculated == body.checksum);
        assert(provided != wire[3 + n]);
        assert(calculated != provided);
    }
    assert(spec_parse_body(header.command, tail) == Err::<(RequestView, int), PacketError>(
        PacketError::InvalidChecksum { provided, calculated },
    ));
}

/// Truncation: cutting a well-formed payload-bearing packet anywhere before
/// its end never parses; the error names the first field the cut removed.
pub proof fn lemma_truncated_packet_rejected(req: RequestView, l: int)
    requires
        req.wf(),
        req is Full,
        0 <= l < spec_serialize(req).len(),
    ensures
        ({
            let prefix = spec_serialize(req).take(l);
            let n = req->Full_1.payload_size as int;
            &&& spec_parse(prefix) is Err
            &&& l == 0 ==> spec_parse(prefix) == Err::<(RequestView, Seq<u8>), PacketError>(
                PacketError::MissingStartFlag,
            )
            &&& l == 1 ==> spec_parse(prefix) == Err::<(RequestView, Seq<u8>), PacketError>(
                PacketError::MissingCommand,
            )
            &&& l == 2 ==> spec_parse(prefix) == Err::<(RequestView, Seq<u8>), PacketError>(
                PacketError::MissingPayloadSize,
            )
            &&& 3 <= l < 3 + n ==> spec_parse(prefix) == Err::<
                (RequestView, Seq<u8>),
                PacketError,
            >(PacketError::IncompletePayload)
            &&& l == 3 + n ==> spec_parse(prefix) == Err::<(RequestView, Seq<u8>), PacketError>(
                PacketError::MissingChecksum,
            )
        }),
{
    let header = req->Full_0;
    let body = req->Full_1;
    let n = body.payload_size as int;
    let wire = spec_serialize(req);
    let prefix = wire.take(l);
    assert(wire.len() == 4 + n);
    assert(wire[0] == START_FLAG);
    assert(wire[1] == header.command.spec_byte());
    assert(wire[2] == body.payload_size);
    if l >= 2 {
        lemma_command_parse_byte(header.command);
        let tail = prefix.skip(2);
        assert(tail.len() == l - 2);
        if l >= 3 {
            assert(tail[0] == body.payload_size);
        }
    }
}

} // verus!
