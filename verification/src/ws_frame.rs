//! WebSocket frames (RFC 6455 §5): taking them apart and putting them together.
//!
//! Clients always mask their frames, servers never do. Reading undoes the mask.
//!
//! [`FrameReader`] asks for the bytes of a frame piece by piece, so that it can be driven by any
//! source of bytes; [`read_frame`] drives it over a slice.

use bytes::{Bytes, BytesMut};
use vstd::prelude::*;
use vstd::slice::{slice_subrange, slice_to_vec};

use crate::error::{ErrorKind, OxiHttpError};
use crate::octets::{
    big_endian, big_endian_value, buffer_of, bytes_from_vec, bytes_of, lemma_big_endian,
    lemma_power_of_256, power_of_256, put_slice, put_u16, put_u64, put_u8,
};
use crate::text::{decimal, hexadecimal, to_decimal, to_hexadecimal};

verus! {

/// The longest payload that is accepted: 64 MiB.
pub const MAX_PAYLOAD_LEN: u64 = 67108864;

/// The kinds of frames (RFC 6455 §5.2).
#[derive(Debug, Clone, Copy, PartialEq, Eq, Structural)]
pub enum Opcode {
    /// A further piece of a message (0x0).
    Continuation,
    /// UTF-8 text (0x1).
    Text,
    /// Binary data (0x2).
    Binary,
    /// The end of the connection (0x8).
    Close,
    /// A ping (0x9).
    Ping,
    /// A pong (0xA).
    Pong,
}

/// The four bits that stand for an opcode.
pub open spec fn opcode_bits(o: Opcode) -> u8 {
    match o {
        Opcode::Continuation => 0x0,
        Opcode::Text => 0x1,
        Opcode::Binary => 0x2,
        Opcode::Close => 0x8,
        Opcode::Ping => 0x9,
        Opcode::Pong => 0xA,
    }
}

/// The opcode that four bits stand for.
pub open spec fn opcode_of(v: u8) -> Option<Opcode> {
    if v == 0x0 {
        Some(Opcode::Continuation)
    } else if v == 0x1 {
        Some(Opcode::Text)
    } else if v == 0x2 {
        Some(Opcode::Binary)
    } else if v == 0x8 {
        Some(Opcode::Close)
    } else if v == 0x9 {
        Some(Opcode::Ping)
    } else if v == 0xA {
        Some(Opcode::Pong)
    } else {
        None
    }
}

/// Whether frames of this kind control the connection.
pub open spec fn control(o: Opcode) -> bool {
    o == Opcode::Close || o == Opcode::Ping || o == Opcode::Pong
}

impl Opcode {
    /// The opcode with the given value; `None` where there is none.
    pub fn from_u8(v: u8) -> (r: Option<Self>)
        ensures
            r == opcode_of(v),
    {
        match v {
            0x0 => Some(Opcode::Continuation),
            0x1 => Some(Opcode::Text),
            0x2 => Some(Opcode::Binary),
            0x8 => Some(Opcode::Close),
            0x9 => Some(Opcode::Ping),
            0xA => Some(Opcode::Pong),
            _ => None,
        }
    }

    /// The value of the opcode.
    pub fn to_u8(self) -> (r: u8)
        ensures
            r == opcode_bits(self),
            opcode_of(r) == Some(self),
    {
        match self {
            Opcode::Continuation => 0x0,
            Opcode::Text => 0x1,
            Opcode::Binary => 0x2,
            Opcode::Close => 0x8,
            Opcode::Ping => 0x9,
            Opcode::Pong => 0xA,
        }
    }

    /// Whether frames of this kind control the connection: Close, Ping and Pong.
    ///
    /// Such frames are not fragmented and carry at most 125 bytes.
    pub fn is_control(self) -> (r: bool)
        ensures
            r == control(self),
    {
        matches!(self, Opcode::Close | Opcode::Ping | Opcode::Pong)
    }
}

/// One frame.
#[derive(Debug, Clone)]
pub struct Frame {
    /// Whether this is the last frame of its message.
    pub fin: bool,
    /// The kind of the frame.
    pub opcode: Opcode,
    /// The payload, without a mask.
    pub payload: Bytes,
}

/// What a frame says.
pub struct FrameView {
    pub fin: bool,
    pub opcode: Opcode,
    pub payload: Seq<u8>,
}

impl View for Frame {
    type V = FrameView;

    open spec fn view(&self) -> FrameView {
        FrameView { fin: self.fin, opcode: self.opcode, payload: bytes_of(self.payload) }
    }
}

// ---------------------------------------------------------------------------
// Masking
// ---------------------------------------------------------------------------

/// `data` with the mask `key` laid over it, and without it again.
pub open spec fn masked(data: Seq<u8>, key: Seq<u8>) -> Seq<u8> {
    Seq::new(data.len(), |i: int| data[i] ^ key[i % 4])
}

/// Masking twice gives the data back.
pub proof fn law_mask_involution(data: Seq<u8>, key: Seq<u8>)
    ensures
        masked(masked(data, key), key) == data,
{
    let twice = masked(masked(data, key), key);
    assert forall|i: int| 0 <= i < data.len() implies twice[i] == data[i] by {
        let a = data[i];
        let k = key[i % 4];
        assert((a ^ k) ^ k == a) by (bit_vector);
    }
    assert(twice =~= data);
}

/// Lays the mask over the data in place.
fn apply_mask(data: &mut Vec<u8>, key: &[u8; 4])
    ensures
        final(data)@ == masked(old(data)@, key@),
{
    let n: usize = data.len();
    let mut i: usize = 0;
    while i < n
        invariant
            i <= n,
            n == data@.len(),
            data@.len() == old(data)@.len(),
            forall|j: int| 0 <= j < i ==> data@[j] == old(data)@[j] ^ key@[j % 4],
            forall|j: int| i <= j < n ==> data@[j] == old(data)@[j],
        decreases n - i,
    {
        let b: u8 = data[i] ^ key[i % 4];
        data.set(i, b);
        i += 1;
    }
    assert(data@ =~= masked(old(data)@, key@));
}

// ---------------------------------------------------------------------------
// Reading
// ---------------------------------------------------------------------------

/// The error that a text describes.
pub open spec fn body_failure<T>(message: Seq<char>) -> Result<T, (ErrorKind, Seq<char>)> {
    Err((ErrorKind::Body, message))
}

/// What the first two bytes of a frame say.
pub struct Start {
    pub fin: bool,
    pub opcode: Opcode,
    pub masked: bool,
    /// The payload's length, or 126 or 127 for a length in two or in eight further bytes.
    pub len: u8,
}

/// The first two bytes of a frame: what they say, or why they are refused.
pub open spec fn start_of(b0: u8, b1: u8) -> Result<Start, (ErrorKind, Seq<char>)> {
    let fin = b0 >= 0x80;
    let len = (b1 % 0x80) as u8;
    if b0 / 0x10 % 8 != 0 {
        body_failure("WebSocket: reserved bits set without extension"@)
    } else {
        match opcode_of((b0 % 0x10) as u8) {
            None => body_failure(
                "WebSocket: unknown opcode 0x"@ + hexadecimal((b0 % 0x10) as nat),
            ),
            Some(opcode) => if control(opcode) && (!fin || len > 125) {
                body_failure("WebSocket: illegal control frame (fragmented or oversized)"@)
            } else {
                Ok(Start { fin, opcode, masked: b1 >= 0x80, len })
            },
        }
    }
}

/// The refusal of a payload that is too long.
pub open spec fn too_large(len: nat) -> Seq<char> {
    "WebSocket: payload too large ("@ + decimal(len) + " bytes, max "@ + decimal(
        MAX_PAYLOAD_LEN as nat,
    ) + ")"@
}

/// The failure to read a piece of a frame.
pub open spec fn read_failure(piece: Seq<char>, why: Seq<char>) -> Seq<char> {
    "WebSocket: read "@ + piece + ": "@ + why
}

/// The rest of a frame whose start and length take the first `at` bytes.
pub open spec fn decode_rest(start: Start, at: int, len: nat, s: Seq<u8>) -> Result<
    (FrameView, nat),
    (ErrorKind, Seq<char>),
> {
    let k: int = if start.masked {
        4
    } else {
        0
    };
    if len > MAX_PAYLOAD_LEN {
        body_failure(too_large(len))
    } else if s.len() < at + k {
        body_failure(read_failure("mask key"@, "early eof"@))
    } else if s.len() < at + k + len {
        body_failure(read_failure("payload"@, "early eof"@))
    } else {
        let data = s.subrange(at + k, at + k + len);
        let payload = if start.masked {
            masked(data, s.subrange(at, at + 4))
        } else {
            data
        };
        Ok(
            (
                FrameView { fin: start.fin, opcode: start.opcode, payload },
                (at + k + len) as nat,
            ),
        )
    }
}

/// What becomes of a stream that starts with `s` and then ends: the frame that it starts with and
/// how many bytes that has, or why there is none.
pub open spec fn decode(s: Seq<u8>) -> Result<(FrameView, nat), (ErrorKind, Seq<char>)> {
    if s.len() < 2 {
        body_failure(read_failure("header"@, "early eof"@))
    } else {
        match start_of(s[0], s[1]) {
            Err(e) => Err(e),
            Ok(start) => if start.len == 126 {
                if s.len() < 4 {
                    body_failure(read_failure("ext len16"@, "early eof"@))
                } else {
                    decode_rest(start, 4, big_endian_value(s.subrange(2, 4)), s)
                }
            } else if start.len == 127 {
                if s.len() < 10 {
                    body_failure(read_failure("ext len64"@, "early eof"@))
                } else {
                    decode_rest(start, 10, big_endian_value(s.subrange(2, 10)), s)
                }
            } else {
                decode_rest(start, 2, start.len as nat, s)
            },
        }
    }
}

/// How far the reading of a frame has come, and so which bytes come next.
#[derive(Debug, Clone, Copy)]
pub enum FrameReader {
    /// The first two bytes.
    Header,
    /// A length in two bytes.
    Length16 { fin: bool, opcode: Opcode, masked: bool },
    /// A length in eight bytes.
    Length64 { fin: bool, opcode: Opcode, masked: bool },
    /// The four bytes of the mask.
    MaskKey { fin: bool, opcode: Opcode, len: u64 },
    /// The payload.
    Payload { fin: bool, opcode: Opcode, len: u64, key: Option<[u8; 4]> },
}

/// What came of some bytes of a frame.
#[derive(Debug, Clone)]
pub enum ReadStep {
    /// There is more to read.
    More(FrameReader),
    /// The frame is complete.
    Done(Frame),
}

/// What a [`ReadStep`] says.
pub enum StepView {
    More(FrameReader),
    Done(FrameView),
}

impl View for ReadStep {
    type V = StepView;

    open spec fn view(&self) -> StepView {
        match *self {
            ReadStep::More(r) => StepView::More(r),
            ReadStep::Done(f) => StepView::Done(f@),
        }
    }
}

/// What follows once the length of the payload is known.
pub open spec fn after_length(fin: bool, opcode: Opcode, masked: bool, len: nat) -> Result<
    StepView,
    (ErrorKind, Seq<char>),
> {
    if len > MAX_PAYLOAD_LEN {
        body_failure(too_large(len))
    } else if masked {
        Ok(StepView::More(FrameReader::MaskKey { fin, opcode, len: len as u64 }))
    } else {
        Ok(StepView::More(FrameReader::Payload { fin, opcode, len: len as u64, key: None }))
    }
}

impl FrameReader {
    /// Whether the length of the payload is one that is accepted.
    pub open spec fn wf(self) -> bool {
        match self {
            FrameReader::MaskKey { len, .. } => len <= MAX_PAYLOAD_LEN,
            FrameReader::Payload { len, .. } => len <= MAX_PAYLOAD_LEN,
            _ => true,
        }
    }

    /// How many bytes come next.
    pub open spec fn wants(self) -> nat {
        match self {
            FrameReader::Header => 2,
            FrameReader::Length16 { .. } => 2,
            FrameReader::Length64 { .. } => 8,
            FrameReader::MaskKey { .. } => 4,
            FrameReader::Payload { len, .. } => len as nat,
        }
    }

    /// What the bytes that come next are for.
    pub open spec fn piece(self) -> Seq<char> {
        match self {
            FrameReader::Header => "header"@,
            FrameReader::Length16 { .. } => "ext len16"@,
            FrameReader::Length64 { .. } => "ext len64"@,
            FrameReader::MaskKey { .. } => "mask key"@,
            FrameReader::Payload { .. } => "payload"@,
        }
    }

    /// What comes of the bytes that were asked for.
    pub open spec fn step(self, data: Seq<u8>) -> Result<StepView, (ErrorKind, Seq<char>)> {
        match self {
            FrameReader::Header => match start_of(data[0], data[1]) {
                Err(e) => Err(e),
                Ok(s) => if s.len == 126 {
                    Ok(
                        StepView::More(
                            FrameReader::Length16 { fin: s.fin, opcode: s.opcode, masked: s.masked },
                        ),
                    )
                } else if s.len == 127 {
                    Ok(
                        StepView::More(
                            FrameReader::Length64 { fin: s.fin, opcode: s.opcode, masked: s.masked },
                        ),
                    )
                } else {
                    after_length(s.fin, s.opcode, s.masked, s.len as nat)
                },
            },
            FrameReader::Length16 { fin, opcode, masked } => after_length(
                fin,
                opcode,
                masked,
                big_endian_value(data),
            ),
            FrameReader::Length64 { fin, opcode, masked } => after_length(
                fin,
                opcode,
                masked,
                big_endian_value(data),
            ),
            FrameReader::MaskKey { fin, opcode, len } => Ok(
                StepView::More(
                    FrameReader::Payload {
                        fin,
                        opcode,
                        len,
                        key: Some([data[0], data[1], data[2], data[3]]),
                    },
                ),
            ),
            FrameReader::Payload { fin, opcode, len: _, key } => Ok(
                StepView::Done(
                    FrameView {
                        fin,
                        opcode,
                        payload: match key {
                            None => data,
                            Some(key) => masked(data, key@),
                        },
                    },
                ),
            ),
        }
    }

    /// A reader at the start of a frame.
    pub fn new() -> (r: Self)
        ensures
            r == FrameReader::Header,
            r.wf(),
    {
        FrameReader::Header
    }

    /// How many bytes to read next.
    pub fn needed(&self) -> (r: usize)
        requires
            self.wf(),
        ensures
            r == self.wants(),
    {
        match self {
            FrameReader::Header => 2,
            FrameReader::Length16 { .. } => 2,
            FrameReader::Length64 { .. } => 8,
            FrameReader::MaskKey { .. } => 4,
            FrameReader::Payload { len, .. } => *len as usize,
        }
    }

    /// The error to report where the bytes that come next cannot be read.
    pub fn read_error(&self, why: &str) -> (r: OxiHttpError)
        ensures
            r@ == (ErrorKind::Body, read_failure(self.piece(), why@)),
    {
        let piece = match self {
            FrameReader::Header => "header",
            FrameReader::Length16 { .. } => "ext len16",
            FrameReader::Length64 { .. } => "ext len64",
            FrameReader::MaskKey { .. } => "mask key",
            FrameReader::Payload { .. } => "payload",
        };
        let mut m = String::new();
        m.append("WebSocket: read ");
        m.append(piece);
        m.append(": ");
        m.append(why);
        assert(m@ =~= read_failure(self.piece(), why@));
        OxiHttpError::Body(m)
    }

    /// Takes the bytes that were asked for and says what comes of them.
    pub fn feed(self, data: Vec<u8>) -> (r: Result<ReadStep, OxiHttpError>)
        requires
            self.wf(),
            data@.len() == self.wants(),
        ensures
            self.step(data@) == match r {
                Ok(s) => Ok(s@),
                Err(e) => Err(e@),
            },
            r matches Ok(ReadStep::More(next)) ==> next.wf(),
    {
        match self {
            FrameReader::Header => read_start(data[0], data[1]),
            FrameReader::Length16 { fin, opcode, masked } => {
                let len: u64 = read_number(&data);
                with_length(fin, opcode, masked, len)
            },
            FrameReader::Length64 { fin, opcode, masked } => {
                let len: u64 = read_number(&data);
                with_length(fin, opcode, masked, len)
            },
            FrameReader::MaskKey { fin, opcode, len } => {
                let key: [u8; 4] = [data[0], data[1], data[2], data[3]];
                Ok(ReadStep::More(FrameReader::Payload { fin, opcode, len, key: Some(key) }))
            },
            FrameReader::Payload { fin, opcode, len: _, key } => {
                let mut payload = data;
                if let Some(key) = key {
                    apply_mask(&mut payload, &key);
                }
                Ok(ReadStep::Done(Frame { fin, opcode, payload: bytes_from_vec(payload) }))
            },
        }
    }
}

/// The number that up to eight bytes write, the highest first.
fn read_number(data: &Vec<u8>) -> (r: u64)
    requires
        data@.len() <= 8,
    ensures
        r == big_endian_value(data@),
{
    let mut n: u64 = 0;
    let mut i: usize = 0;
    proof {
        lemma_power_of_256();
    }
    while i < data.len()
        invariant
            i <= data@.len() <= 8,
            n == big_endian_value(data@.take(i as int)),
            n < power_of_256(i as nat),
            power_of_256(8) == 0x1_0000_0000_0000_0000,
        decreases data@.len() - i,
    {
        proof {
            lemma_power_grows(i as nat + 1, 8);
            assert(data@.take(i + 1).drop_last() =~= data@.take(i as int));
        }
        n = n * 256 + data[i] as u64;
        i += 1;
    }
    assert(data@.take(i as int) =~= data@);
    n
}

proof fn lemma_power_grows(a: nat, b: nat)
    requires
        a <= b,
    ensures
        power_of_256(a) <= power_of_256(b),
    decreases b,
{
    if a < b {
        lemma_power_grows(a, (b - 1) as nat);
    }
}

/// The bits of the first two bytes of a frame as numbers.
proof fn lemma_start_bits(b0: u8, b1: u8)
    ensures
        (b0 & 0x80 != 0) == (b0 >= 0x80),
        (b0 & 0x70 != 0) == (b0 / 0x10 % 8 != 0),
        b0 & 0x0F == b0 % 0x10,
        (b1 & 0x80 != 0) == (b1 >= 0x80),
        b1 & 0x7F == b1 % 0x80,
{
    assert((b0 & 0x80 != 0) == (b0 >= 0x80)) by (bit_vector);
    assert((b0 & 0x70 != 0) == (b0 / 0x10 % 8 != 0)) by (bit_vector);
    assert(b0 & 0x0F == b0 % 0x10) by (bit_vector);
    assert((b1 & 0x80 != 0) == (b1 >= 0x80)) by (bit_vector);
    assert(b1 & 0x7F == b1 % 0x80) by (bit_vector);
}

/// Takes the first two bytes of a frame apart.
fn read_start(b0: u8, b1: u8) -> (r: Result<ReadStep, OxiHttpError>)
    ensures
        FrameReader::Header.step(seq![b0, b1]) == match r {
            Ok(s) => Ok(s@),
            Err(e) => Err(e@),
        },
        r matches Ok(ReadStep::More(next)) ==> next.wf(),
{
    proof {
        lemma_start_bits(b0, b1);
    }
    let fin = (b0 & 0x80) != 0;
    let rsv: u8 = b0 & 0x70;
    let opcode_byte: u8 = b0 & 0x0F;
    let masked = (b1 & 0x80) != 0;
    let len: u8 = b1 & 0x7F;
    // RFC 6455 §5.2: the reserved bits are 0 unless an extension defines them.
    if rsv != 0 {
        return Err(
            OxiHttpError::Body("WebSocket: reserved bits set without extension".to_owned()),
        );
    }
    let opcode = match Opcode::from_u8(opcode_byte) {
        Some(opcode) => opcode,
        None => {
            let mut m = "WebSocket: unknown opcode 0x".to_owned();
            m.append(to_hexadecimal(opcode_byte as u64).as_str());
            return Err(OxiHttpError::Body(m));
        },
    };
    // RFC 6455 §5.5: control frames are not fragmented and have at most 125 bytes.
    if opcode.is_control() && (!fin || len > 125) {
        return Err(
            OxiHttpError::Body(
                "WebSocket: illegal control frame (fragmented or oversized)".to_owned(),
            ),
        );
    }
    if len == 126 {
        Ok(ReadStep::More(FrameReader::Length16 { fin, opcode, masked }))
    } else if len == 127 {
        Ok(ReadStep::More(FrameReader::Length64 { fin, opcode, masked }))
    } else {
        with_length(fin, opcode, masked, len as u64)
    }
}

/// Goes on once the length of the payload is known.
fn with_length(fin: bool, opcode: Opcode, masked: bool, len: u64) -> (r: Result<
    ReadStep,
    OxiHttpError,
>)
    ensures
        after_length(fin, opcode, masked, len as nat) == match r {
            Ok(s) => Ok(s@),
            Err(e) => Err(e@),
        },
        r matches Ok(ReadStep::More(next)) ==> next.wf(),
{
    if len > MAX_PAYLOAD_LEN {
        let mut m = "WebSocket: payload too large (".to_owned();
        m.append(to_decimal(len).as_str());
        m.append(" bytes, max ");
        m.append(to_decimal(MAX_PAYLOAD_LEN).as_str());
        m.append(")");
        return Err(OxiHttpError::Body(m));
    }
    if masked {
        Ok(ReadStep::More(FrameReader::MaskKey { fin, opcode, len }))
    } else {
        Ok(ReadStep::More(FrameReader::Payload { fin, opcode, len, key: None }))
    }
}

/// How many pieces of a frame may still follow.
pub open spec fn pieces_left(r: FrameReader) -> nat {
    match r {
        FrameReader::Header => 3,
        FrameReader::Length16 { .. } => 2,
        FrameReader::Length64 { .. } => 2,
        FrameReader::MaskKey { .. } => 1,
        FrameReader::Payload { .. } => 0,
    }
}

/// What comes of handing a reader the bytes it asks for, one piece after the other, from a stream
/// that goes on with `s` and then ends, where `used` bytes were read before.
pub open spec fn driven(r: FrameReader, s: Seq<u8>, used: nat) -> Result<
    (FrameView, nat),
    (ErrorKind, Seq<char>),
>
    decreases pieces_left(r),
{
    let n = r.wants();
    if s.len() < n {
        body_failure(read_failure(r.piece(), "early eof"@))
    } else {
        match r.step(s.take(n as int)) {
            Err(e) => Err(e),
            Ok(StepView::Done(f)) => Ok((f, used + n)),
            Ok(StepView::More(next)) => driven(next, s.skip(n as int), used + n),
        }
    }
}

/// Reading the payload, at the end.
proof fn lemma_driven_payload(
    fin: bool,
    opcode: Opcode,
    len: u64,
    key: Option<[u8; 4]>,
    s: Seq<u8>,
    used: nat,
)
    ensures
        driven(FrameReader::Payload { fin, opcode, len, key }, s, used) == if s.len() < len {
            body_failure::<(FrameView, nat)>(read_failure("payload"@, "early eof"@))
        } else {
            let data = s.take(len as int);
            Ok(
                (
                    FrameView {
                        fin,
                        opcode,
                        payload: match key {
                            None => data,
                            Some(key) => masked(data, key@),
                        },
                    },
                    used + len as nat,
                ),
            )
        },
{
}

/// Reading on once the length is known.
proof fn lemma_driven_rest(start: Start, at: nat, len: nat, s: Seq<u8>)
    requires
        len <= u64::MAX,
        at <= s.len(),
    ensures
        decode_rest(start, at as int, len, s) == match after_length(
            start.fin,
            start.opcode,
            start.masked,
            len,
        ) {
            Err(e) => Err(e),
            Ok(StepView::Done(f)) => Ok((f, at)),
            Ok(StepView::More(next)) => driven(next, s.skip(at as int), at),
        },
{
    if len <= MAX_PAYLOAD_LEN {
        let l = len as u64;
        let rest = s.skip(at as int);
        if start.masked {
            let r = FrameReader::MaskKey { fin: start.fin, opcode: start.opcode, len: l };
            if rest.len() >= 4 {
                let t = rest.take(4);
                let key = [t[0], t[1], t[2], t[3]];
                assert(key@ =~= s.subrange(at as int, at + 4 as int));
                lemma_driven_payload(start.fin, start.opcode, l, Some(key), rest.skip(4), at + 4);
                if rest.len() >= 4 + len {
                    assert(rest.skip(4).take(len as int) =~= s.subrange(
                        at as int + 4,
                        at as int + 4 + len,
                    ));
                }
                assert(driven(r, rest, at) == driven(
                    FrameReader::Payload {
                        fin: start.fin,
                        opcode: start.opcode,
                        len: l,
                        key: Some(key),
                    },
                    rest.skip(4),
                    at + 4,
                ));
            } else {
                assert(driven(r, rest, at) == body_failure::<(FrameView, nat)>(
                    read_failure("mask key"@, "early eof"@),
                ));
            }
        } else {
            lemma_driven_payload(start.fin, start.opcode, l, None, rest, at);
            if rest.len() >= len {
                assert(rest.take(len as int) =~= s.subrange(at as int, at as int + len));
            }
        }
    }
}

/// A reader that is handed a stream piece by piece finds the frame that the stream starts with,
/// or the reason why it starts with none.
pub proof fn law_reader_decodes(s: Seq<u8>)
    ensures
        driven(FrameReader::Header, s, 0) == decode(s),
{
    if s.len() >= 2 {
        let t = s.take(2);
        assert(t[0] == s[0] && t[1] == s[1]);
        if let Ok(start) = start_of(s[0], s[1]) {
            if start.len == 126 {
                lemma_driven_number(start, 2, s);
            } else if start.len == 127 {
                lemma_driven_number(start, 8, s);
            } else {
                lemma_driven_rest(start, 2, start.len as nat, s);
            }
        }
    }
}

/// Reading a length of its own, and on.
proof fn lemma_driven_number(start: Start, w: nat, s: Seq<u8>)
    requires
        w == 2 || w == 8,
        s.len() >= 2,
    ensures
        ({
            let r = if w == 2 {
                FrameReader::Length16 {
                    fin: start.fin,
                    opcode: start.opcode,
                    masked: start.masked,
                }
            } else {
                FrameReader::Length64 {
                    fin: start.fin,
                    opcode: start.opcode,
                    masked: start.masked,
                }
            };
            driven(r, s.skip(2), 2) == if s.len() < 2 + w {
                body_failure::<(FrameView, nat)>(read_failure(r.piece(), "early eof"@))
            } else {
                decode_rest(
                    start,
                    2 + w as int,
                    big_endian_value(s.subrange(2, 2 + w as int)),
                    s,
                )
            }
        }),
{
    if s.len() >= 2 + w {
        let b = s.skip(2).take(w as int);
        assert(b =~= s.subrange(2, 2 + w as int));
        lemma_value_fits(b);
        lemma_driven_rest(start, 2 + w, big_endian_value(b), s);
        assert(s.skip(2).skip(w as int) =~= s.skip(2 + w as int));
    }
}

/// The number that up to eight bytes write has 64 bits.
proof fn lemma_value_fits(s: Seq<u8>)
    requires
        s.len() <= 8,
    ensures
        big_endian_value(s) <= u64::MAX,
{
    lemma_value_bound(s);
    lemma_power_of_256();
    lemma_power_grows(s.len(), 8);
}

proof fn lemma_value_bound(s: Seq<u8>)
    ensures
        big_endian_value(s) < power_of_256(s.len()),
    decreases s.len(),
{
    if s.len() > 0 {
        lemma_value_bound(s.drop_last());
    }
}

/// Reads the frame that the bytes start with; also says how many of them it has.
///
/// - The reserved bits are 0, as no extension is in use.
/// - Control frames are not fragmented and have at most 125 bytes.
/// - Unknown opcodes are refused.
/// - The payload has at most 64 MiB.
pub fn read_frame(input: &[u8]) -> (r: Result<(Frame, usize), OxiHttpError>)
    ensures
        decode(input@) == match r {
            Ok((f, n)) => Ok((f@, n as nat)),
            Err(e) => Err(e@),
        },
{
    let mut reader = FrameReader::new();
    let mut pos: usize = 0;
    proof {
        law_reader_decodes(input@);
        assert(input@.skip(0) =~= input@);
    }
    loop
        invariant
            reader.wf(),
            pos <= input@.len(),
            driven(reader, input@.skip(pos as int), pos as nat) == decode(input@),
        decreases pieces_left(reader),
    {
        let n: usize = reader.needed();
        if input.len() - pos < n {
            return Err(reader.read_error("early eof"));
        }
        let data = slice_to_vec(slice_subrange(input, pos, pos + n));
        proof {
            assert(data@ =~= input@.skip(pos as int).take(n as int));
            assert(input@.skip(pos as int).skip(n as int) =~= input@.skip(pos + n));
        }
        match reader.feed(data) {
            Err(e) => return Err(e),
            Ok(ReadStep::Done(frame)) => return Ok((frame, pos + n)),
            Ok(ReadStep::More(next)) => {
                reader = next;
            },
        }
        pos += n;
    }
}

// ---------------------------------------------------------------------------
// Writing
// ---------------------------------------------------------------------------

/// The first byte of a frame.
pub open spec fn first_byte(opcode: Opcode, fin: bool) -> u8 {
    if fin {
        (0x80 + opcode_bits(opcode)) as u8
    } else {
        opcode_bits(opcode)
    }
}

/// The second byte of a frame and the bytes of the length that follow it.
pub open spec fn length_bytes(len: nat, mask_bit: u8) -> Seq<u8> {
    if len <= 125 {
        seq![(mask_bit + len) as u8]
    } else if len <= 0xFFFF {
        seq![(mask_bit + 126) as u8] + big_endian(len, 2)
    } else {
        seq![(mask_bit + 127) as u8] + big_endian(len, 8)
    }
}

/// The header of a frame without a mask.
pub open spec fn header_bytes(opcode: Opcode, len: nat, fin: bool) -> Seq<u8> {
    seq![first_byte(opcode, fin)] + length_bytes(len, 0)
}

/// The header of a frame with a mask.
pub open spec fn masked_header_bytes(opcode: Opcode, len: nat, fin: bool, key: Seq<u8>) -> Seq<u8> {
    seq![first_byte(opcode, fin)] + length_bytes(len, 0x80) + key
}

/// A frame to be sent: its header, then its payload.
#[derive(Debug, Clone)]
pub struct Outgoing {
    /// The bytes before the payload.
    pub header: Bytes,
    /// The payload as it is sent.
    pub payload: Vec<u8>,
}

impl Outgoing {
    /// The bytes that are sent.
    pub open spec fn wire(self) -> Seq<u8> {
        bytes_of(self.header) + self.payload@
    }
}

/// Appends the first byte, and the second one with the length.
fn put_start(header: &mut BytesMut, opcode: Opcode, len: usize, fin: bool, mask_bit: u8)
    requires
        buffer_of(*old(header)) == Seq::<u8>::empty(),
        mask_bit == 0 || mask_bit == 0x80,
    ensures
        buffer_of(*final(header)) == seq![first_byte(opcode, fin)] + length_bytes(
            len as nat,
            mask_bit,
        ),
        buffer_of(*final(header)).len() <= 10,
{
    let bits: u8 = opcode.to_u8();
    proof {
        assert(bits < 0x80 ==> 0x80 | bits == 0x80 + bits) by (bit_vector);
        assert(bits | 0 == bits) by (bit_vector);
        lemma_power_of_256();
    }
    let first: u8 = if fin {
        0x80 | bits
    } else {
        bits
    };
    put_u8(header, first);
    if len <= 125 {
        put_u8(header, mask_bit + len as u8);
    } else if len <= 0xFFFF {
        put_u8(header, mask_bit + 126);
        proof {
            lemma_big_endian(len as nat, 2);
        }
        put_u16(header, len as u16);
    } else {
        put_u8(header, mask_bit + 127);
        proof {
            lemma_big_endian(len as nat, 8);
        }
        put_u64(header, len as u64);
    }
    assert(buffer_of(*header) =~= seq![first_byte(opcode, fin)] + length_bytes(
        len as nat,
        mask_bit,
    ));
}

/// Puts a frame together that is sent without a mask (from the server to the client).
pub fn write_frame(opcode: Opcode, payload: &[u8], fin: bool) -> (r: Outgoing)
    ensures
        bytes_of(r.header) == header_bytes(opcode, payload@.len(), fin),
        r.payload@ == payload@,
{
    let mut header = BytesMut::with_capacity(10);
    put_start(&mut header, opcode, payload.len(), fin, 0);
    Outgoing { header: header.freeze(), payload: slice_to_vec(payload) }
}

/// Puts a frame together that is sent with a mask (from the client to the server).
pub fn write_frame_masked(opcode: Opcode, payload: &[u8], fin: bool, mask_key: [u8; 4]) -> (r:
    Outgoing)
    ensures
        bytes_of(r.header) == masked_header_bytes(opcode, payload@.len(), fin, mask_key@),
        r.payload@ == masked(payload@, mask_key@),
{
    let mut header = BytesMut::with_capacity(14);
    put_start(&mut header, opcode, payload.len(), fin, 0x80);
    put_slice(&mut header, &mask_key);
    let mut data = slice_to_vec(payload);
    apply_mask(&mut data, &mask_key);
    Outgoing { header: header.freeze(), payload: data }
}

/// A piece of sending a frame.
#[derive(Debug, Clone, Copy, PartialEq, Eq, Structural)]
pub enum WritePiece {
    Header,
    Payload,
    Flush,
}

/// What is reported where a piece of sending a frame fails.
pub open spec fn write_failure(piece: WritePiece, mask: bool, why: Seq<char>) -> Seq<char> {
    let what = match piece {
        WritePiece::Header => if mask {
            "write masked header"@
        } else {
            "write header"@
        },
        WritePiece::Payload => if mask {
            "write masked payload"@
        } else {
            "write payload"@
        },
        WritePiece::Flush => if mask {
            "flush masked"@
        } else {
            "flush"@
        },
    };
    "WebSocket: "@ + what + ": "@ + why
}

/// The error to report where a piece of sending a frame, with a mask or without, fails.
pub fn write_error(piece: WritePiece, mask: bool, why: &str) -> (r: OxiHttpError)
    ensures
        r@ == (ErrorKind::Body, write_failure(piece, mask, why@)),
{
    let what = match piece {
        WritePiece::Header => if mask {
            "write masked header"
        } else {
            "write header"
        },
        WritePiece::Payload => if mask {
            "write masked payload"
        } else {
            "write payload"
        },
        WritePiece::Flush => if mask {
            "flush masked"
        } else {
            "flush"
        },
    };
    let mut m = "WebSocket: ".to_owned();
    m.append(what);
    m.append(": ");
    m.append(why);
    OxiHttpError::Body(m)
}

// ---------------------------------------------------------------------------
// Reading what was written
// ---------------------------------------------------------------------------

/// What the first two bytes of a written frame say.
proof fn lemma_written_start(opcode: Opcode, len: nat, fin: bool, mask: bool)
    requires
        control(opcode) ==> fin && len <= 125,
    ensures
        ({
            let m: u8 = if mask {
                0x80
            } else {
                0
            };
            let code: u8 = if len <= 125 {
                len as u8
            } else if len <= 0xFFFF {
                126
            } else {
                127
            };
            &&& length_bytes(len, m).len() > 0
            &&& start_of(first_byte(opcode, fin), length_bytes(len, m)[0]) == Ok::<
                Start,
                (ErrorKind, Seq<char>),
            >(Start { fin, opcode, masked: mask, len: code })
        }),
{
    let b = first_byte(opcode, fin);
    assert(b % 0x10 == opcode_bits(opcode) && b / 0x10 % 8 == 0 && (b >= 0x80) == fin);
}

/// What is read from the bytes `start_bytes + key + data + rest`, where the first part is the start
/// and the length of a written frame.
proof fn lemma_written(
    opcode: Opcode,
    fin: bool,
    mask: bool,
    key: Seq<u8>,
    data: Seq<u8>,
    rest: Seq<u8>,
)
    requires
        data.len() <= MAX_PAYLOAD_LEN,
        control(opcode) ==> fin && data.len() <= 125,
        key.len() == if mask {
            4int
        } else {
            0int
        },
    ensures
        ({
            let m: u8 = if mask {
                0x80
            } else {
                0
            };
            let head = seq![first_byte(opcode, fin)] + length_bytes(data.len(), m);
            decode(head + key + data + rest) == Ok::<(FrameView, nat), (ErrorKind, Seq<char>)>(
                (
                    FrameView {
                        fin,
                        opcode,
                        payload: if mask {
                            masked(data, key)
                        } else {
                            data
                        },
                    },
                    head.len() + key.len() + data.len(),
                ),
            )
        }),
{
    let m: u8 = if mask {
        0x80
    } else {
        0
    };
    let len = data.len();
    let lb = length_bytes(len, m);
    let head = seq![first_byte(opcode, fin)] + lb;
    let s = head + key + data + rest;
    lemma_written_start(opcode, len, fin, mask);
    lemma_power_of_256();
    assert(s[0] == first_byte(opcode, fin));
    assert(s[1] == lb[0]);
    let w: int = if len <= 125 {
        0
    } else if len <= 0xFFFF {
        2
    } else {
        8
    };
    if w > 0 {
        lemma_big_endian(len, w as nat);
        assert(s.subrange(2, 2 + w) =~= big_endian(len, w as nat));
    }
    assert(head.len() == 2 + w);
    if mask {
        assert(s.subrange(2 + w, 2 + w + 4) =~= key);
    }
    assert(s.subrange(2 + w + key.len(), 2 + w + key.len() + len) =~= data);
}

/// A frame within the limits that is sent without a mask is read as it was, whatever follows it.
pub proof fn law_frame_roundtrip(opcode: Opcode, payload: Seq<u8>, fin: bool, rest: Seq<u8>)
    requires
        payload.len() <= MAX_PAYLOAD_LEN,
        control(opcode) ==> fin && payload.len() <= 125,
    ensures
        decode(header_bytes(opcode, payload.len(), fin) + payload + rest) == Ok::<
            (FrameView, nat),
            (ErrorKind, Seq<char>),
        >(
            (
                FrameView { fin, opcode, payload },
                header_bytes(opcode, payload.len(), fin).len() + payload.len(),
            ),
        ),
{
    let head = header_bytes(opcode, payload.len(), fin);
    lemma_written(opcode, fin, false, Seq::empty(), payload, rest);
    assert(head + Seq::<u8>::empty() =~= head);
}

/// A frame within the limits that is sent with a mask is read without it, whatever follows it.
pub proof fn law_masked_frame_roundtrip(
    opcode: Opcode,
    payload: Seq<u8>,
    fin: bool,
    key: Seq<u8>,
    rest: Seq<u8>,
)
    requires
        payload.len() <= MAX_PAYLOAD_LEN,
        control(opcode) ==> fin && payload.len() <= 125,
        key.len() == 4,
    ensures
        decode(
            masked_header_bytes(opcode, payload.len(), fin, key) + masked(payload, key) + rest,
        ) == Ok::<(FrameView, nat), (ErrorKind, Seq<char>)>(
            (
                FrameView { fin, opcode, payload },
                masked_header_bytes(opcode, payload.len(), fin, key).len() + payload.len(),
            ),
        ),
{
    lemma_written(opcode, fin, true, key, masked(payload, key), rest);
    law_mask_involution(payload, key);
}

/// A frame that breaks the limits is refused: a control frame that is fragmented or longer than
/// 125 bytes, and a data frame longer than 64 MiB.
pub proof fn law_limits_enforced(opcode: Opcode, payload: Seq<u8>, fin: bool, rest: Seq<u8>)
    requires
        payload.len() <= u64::MAX,
    ensures
        ({
            let wire = header_bytes(opcode, payload.len(), fin) + payload + rest;
            &&& control(opcode) && (!fin || payload.len() > 125) ==> decode(wire) == body_failure::<
                (FrameView, nat),
            >("WebSocket: illegal control frame (fragmented or oversized)"@)
            &&& !control(opcode) && payload.len() > MAX_PAYLOAD_LEN ==> decode(wire)
                == body_failure::<(FrameView, nat)>(too_large(payload.len()))
        }),
{
    let wire = header_bytes(opcode, payload.len(), fin) + payload + rest;
    let b = first_byte(opcode, fin);
    assert(b % 0x10 == opcode_bits(opcode) && b / 0x10 % 8 == 0 && (b >= 0x80) == fin);
    assert(wire[0] == b);
    assert(wire[1] == length_bytes(payload.len(), 0)[0]);
    lemma_power_of_256();
    if !control(opcode) && payload.len() > MAX_PAYLOAD_LEN {
        lemma_written_start(opcode, payload.len(), fin, false);
        lemma_big_endian(payload.len(), 8);
        assert(wire.subrange(2, 10) =~= big_endian(payload.len(), 8));
    }
}

} // verus!
