//! WebSocket frames, byte by byte (RFC 6455 §5.2).

use vstd::prelude::*;

use crate::error::{ErrorKind, OxiHttpError};
use crate::octets::{big_endian, big_endian_value, bytes_of};
use crate::text::{decimal, to_decimal, to_hexadecimal};
use crate::ws_frame::{
    length_bytes, masked, masked_header_bytes, read_frame, write_error, write_frame,
    write_frame_masked, Frame, FrameReader, Opcode, Outgoing, ReadStep, WritePiece,
};

verus! {

/// The value of an opcode: 0 for a continuation, 1 for text, 2 for binary data, 8 for the end of
/// the connection, 9 for a ping and 10 for a pong.
pub open spec fn has_value(o: Opcode, v: int) -> bool {
    ||| o == Opcode::Continuation && v == 0
    ||| o == Opcode::Text && v == 1
    ||| o == Opcode::Binary && v == 2
    ||| o == Opcode::Close && v == 8
    ||| o == Opcode::Ping && v == 9
    ||| o == Opcode::Pong && v == 10
}

/// Opcodes are read from their values, and other values are none.
pub proof fn law_opcode_read(v: u8, r: Option<Opcode>)
    requires
        call_ensures(Opcode::from_u8, (v,), r),
    ensures
        match r {
            Some(o) => has_value(o, v as int),
            None => !(v <= 2 || 8 <= v <= 10),
        },
{
}

/// Opcodes are written as their values.
pub proof fn law_opcode_written(o: Opcode, r: u8)
    requires
        call_ensures(Opcode::to_u8, (o,), r),
    ensures
        has_value(o, r as int),
{
}

/// The opcodes that control the connection are those from 8 on.
pub proof fn law_control(o: Opcode, r: bool, v: u8)
    requires
        call_ensures(Opcode::is_control, (o,), r),
        has_value(o, v as int),
    ensures
        r <==> v >= 8,
{
}

/// How many bytes of length follow the second byte of a frame.
pub open spec fn length_width(b1: u8) -> int {
    if b1 % 128 == 126 {
        2
    } else if b1 % 128 == 127 {
        8
    } else {
        0
    }
}

/// The length of the payload that a frame announces, in its second byte or in the two or the eight
/// bytes that follow it, the highest first.
pub open spec fn announced(s: Seq<u8>) -> int {
    if s[1] % 128 == 126 {
        s[2] * 0x100 + s[3]
    } else if s[1] % 128 == 127 {
        s[2] * 0x100_0000_0000_0000 + s[3] * 0x1_0000_0000_0000 + s[4] * 0x100_0000_0000 + s[5]
            * 0x1_0000_0000 + s[6] * 0x100_0000 + s[7] * 0x1_0000 + s[8] * 0x100 + s[9]
    } else {
        s[1] as int % 128
    }
}

/// Where the payload of a frame starts: a mask takes four bytes before it.
pub open spec fn payload_start(s: Seq<u8>) -> int {
    2 + length_width(s[1]) + if s[1] >= 128 {
        4int
    } else {
        0
    }
}

/// Whether the bytes start with a whole frame that is in order: no reserved bit is set, the opcode
/// is known, a frame that controls the connection is the only one of its message and has at most
/// 125 bytes, and no frame has more than 64 MiB.
pub open spec fn in_order(s: Seq<u8>) -> bool {
    let code = s[0] as int % 128;
    &&& s.len() >= 2
    &&& s.len() >= 2 + length_width(s[1])
    &&& code <= 2 || 8 <= code <= 10
    &&& code >= 8 ==> s[0] >= 128 && s[1] as int % 128 <= 125
    &&& announced(s) <= 67108864
    &&& s.len() >= payload_start(s) + announced(s)
}

proof fn lemma_announced(s: Seq<u8>)
    ensures
        s.len() >= 4 ==> big_endian_value(s.subrange(2, 4)) == s[2] * 0x100 + s[3],
        s.len() >= 10 ==> big_endian_value(s.subrange(2, 10)) == s[2] * 0x100_0000_0000_0000 + s[3]
            * 0x1_0000_0000_0000 + s[4] * 0x100_0000_0000 + s[5] * 0x1_0000_0000 + s[6] * 0x100_0000
            + s[7] * 0x1_0000 + s[8] * 0x100 + s[9],
{
    if s.len() >= 4 {
        lemma_last_byte(s, 4);
        lemma_last_byte(s, 3);
        assert(s.subrange(2, 2) =~= Seq::<u8>::empty());
    }
    if s.len() >= 10 {
        lemma_last_byte(s, 10);
        lemma_last_byte(s, 9);
        lemma_last_byte(s, 8);
        lemma_last_byte(s, 7);
        lemma_last_byte(s, 6);
        lemma_last_byte(s, 5);
        lemma_last_byte(s, 4);
        lemma_last_byte(s, 3);
        assert(s.subrange(2, 2) =~= Seq::<u8>::empty());
    }
}

proof fn lemma_last_byte(s: Seq<u8>, n: int)
    requires
        2 < n <= s.len(),
    ensures
        big_endian_value(s.subrange(2, n)) == big_endian_value(s.subrange(2, n - 1)) * 256 + s[n
            - 1],
{
    assert(s.subrange(2, n).drop_last() =~= s.subrange(2, n - 1));
}

/// A frame is read from bytes that start with one that is in order, and from no others. Its first
/// byte says whether it is the last of its message and what it is; the bytes of its payload are
/// those that follow the header, each with the byte of the mask whose turn it is laid over it.
pub proof fn law_read_frame(input: &[u8], r: Result<(Frame, usize), OxiHttpError>)
    requires
        call_ensures(read_frame, (input,), r),
    ensures
        r is Ok <==> in_order(input@),
        r matches Ok((f, n)) ==> {
            let s = input@;
            let at = payload_start(s);
            &&& f.fin == (s[0] >= 128)
            &&& has_value(f.opcode, s[0] as int % 128)
            &&& bytes_of(f.payload).len() == announced(s)
            &&& n == at + announced(s)
            &&& forall|i: int|
                0 <= i < announced(s) ==> #[trigger] bytes_of(f.payload)[i] == if s[1] >= 128 {
                    s[at + i] ^ s[at - 4 + i % 4]
                } else {
                    s[at + i]
                }
        },
{
    let s = input@;
    lemma_announced(s);
    if s.len() >= 2 {
        let b = s[0];
        assert(b / 0x10 % 8 == 0 <==> b % 128 < 16) by (bit_vector);
        assert(b % 128 < 16 ==> b % 0x10 == b % 128) by (bit_vector);
    }
}

/// What is wrong with bytes that start with no frame is told by the first thing that is: the end
/// of the bytes, a reserved bit, an opcode that is not known, or a frame that breaks the limits.
pub proof fn law_read_frame_refusals(input: &[u8], r: Result<(Frame, usize), OxiHttpError>)
    requires
        call_ensures(read_frame, (input,), r),
    ensures
        r matches Err(e) ==> e@.0 == ErrorKind::Body,
        input@.len() < 2 ==> (r matches Err(e) && e@.1 == "WebSocket: read header: early eof"@),
        input@.len() >= 2 && input@[0] as int % 128 >= 16 ==> (r matches Err(e) && e@.1
            == "WebSocket: reserved bits set without extension"@),
        input@.len() >= 2 && 8 <= input@[0] as int % 128 <= 10 && (input@[0] < 128
            || input@[1] as int % 128 > 125) ==> (r matches Err(e) && e@.1
            == "WebSocket: illegal control frame (fragmented or oversized)"@),
{
    let s = input@;
    if s.len() >= 2 {
        let b = s[0];
        assert(b / 0x10 % 8 == 0 <==> b % 128 < 16) by (bit_vector);
        assert(b % 128 < 16 ==> b % 0x10 == b % 128) by (bit_vector);
    } else {
        reveal_strlit("WebSocket: read ");
        reveal_strlit("header");
        reveal_strlit(": ");
        reveal_strlit("early eof");
        reveal_strlit("WebSocket: read header: early eof");
        assert("WebSocket: read "@ + "header"@ + ": "@ + "early eof"@
            =~= "WebSocket: read header: early eof"@);
    }
}

/// A reader asks for two bytes first, then for those of the length, the mask and the payload.
pub proof fn law_reader_needs(
    fin: bool,
    opcode: Opcode,
    masked: bool,
    len: u64,
    key: Option<[u8; 4]>,
    r: FrameReader,
    n: usize,
)
    requires
        call_ensures(FrameReader::needed, (&r,), n),
    ensures
        r == FrameReader::Header ==> n == 2,
        r == (FrameReader::Length16 { fin, opcode, masked }) ==> n == 2,
        r == (FrameReader::Length64 { fin, opcode, masked }) ==> n == 8,
        r == (FrameReader::MaskKey { fin, opcode, len }) ==> n == 4,
        r == (FrameReader::Payload { fin, opcode, len, key }) ==> n == len,
{
}

/// Bytes that end too soon are told by what could not be read; an opcode that is not known, and a
/// payload that is too long, by their numbers.
pub proof fn law_read_frame_reasons(
    input: &[u8],
    r: Result<(Frame, usize), OxiHttpError>,
    short: &str,
    at: FrameReader,
    unread: OxiHttpError,
    code: String,
    len: String,
)
    requires
        call_ensures(read_frame, (input,), r),
        short@ == "early eof"@,
        call_ensures(FrameReader::read_error, (&at, short), unread),
        call_ensures(to_hexadecimal, (input@[0] as u64 % 16,), code),
        call_ensures(to_decimal, (announced(input@) as u64,), len),
        input@.len() >= 2,
        input@[0] as int % 128 < 16,
    ensures
        ({
            let s = input@;
            let known = s[0] as int % 16 <= 2 || 8 <= s[0] as int % 16 <= 10;
            let fits = s[0] as int % 16 <= 2 || (s[0] >= 128 && s[1] as int % 128 <= 125);
            let start = payload_start(s);
            &&& !known ==> (r matches Err(e) && e@.1 == "WebSocket: unknown opcode 0x"@ + code@)
            &&& known && fits && s.len() < 2 + length_width(s[1]) && (if length_width(s[1]) == 2 {
                at is Length16
            } else {
                at is Length64
            }) ==> (r matches Err(e) && e@ == unread@)
            &&& known && fits && s.len() >= 2 + length_width(s[1]) && announced(s) > 67108864 ==> (
            r matches Err(e) && e@.1 == "WebSocket: payload too large ("@ + len@
                + " bytes, max 67108864)"@)
            &&& known && fits && s.len() >= 2 + length_width(s[1]) && announced(s) <= 67108864 && (
            if s.len() < start {
                at is MaskKey
            } else {
                at is Payload
            }) && s.len() < start + announced(s) ==> (r matches Err(e) && (e@ == unread@))
        }),
{
    let s = input@;
    lemma_announced(s);
    lemma_longest();
    let b = s[0];
    assert(b / 0x10 % 8 == 0 <==> b % 128 < 16) by (bit_vector);
    if announced(s) > 67108864 && s.len() >= 2 + length_width(s[1]) {
        assert("WebSocket: payload too large ("@ + len@ + " bytes, max "@ + decimal(67108864) + ")"@
            =~= "WebSocket: payload too large ("@ + len@ + (" bytes, max "@ + decimal(67108864)
            + ")"@));
    }
}

proof fn lemma_longest()
    ensures
        " bytes, max "@ + decimal(67108864) + ")"@ == " bytes, max 67108864)"@,
{
    reveal_strlit(" bytes, max ");
    reveal_strlit(")");
    reveal_strlit(" bytes, max 67108864)");
    reveal_with_fuel(decimal, 9);
    assert(decimal(67108864) =~= seq!['6', '7', '1', '0', '8', '8', '6', '4']);
    assert(" bytes, max "@ + decimal(67108864) + ")"@ =~= " bytes, max 67108864)"@);
}

/// What follows once a reader knows the length of the payload: the mask or the payload, or an end
/// to a payload that is too long.
pub open spec fn goes_on(
    r: Result<ReadStep, OxiHttpError>,
    fin: bool,
    opcode: Opcode,
    masked: bool,
    len: int,
) -> bool {
    if len > 67108864 {
        r matches Err(e) && e@.0 == ErrorKind::Body
    } else if masked {
        r matches Ok(ReadStep::More(FrameReader::MaskKey { fin: f, opcode: o, len: n })) && f == fin
            && o == opcode && n == len
    } else {
        r matches Ok(ReadStep::More(FrameReader::Payload { fin: f, opcode: o, len: n, key })) && f
            == fin && o == opcode && n == len && key is None
    }
}

/// A reader starts with the first two bytes, which say what the frame is and how long its payload
/// or the length of it is.
pub proof fn law_reader_starts(
    fresh: FrameReader,
    fin: bool,
    opcode: Opcode,
    masked: bool,
    data: Vec<u8>,
    r: Result<ReadStep, OxiHttpError>,
)
    requires
        call_ensures(FrameReader::new, (), fresh),
        data@.len() == 2,
        call_ensures(FrameReader::feed, (fresh, data), r),
        fin == (data@[0] >= 128),
        masked == (data@[1] >= 128),
        has_value(opcode, data@[0] as int % 128),
        opcode is Close || opcode is Ping || opcode is Pong ==> fin && data@[1] as int % 128 <= 125,
    ensures
        data@[1] as int % 128 <= 125 ==> goes_on(r, fin, opcode, masked, data@[1] as int % 128),
        data@[1] as int % 128 == 126 ==> (r matches Ok(ReadStep::More(next)) && next == (
        FrameReader::Length16 { fin, opcode, masked })),
        data@[1] as int % 128 == 127 ==> (r matches Ok(ReadStep::More(next)) && next == (
        FrameReader::Length64 { fin, opcode, masked })),
{
    let b = data@[0];
    assert(b / 0x10 % 8 == 0 <==> b % 128 < 16) by (bit_vector);
    assert(b % 128 < 16 ==> b % 0x10 == b % 128) by (bit_vector);
}

/// The bytes of a length say how long the payload is, those of the mask are kept for it, and those
/// of the payload end the frame.
pub proof fn law_reader_fed(
    fin: bool,
    opcode: Opcode,
    masked: bool,
    len: u64,
    key: Option<[u8; 4]>,
    reader: FrameReader,
    data: Vec<u8>,
    r: Result<ReadStep, OxiHttpError>,
)
    requires
        call_ensures(FrameReader::feed, (reader, data), r),
    ensures
        reader == (FrameReader::Length16 { fin, opcode, masked }) && data@.len() == 2 ==> goes_on(
            r,
            fin,
            opcode,
            masked,
            data@[0] * 0x100 + data@[1],
        ),
        reader == (FrameReader::Length64 { fin, opcode, masked }) && data@.len() == 8 ==> goes_on(
            r,
            fin,
            opcode,
            masked,
            data@[0] * 0x100_0000_0000_0000 + data@[1] * 0x1_0000_0000_0000 + data@[2]
                * 0x100_0000_0000 + data@[3] * 0x1_0000_0000 + data@[4] * 0x100_0000 + data@[5]
                * 0x1_0000 + data@[6] * 0x100 + data@[7],
        ),
        reader == (FrameReader::MaskKey { fin, opcode, len }) && data@.len() == 4 ==> (r matches Ok(
            ReadStep::More(FrameReader::Payload { fin: f, opcode: o, len: n, key: k }),
        ) && f == fin && o == opcode && n == len && k is Some && k->0@ == data@),
        reader == (FrameReader::Payload { fin, opcode, len, key }) && data@.len() == len ==> (
        r matches Ok(ReadStep::Done(f)) && f.fin == fin && f.opcode == opcode && bytes_of(
            f.payload,
        ).len() == len && forall|i: int|
            0 <= i < len ==> #[trigger] bytes_of(f.payload)[i] == match key {
                Some(k) => data@[i] ^ k@[i % 4],
                None => data@[i],
            }),
{
    let s = seq![0u8, 0u8] + data@;
    lemma_announced(s);
    if data@.len() == 2 {
        assert(s.subrange(2, 4) =~= data@);
    }
    if data@.len() == 8 {
        assert(s.subrange(2, 10) =~= data@);
    }
}

/// The bytes of the header that a frame of `len` bytes has, the second one with `mask` added.
pub open spec fn is_header(h: Seq<u8>, opcode: Opcode, fin: bool, len: int, mask: int) -> bool {
    &&& h.len() >= 2
    &&& has_value(
        opcode,
        h[0] - if fin {
            128int
        } else {
            0
        },
    )
    &&& if len <= 125 {
        h.len() == 2 && h[1] == mask + len
    } else if len <= 65535 {
        h.len() == 4 && h[1] == mask + 126 && h[2] == len / 256 && h[3] == len % 256
    } else {
        h.len() == 10 && h[1] == mask + 127 && h[2] == len / 0x100_0000_0000_0000 % 256 && h[3]
            == len / 0x1_0000_0000_0000 % 256 && h[4] == len / 0x100_0000_0000 % 256 && h[5] == len
            / 0x1_0000_0000 % 256 && h[6] == len / 0x100_0000 % 256 && h[7] == len / 0x1_0000 % 256
            && h[8] == len / 0x100 % 256 && h[9] == len % 256
    }
}

proof fn lemma_length_bytes(len: nat, mask: u8)
    requires
        mask == 0 || mask == 128,
    ensures
        ({
            let b = length_bytes(len, mask);
            if len <= 125 {
                b == seq![(mask + len) as u8]
            } else if len <= 65535 {
                b == seq![(mask + 126) as u8, (len / 256) as u8, (len % 256) as u8]
            } else {
                b == seq![
                    (mask + 127) as u8,
                    (len / 0x100_0000_0000_0000 % 256) as u8,
                    (len / 0x1_0000_0000_0000 % 256) as u8,
                    (len / 0x100_0000_0000 % 256) as u8,
                    (len / 0x1_0000_0000 % 256) as u8,
                    (len / 0x100_0000 % 256) as u8,
                    (len / 0x1_0000 % 256) as u8,
                    (len / 0x100 % 256) as u8,
                    (len % 256) as u8,
                ]
            }
        }),
{
    reveal_with_fuel(big_endian, 9);
    if len > 125 && len <= 65535 {
        assert(length_bytes(len, mask) =~= seq![
            (mask + 126) as u8,
            (len / 256) as u8,
            (len % 256) as u8,
        ]);
    } else if len > 65535 {
        let n1 = len / 256;
        let n2 = n1 / 256;
        let n3 = n2 / 256;
        let n4 = n3 / 256;
        let n5 = n4 / 256;
        let n6 = n5 / 256;
        let n7 = n6 / 256;
        assert(big_endian(len, 8) =~= seq![
            (n7 % 256) as u8,
            (n6 % 256) as u8,
            (n5 % 256) as u8,
            (n4 % 256) as u8,
            (n3 % 256) as u8,
            (n2 % 256) as u8,
            (n1 % 256) as u8,
            (len % 256) as u8,
        ]);
        assert(n2 == len / 0x1_0000);
        assert(n3 == len / 0x100_0000);
        assert(n4 == len / 0x1_0000_0000);
        assert(n5 == len / 0x100_0000_0000);
        assert(n6 == len / 0x1_0000_0000_0000);
        assert(n7 == len / 0x100_0000_0000_0000);
        assert(length_bytes(len, mask) =~= seq![(mask + 127) as u8] + big_endian(len, 8));
    }
}

/// A frame is written as its header, without a mask, and its payload as it is.
pub proof fn law_write_frame(opcode: Opcode, payload: &[u8], fin: bool, r: Outgoing)
    requires
        call_ensures(write_frame, (opcode, payload, fin), r),
    ensures
        is_header(bytes_of(r.header), opcode, fin, payload@.len() as int, 0),
        r.payload@ == payload@,
        r.wire() == bytes_of(r.header) + payload@,
{
    lemma_length_bytes(payload@.len(), 0);
}

/// A frame with a mask is written as its header, the mask, and its payload with each byte of the
/// mask laid over every fourth byte in turn.
pub proof fn law_write_frame_masked(
    opcode: Opcode,
    payload: &[u8],
    fin: bool,
    key: [u8; 4],
    r: Outgoing,
)
    requires
        call_ensures(write_frame_masked, (opcode, payload, fin, key), r),
    ensures
        ({
            let h = bytes_of(r.header);
            &&& h.len() >= 4
            &&& is_header(h.take(h.len() - 4), opcode, fin, payload@.len() as int, 128)
            &&& h.skip(h.len() - 4) == key@
        }),
        r.payload@.len() == payload@.len(),
        forall|i: int|
            0 <= i < payload@.len() ==> #[trigger] r.payload@[i] == payload@[i] ^ key@[i % 4],
{
    lemma_length_bytes(payload@.len(), 128);
    let h = bytes_of(r.header);
    let n = h.len() - 4;
    let start = masked_header_bytes(opcode, payload@.len(), fin, key@).take(n);
    assert(h.skip(n) =~= key@);
    assert(h.take(n) =~= seq![crate::ws_frame::first_byte(opcode, fin)] + length_bytes(
        payload@.len(),
        128,
    ));
}

/// What failed in reading or in writing a frame is told with the reason.
pub proof fn law_frame_errors(
    fin: bool,
    opcode: Opcode,
    masked: bool,
    len: u64,
    key: Option<[u8; 4]>,
    reader: FrameReader,
    piece: WritePiece,
    mask: bool,
    why: &str,
    r: OxiHttpError,
    w: OxiHttpError,
)
    requires
        call_ensures(FrameReader::read_error, (&reader, why), r),
        call_ensures(write_error, (piece, mask, why), w),
    ensures
        r@.0 == ErrorKind::Body,
        w@.0 == ErrorKind::Body,
        reader == FrameReader::Header ==> r@.1 == "WebSocket: read header: "@ + why@,
        reader == (FrameReader::Length16 { fin, opcode, masked }) ==> r@.1
            == "WebSocket: read ext len16: "@ + why@,
        reader == (FrameReader::Length64 { fin, opcode, masked }) ==> r@.1
            == "WebSocket: read ext len64: "@ + why@,
        reader == (FrameReader::MaskKey { fin, opcode, len }) ==> r@.1
            == "WebSocket: read mask key: "@ + why@,
        reader == (FrameReader::Payload { fin, opcode, len, key }) ==> r@.1
            == "WebSocket: read payload: "@ + why@,
        piece == WritePiece::Header && !mask ==> w@.1 == "WebSocket: write header: "@ + why@,
        piece == WritePiece::Header && mask ==> w@.1 == "WebSocket: write masked header: "@ + why@,
        piece == WritePiece::Payload && !mask ==> w@.1 == "WebSocket: write payload: "@ + why@,
        piece == WritePiece::Payload && mask ==> w@.1 == "WebSocket: write masked payload: "@
            + why@,
        piece == WritePiece::Flush && !mask ==> w@.1 == "WebSocket: flush: "@ + why@,
        piece == WritePiece::Flush && mask ==> w@.1 == "WebSocket: flush masked: "@ + why@,
{
    reveal_strlit("WebSocket: read ");
    reveal_strlit("WebSocket: ");
    reveal_strlit(": ");
    reveal_strlit("header");
    reveal_strlit("ext len16");
    reveal_strlit("ext len64");
    reveal_strlit("mask key");
    reveal_strlit("payload");
    reveal_strlit("write header");
    reveal_strlit("write masked header");
    reveal_strlit("write payload");
    reveal_strlit("write masked payload");
    reveal_strlit("flush");
    reveal_strlit("flush masked");
    reveal_strlit("WebSocket: read header: ");
    reveal_strlit("WebSocket: read ext len16: ");
    reveal_strlit("WebSocket: read ext len64: ");
    reveal_strlit("WebSocket: read mask key: ");
    reveal_strlit("WebSocket: read payload: ");
    reveal_strlit("WebSocket: write header: ");
    reveal_strlit("WebSocket: write masked header: ");
    reveal_strlit("WebSocket: write payload: ");
    reveal_strlit("WebSocket: write masked payload: ");
    reveal_strlit("WebSocket: flush: ");
    reveal_strlit("WebSocket: flush masked: ");
    let s = why@;
    assert("WebSocket: read "@ + "header"@ + ": "@ + s =~= "WebSocket: read header: "@ + s);
    assert("WebSocket: read "@ + "ext len16"@ + ": "@ + s =~= "WebSocket: read ext len16: "@ + s);
    assert("WebSocket: read "@ + "ext len64"@ + ": "@ + s =~= "WebSocket: read ext len64: "@ + s);
    assert("WebSocket: read "@ + "mask key"@ + ": "@ + s =~= "WebSocket: read mask key: "@ + s);
    assert("WebSocket: read "@ + "payload"@ + ": "@ + s =~= "WebSocket: read payload: "@ + s);
    assert("WebSocket: "@ + "write header"@ + ": "@ + s =~= "WebSocket: write header: "@ + s);
    assert("WebSocket: "@ + "write masked header"@ + ": "@ + s
        =~= "WebSocket: write masked header: "@ + s);
    assert("WebSocket: "@ + "write payload"@ + ": "@ + s =~= "WebSocket: write payload: "@ + s);
    assert("WebSocket: "@ + "write masked payload"@ + ": "@ + s
        =~= "WebSocket: write masked payload: "@ + s);
    assert("WebSocket: "@ + "flush"@ + ": "@ + s =~= "WebSocket: flush: "@ + s);
    assert("WebSocket: "@ + "flush masked"@ + ": "@ + s =~= "WebSocket: flush masked: "@ + s);
}

} // verus!
