//! WebSocket connections: what each frame does, what is sent, and the handshake.

use http::HeaderMap;
use vstd::prelude::*;
use vstd::utf8::{decode_utf8, encode_utf8, valid_utf8};

use crate::encoding::{base64_encode, sha1_digest, utf8_lossy, utf8_problem};
use crate::error::{ErrorKind, OxiHttpError};
use crate::headers::get_str;
use crate::http_types::Reply;
use crate::laws::frames::is_header;
use crate::octets::{big_endian, big_endian_value, bytes_of};
use crate::text::to_lower;
use crate::ws::{
    compute_accept_key, make_data_message, parse_close_frame, upgrade, validate_upgrade_request,
    Action, CloseFrame, Message, WebSocket,
};
use crate::ws_frame::{write_frame, Frame, Opcode, Outgoing};

verus! {

/// What comes of the payload of a text or a binary message: the text where it is UTF-8, the bytes,
/// or an error. Nothing else is a message.
pub open spec fn is_message(
    opcode: Opcode,
    data: Seq<u8>,
    r: Result<Message, OxiHttpError>,
) -> bool {
    &&& opcode == Opcode::Text && valid_utf8(data) ==> (r matches Ok(Message::Text(s)) && s@
        == decode_utf8(data))
    &&& opcode == Opcode::Text && !valid_utf8(data) ==> (r matches Err(e) && e@ == (
        ErrorKind::Body,
        "WebSocket: invalid UTF-8: "@ + utf8_problem(data),
    ))
    &&& opcode == Opcode::Binary ==> (r matches Ok(Message::Binary(b)) && b@ == data)
    &&& opcode != Opcode::Text && opcode != Opcode::Binary ==> (r matches Err(e) && e@ == (
        ErrorKind::Body,
        "WebSocket: unexpected opcode in make_data_message"@,
    ))
}

/// Text has to be UTF-8, binary data is taken as it is, and nothing else is a message.
pub proof fn law_data_message(opcode: Opcode, data: Vec<u8>, r: Result<Message, OxiHttpError>)
    requires
        call_ensures(make_data_message, (opcode, data), r),
    ensures
        is_message(opcode, data@, r),
{
}

/// Whether the end of a connection has the reason that a payload gives: none below two bytes, else
/// the number in the first two, the high one first, and the text of the rest, with what is not UTF-8
/// in it replaced.
pub open spec fn gives_reason(payload: Seq<u8>, c: Option<CloseFrame>) -> bool {
    match c {
        None => payload.len() < 2,
        Some(c) => payload.len() >= 2 && c.code == payload[0] * 256 + payload[1] && c.reason@
            == if valid_utf8(payload.skip(2)) {
            decode_utf8(payload.skip(2))
        } else {
            utf8_lossy(payload.skip(2))
        },
    }
}

/// The payload of a Close is a number in two bytes, the high one first, and a text.
pub proof fn law_close_payload(payload: &[u8], r: Option<CloseFrame>)
    requires
        call_ensures(parse_close_frame, (payload,), r),
    ensures
        gives_reason(payload@, r),
{
    lemma_reason(payload@);
}

proof fn lemma_reason(payload: Seq<u8>)
    ensures
        payload.len() >= 2 ==> big_endian_value(payload.take(2)) == payload[0] * 256 + payload[1],
{
    if payload.len() >= 2 {
        let t = payload.take(2);
        reveal_with_fuel(big_endian_value, 3);
        assert(t.drop_last().drop_last() =~= Seq::<u8>::empty());
        assert(t.drop_last().last() == payload[0]);
        assert(t.last() == payload[1]);
    }
}

/// A connection starts open, with no piece of a message and no Close sent, over its stream.
pub proof fn law_new_socket<S>(stream: S, r: WebSocket<S>, closed: bool)
    requires
        call_ensures(WebSocket::<S>::new, (stream,), r),
        call_ensures(WebSocket::<S>::is_closed, (&r,), closed),
    ensures
        !closed,
        r@.buf.len() == 0 && r@.opcode is None && !r@.closed && !r@.close_sent,
        r.carried() == stream,
{
}

/// What a connection is carried on can be changed without a change to the connection.
pub proof fn law_carried<S>(ws: &mut WebSocket<S>, r: &mut S)
    requires
        call_ensures(WebSocket::<S>::stream, (ws,), r),
    ensures
        *old(r) == (*old(ws)).carried(),
        (*final(ws)).carried() == *final(r),
        (*final(ws))@ == (*old(ws))@,
{
}

/// A connection is closed where it says so.
pub proof fn law_is_closed<S>(ws: WebSocket<S>, r: bool)
    requires
        call_ensures(WebSocket::<S>::is_closed, (&ws,), r),
    ensures
        r == ws@.closed,
{
}

/// A ping is answered with a pong of the same payload and handed on; a pong is handed on.
pub proof fn law_probe_received<S>(
    ws: &mut WebSocket<S>,
    f: Frame,
    r: Result<Action, OxiHttpError>,
    payload: &[u8],
    pong: Outgoing,
)
    requires
        call_ensures(WebSocket::<S>::recv, (ws, f), r),
        payload@ == bytes_of(f.payload),
        call_ensures(write_frame, (Opcode::Pong, payload, true), pong),
        !(*old(ws))@.closed,
    ensures
        f.opcode == Opcode::Ping ==> (r matches Ok(Action::Answer(out, Message::Ping(b))) && b@
            == bytes_of(f.payload) && out.wire() == pong.wire()),
        f.opcode == Opcode::Ping && bytes_of(f.payload).len() <= 125 ==> (r matches Ok(
            Action::Answer(out, m),
        ) && out.wire().len() == 2 + bytes_of(f.payload).len() && out.wire()[0] == 0x8a
            && out.wire()[1] == bytes_of(f.payload).len() && out.wire().skip(2) == bytes_of(
            f.payload,
        )),
        f.opcode == Opcode::Pong ==> (r matches Ok(Action::Deliver(Message::Pong(b))) && b@
            == bytes_of(f.payload)),
        f.opcode == Opcode::Ping || f.opcode == Opcode::Pong ==> (*final(ws))@ == (*old(ws))@,
        (*final(ws)).carried() == (*old(ws)).carried(),
{
    let p = bytes_of(f.payload);
    let b = crate::ws::frame_bytes(Opcode::Pong, p);
    if p.len() <= 125 {
        assert(b.skip(2) =~= p);
    }
}

/// A Close is handed on with its reason. Where none was sent it is answered with its own payload;
/// where one was, it closes the connection.
pub proof fn law_close_received<S>(
    ws: &mut WebSocket<S>,
    f: Frame,
    r: Result<Action, OxiHttpError>,
    payload: &[u8],
    answer: Outgoing,
)
    requires
        call_ensures(WebSocket::<S>::recv, (ws, f), r),
        payload@ == bytes_of(f.payload),
        call_ensures(write_frame, (Opcode::Close, payload, true), answer),
        f.opcode == Opcode::Close,
        !(*old(ws))@.closed,
    ensures
        (*old(ws))@.close_sent ==> (r matches Ok(Action::Deliver(Message::Close(c)))
            && gives_reason(bytes_of(f.payload), c)) && (*final(ws))@.closed,
        !(*old(ws))@.close_sent ==> (r matches Ok(Action::Answer(out, Message::Close(c)))
            && gives_reason(bytes_of(f.payload), c) && out.wire() == answer.wire() && (bytes_of(
            f.payload,
        ).len() <= 125 ==> out.wire()[0] == 0x88 && out.wire()[1] == bytes_of(f.payload).len()
            && out.wire().skip(2) == bytes_of(f.payload))) && !(*final(ws))@.closed,
        (*final(ws))@.close_sent == (*old(ws))@.close_sent,
        (*final(ws))@.buf == (*old(ws))@.buf && (*final(ws))@.opcode == (*old(ws))@.opcode,
        (*final(ws)).carried() == (*old(ws)).carried(),
{
    let p = bytes_of(f.payload);
    lemma_reason(p);
    let b = crate::ws::frame_bytes(Opcode::Close, p);
    if p.len() <= 125 {
        assert(b.skip(2) =~= p);
    }
}

/// The message that is handed on, or the error; a bare end stands for anything else.
pub open spec fn handed_on(r: Result<Action, OxiHttpError>) -> Result<Message, OxiHttpError> {
    match r {
        Ok(Action::Deliver(m)) => Ok(m),
        Ok(_) => Ok(Message::Close(None)),
        Err(e) => Err(e),
    }
}

/// A message in one frame is handed on at once. One in pieces is kept until its last piece, and
/// then handed on whole, under the opcode of the first. A message may not start within another, nor
/// go on where none has started.
pub proof fn law_data_received<S>(ws: &mut WebSocket<S>, f: Frame, r: Result<Action, OxiHttpError>)
    requires
        call_ensures(WebSocket::<S>::recv, (ws, f), r),
        !(*old(ws))@.closed,
    ensures
        ({
            let (before, after) = ((*old(ws))@, (*final(ws))@);
            let payload = bytes_of(f.payload);
            let starts = f.opcode == Opcode::Text || f.opcode == Opcode::Binary;
            let goes_on = f.opcode == Opcode::Continuation;
            let handed = handed_on(r);
            &&& starts && before.buf.len() > 0 ==> after == before && (r matches Err(e) && e@ == (
                ErrorKind::Body,
                "WebSocket: unexpected frame sequence"@,
            ))
            &&& starts && before.buf.len() == 0 && f.fin ==> after == before && is_message(
                f.opcode,
                payload,
                handed,
            )
            &&& starts && before.buf.len() == 0 && !f.fin ==> (r matches Ok(Action::Wait))
                && after.buf == payload && after.opcode == Some(f.opcode)
            &&& goes_on && !f.fin ==> (r matches Ok(Action::Wait)) && after.buf == before.buf
                + payload && after.opcode == before.opcode
            &&& goes_on && f.fin && before.opcode is None ==> (r matches Err(e) && e@ == (
                ErrorKind::Body,
                "WebSocket: continuation frame without start frame"@,
            )) && after.buf == before.buf + payload && after.opcode is None
            &&& goes_on && f.fin && before.opcode is Some ==> after.buf.len() == 0
                && after.opcode is None && is_message(
                before.opcode->0,
                before.buf + payload,
                handed,
            )
            &&& starts || goes_on ==> after.closed == before.closed && after.close_sent
                == before.close_sent
        }),
        (*final(ws)).carried() == (*old(ws)).carried(),
{
}

/// Once a connection is closed, a frame does nothing.
pub proof fn law_closed_received<S>(
    ws: &mut WebSocket<S>,
    f: Frame,
    r: Result<Action, OxiHttpError>,
)
    requires
        call_ensures(WebSocket::<S>::recv, (ws, f), r),
        (*old(ws))@.closed,
    ensures
        r matches Ok(Action::Wait),
        (*final(ws))@ == (*old(ws))@,
        (*final(ws)).carried() == (*old(ws)).carried(),
{
}

/// A connection whose answer to a Close was sent is closed; other answers change nothing.
pub proof fn law_answer_sent<S>(ws: &mut WebSocket<S>, m: Message)
    requires
        call_ensures(WebSocket::<S>::answered, (ws, &m), ()),
    ensures
        m is Close ==> (*final(ws))@.closed,
        !(m is Close) ==> (*final(ws))@.closed == (*old(ws))@.closed,
        (*final(ws))@.close_sent == (*old(ws))@.close_sent,
        (*final(ws))@.buf == (*old(ws))@.buf && (*final(ws))@.opcode == (*old(ws))@.opcode,
        (*final(ws)).carried() == (*old(ws)).carried(),
{
}

/// Each message is sent in one frame of its own kind: text as UTF-8, the others as their bytes, and
/// the end as nothing or as its number in two bytes, the high one first, and its text. Sending an
/// end closes the connection, and nothing else does.
pub proof fn law_sent<S>(
    ws: &mut WebSocket<S>,
    m: Message,
    r: Outgoing,
    wire: Outgoing,
    opcode: Opcode,
    payload: &[u8],
)
    requires
        call_ensures(WebSocket::<S>::send, (ws, m), r),
        call_ensures(write_frame, (opcode, payload, true), wire),
        match m {
            Message::Text(s) => opcode == Opcode::Text && payload@ == encode_utf8(s@),
            Message::Binary(b) => opcode == Opcode::Binary && payload@ == b@,
            Message::Ping(b) => opcode == Opcode::Ping && payload@ == b@,
            Message::Pong(b) => opcode == Opcode::Pong && payload@ == b@,
            Message::Close(None) => opcode == Opcode::Close && payload@.len() == 0,
            Message::Close(Some(c)) => opcode == Opcode::Close && payload@ == seq![
                (c.code / 256) as u8,
                (c.code % 256) as u8,
            ] + encode_utf8(c.reason@),
        },
    ensures
        r.wire() == wire.wire(),
        (*final(ws))@.closed == ((*old(ws))@.closed || m is Close),
        (*final(ws))@.close_sent == ((*old(ws))@.close_sent || m is Close),
        (*final(ws))@.buf == (*old(ws))@.buf && (*final(ws))@.opcode == (*old(ws))@.opcode,
        (*final(ws)).carried() == (*old(ws)).carried(),
{
    if let Message::Close(c) = m {
        if let Some(c) = c {
            lemma_code(c.code);
        } else {
            assert(payload@ =~= Seq::<u8>::empty());
        }
    }
}

proof fn lemma_code(code: u16)
    ensures
        big_endian(code as nat, 2) == seq![(code / 256) as u8, (code % 256) as u8],
{
    reveal_with_fuel(big_endian, 3);
    assert(big_endian(code as nat, 2) =~= seq![(code / 256) as u8, (code % 256) as u8]);
}

/// Closing sends a Close with the number and the text, and leaves the connection open for the
/// answer.
pub proof fn law_close_sent<S>(
    ws: &mut WebSocket<S>,
    code: u16,
    reason: &str,
    r: Outgoing,
    wire: Outgoing,
    payload: &[u8],
)
    requires
        call_ensures(WebSocket::<S>::close, (ws, code, reason), r),
        payload@ == seq![(code / 256) as u8, (code % 256) as u8] + encode_utf8(reason@),
        call_ensures(write_frame, (Opcode::Close, payload, true), wire),
    ensures
        r.wire() == wire.wire(),
        (*final(ws))@.close_sent,
        (*final(ws))@.closed == (*old(ws))@.closed,
        (*final(ws))@.buf == (*old(ws))@.buf && (*final(ws))@.opcode == (*old(ws))@.opcode,
        (*final(ws)).carried() == (*old(ws)).carried(),
{
    lemma_code(code);
}

/// A request for an upgrade says `websocket` in any case of letters, the version 13 and a key that
/// is not empty. It is refused for the first of these that is wrong.
pub proof fn law_upgrade_request(
    headers: HeaderMap,
    upgrade: Option<&str>,
    small: String,
    version: Option<&str>,
    key: Option<&str>,
    r: Result<String, OxiHttpError>,
)
    requires
        call_ensures(validate_upgrade_request, (&headers,), r),
        call_ensures(get_str, (&headers, "upgrade"), upgrade),
        call_ensures(get_str, (&headers, "sec-websocket-version"), version),
        call_ensures(get_str, (&headers, "sec-websocket-key"), key),
        upgrade matches Some(u) ==> call_ensures(to_lower, (u,), small),
    ensures
        match r {
            Ok(k) => upgrade is Some && small@ == "websocket"@ && version is Some && version->0@
                == "13"@ && key is Some && key->0@.len() > 0 && k@ == key->0@,
            Err(e) => e@.0 == ErrorKind::Body && e@.1 == if upgrade is None {
                "WebSocket: missing Upgrade header"@
            } else if small@ != "websocket"@ {
                "WebSocket: Upgrade header is '"@ + upgrade->0@ + "', expected 'websocket'"@
            } else if version is None {
                "WebSocket: missing Sec-WebSocket-Version header"@
            } else if version->0@ != "13"@ {
                "WebSocket: unsupported version '"@ + version->0@
                    + "', only version 13 is supported"@
            } else {
                "WebSocket: missing Sec-WebSocket-Key header"@
            },
        },
        r is Err ==> upgrade is None || small@ != "websocket"@ || version is None || version->0@
            != "13"@ || key is None || key->0@.len() == 0,
{
    reveal_strlit("websocket");
    assert(crate::text::lower("websocket"@) =~= "websocket"@);
}

/// The answer to a key is the Base64 text of the SHA-1 digest of the key with the GUID of the
/// standard behind it.
pub proof fn law_accept_key(key: &str, r: String, digest: &[u8], text: String)
    requires
        call_ensures(compute_accept_key, (key,), r),
        digest@ == sha1_digest(
            encode_utf8(key@) + encode_utf8("258EAFA5-E914-47DA-95CA-C5AB0DC85B11"@),
        ),
        call_ensures(base64_encode, (digest,), text),
    ensures
        r@ == text@,
{
}

/// A request for an upgrade that is in order is answered with 101, no body and exactly the headers
/// of the standard; any other with the error of its check.
pub proof fn law_upgraded(
    headers: HeaderMap,
    checked: Result<String, OxiHttpError>,
    key: &str,
    accept: String,
    r: Result<Reply, OxiHttpError>,
)
    requires
        call_ensures(upgrade, (&headers,), r),
        call_ensures(validate_upgrade_request, (&headers,), checked),
        checked matches Ok(k) ==> key@ == k@ && call_ensures(compute_accept_key, (key,), accept),
    ensures
        match checked {
            Ok(_) => r matches Ok(f) && f@.status == 101 && f@.body.len() == 0 && f@.headers
                == Map::<Seq<char>, Seq<Seq<u8>>>::empty().insert(
                "upgrade"@,
                seq![encode_utf8("websocket"@)],
            ).insert("connection"@, seq![encode_utf8("Upgrade"@)]).insert(
                "sec-websocket-accept"@,
                seq![encode_utf8(accept@)],
            ),
            Err(e) => r matches Err(g) && g@ == e@,
        },
{
}

} // verus!
