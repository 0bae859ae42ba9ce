//! WebSocket messages over frames, and the upgrade handshake (RFC 6455).
//!
//! A [`WebSocket`] decides what each frame means and what has to be sent; reading and writing is
//! left to its owner.

use http::HeaderMap;
use vstd::prelude::*;
use vstd::slice::{slice_subrange, slice_to_vec};
use vstd::utf8::{decode_utf8, encode_utf8, valid_utf8};

use crate::encoding::{
    base64_text, is_base64_char, law_base64_shape, sha1, sha1_digest, standard_base64,
    string_from_utf8, string_from_utf8_lossy, utf8_lossy, utf8_problem,
};
use crate::error::{ErrorKind, OxiHttpError};
use crate::headers::{
    get_str, header_str, lemma_known_names, lemma_plain_value, no_entries, plain, plain_char,
    set_text, with_header,
};
use crate::http_types::{Reply, ReplyView};
use crate::octets::{
    big_endian, big_endian_value, bytes_slice, lemma_big_endian, lemma_power_of_256,
};
use crate::text::{lower, same_text, to_lower};
use crate::ws_frame::{
    body_failure, control, decode, header_bytes, law_frame_roundtrip, write_frame, Frame, FrameView,
    Opcode, Outgoing, MAX_PAYLOAD_LEN,
};

verus! {

/// The GUID that is appended to the client's key for the handshake (RFC 6455 §1.3).
pub const WS_MAGIC: &'static str = "258EAFA5-E914-47DA-95CA-C5AB0DC85B11";

// ---------------------------------------------------------------------------
// Messages
// ---------------------------------------------------------------------------

/// A complete message.
#[derive(Debug, Clone, PartialEq, Eq)]
pub enum Message {
    /// UTF-8 text.
    Text(String),
    /// Binary data.
    Binary(Vec<u8>),
    /// A ping with up to 125 bytes.
    Ping(Vec<u8>),
    /// A pong with up to 125 bytes.
    Pong(Vec<u8>),
    /// The end of the connection, with the reason where one was given.
    Close(Option<CloseFrame>),
}

/// The reason for the end of a connection (RFC 6455 §5.5.1).
#[derive(Debug, Clone, PartialEq, Eq)]
pub struct CloseFrame {
    /// The status code, such as 1000 for a normal end.
    pub code: u16,
    /// The reason in words; may be empty.
    pub reason: String,
}

/// What a message says.
pub enum MessageView {
    Text(Seq<char>),
    Binary(Seq<u8>),
    Ping(Seq<u8>),
    Pong(Seq<u8>),
    Close(Option<(u16, Seq<char>)>),
}

/// What the reason for the end of a connection says.
pub open spec fn close_view(c: Option<CloseFrame>) -> Option<(u16, Seq<char>)> {
    match c {
        Some(c) => Some((c.code, c.reason@)),
        None => None,
    }
}

impl View for Message {
    type V = MessageView;

    open spec fn view(&self) -> MessageView {
        match *self {
            Message::Text(s) => MessageView::Text(s@),
            Message::Binary(b) => MessageView::Binary(b@),
            Message::Ping(b) => MessageView::Ping(b@),
            Message::Pong(b) => MessageView::Pong(b@),
            Message::Close(c) => MessageView::Close(close_view(c)),
        }
    }
}

/// The message that a payload is, for a text or a binary opcode.
pub open spec fn data_message(opcode: Opcode, data: Seq<u8>) -> Result<
    MessageView,
    (ErrorKind, Seq<char>),
> {
    match opcode {
        Opcode::Text => if valid_utf8(data) {
            Ok(MessageView::Text(decode_utf8(data)))
        } else {
            body_failure("WebSocket: invalid UTF-8: "@ + utf8_problem(data))
        },
        Opcode::Binary => Ok(MessageView::Binary(data)),
        _ => body_failure("WebSocket: unexpected opcode in make_data_message"@),
    }
}

/// Turns a payload into a text or a binary message.
pub fn make_data_message(opcode: Opcode, data: Vec<u8>) -> (r: Result<Message, OxiHttpError>)
    ensures
        data_message(opcode, data@) == match r {
            Ok(m) => Ok(m@),
            Err(e) => Err(e@),
        },
{
    match opcode {
        Opcode::Text => match string_from_utf8(data) {
            Ok(s) => Ok(Message::Text(s)),
            Err(why) => {
                let mut m = "WebSocket: invalid UTF-8: ".to_owned();
                m.append(why.as_str());
                Err(OxiHttpError::Body(m))
            },
        },
        Opcode::Binary => Ok(Message::Binary(data)),
        _ => Err(
            OxiHttpError::Body("WebSocket: unexpected opcode in make_data_message".to_owned()),
        ),
    }
}

/// The text of a reason: what is not UTF-8 in it is replaced.
pub open spec fn reason_text(data: Seq<u8>) -> Seq<char> {
    if valid_utf8(data) {
        decode_utf8(data)
    } else {
        utf8_lossy(data)
    }
}

/// The reason that the payload of a Close frame gives, where it has room for a status code.
pub open spec fn close_reason(payload: Seq<u8>) -> Option<(u16, Seq<char>)> {
    if payload.len() < 2 {
        None
    } else {
        Some((big_endian_value(payload.take(2)) as u16, reason_text(payload.skip(2))))
    }
}

/// Reads the payload of a Close frame.
pub fn parse_close_frame(payload: &[u8]) -> (r: Option<CloseFrame>)
    ensures
        close_view(r) == close_reason(payload@),
{
    if payload.len() < 2 {
        return None;
    }
    let code: u16 = payload[0] as u16 * 256 + payload[1] as u16;
    let n: usize = payload.len();
    let rest = slice_subrange(payload, 2, n);
    let reason = string_from_utf8_lossy(rest);
    proof {
        assert(rest@ =~= payload@.skip(2));
        reveal_with_fuel(big_endian_value, 3);
        let t = payload@.take(2);
        assert(t.drop_last().drop_last() =~= Seq::<u8>::empty());
        assert(t.drop_last().last() == payload@[0]);
        assert(t.last() == payload@[1]);
    }
    Some(CloseFrame { code, reason })
}

/// The payload of a Close frame with the given reason.
pub open spec fn close_payload(c: Option<(u16, Seq<char>)>) -> Seq<u8> {
    match c {
        Some(c) => big_endian(c.0 as nat, 2) + encode_utf8(c.1),
        None => Seq::empty(),
    }
}

/// Writes the payload of a Close frame.
fn close_bytes(code: u16, reason: &str) -> (r: Vec<u8>)
    ensures
        r@ == close_payload(Some((code, reason@))),
{
    let mut payload: Vec<u8> = Vec::new();
    payload.push((code / 256) as u8);
    payload.push((code % 256) as u8);
    proof {
        reveal_with_fuel(big_endian, 3);
        assert(payload@ =~= big_endian(code as nat, 2));
    }
    payload.extend_from_slice(reason.as_bytes());
    assert(payload@ =~= close_payload(Some((code, reason@))));
    payload
}

// ---------------------------------------------------------------------------
// The connection
// ---------------------------------------------------------------------------

/// A WebSocket connection over a stream.
///
/// The stream is only kept here; whoever owns the connection reads from it and writes to it.
pub struct WebSocket<S> {
    /// The stream.
    stream: S,
    /// The payload of the fragments so far.
    frag_buf: Vec<u8>,
    /// The opcode of the first fragment.
    frag_opcode: Option<Opcode>,
    /// Whether the connection is closed.
    closed: bool,
    /// Whether a Close frame was sent, so that none is sent twice.
    close_sent: bool,
}

/// What a connection remembers between frames.
pub struct SocketState {
    /// The payload of the fragments so far.
    pub buf: Seq<u8>,
    /// The opcode of the first fragment.
    pub opcode: Option<Opcode>,
    pub closed: bool,
    pub close_sent: bool,
}

/// What to do about a frame.
#[derive(Debug, Clone)]
pub enum Action {
    /// Read the next frame.
    Wait,
    /// Hand the message on.
    Deliver(Message),
    /// Send the frame; once it is sent, tell [`WebSocket::answered`] and hand the message on.
    Answer(Outgoing, Message),
}

/// What an [`Action`] says; frames are given by their bytes.
pub enum ActionView {
    Wait,
    Deliver(MessageView),
    Answer(Seq<u8>, MessageView),
}

impl View for Action {
    type V = ActionView;

    open spec fn view(&self) -> ActionView {
        match *self {
            Action::Wait => ActionView::Wait,
            Action::Deliver(m) => ActionView::Deliver(m@),
            Action::Answer(f, m) => ActionView::Answer(f.wire(), m@),
        }
    }
}

/// The bytes of an unfragmented frame.
pub open spec fn frame_bytes(opcode: Opcode, payload: Seq<u8>) -> Seq<u8> {
    header_bytes(opcode, payload.len(), true) + payload
}

/// A message to hand on, or the error.
pub open spec fn delivered(m: Result<MessageView, (ErrorKind, Seq<char>)>) -> Result<
    ActionView,
    (ErrorKind, Seq<char>),
> {
    match m {
        Ok(m) => Ok(ActionView::Deliver(m)),
        Err(e) => Err(e),
    }
}

/// What a connection makes of a frame: what it remembers then, and what to do. One that is closed
/// makes nothing of it.
pub open spec fn on_frame(st: SocketState, f: FrameView) -> (
    SocketState,
    Result<ActionView, (ErrorKind, Seq<char>)>,
) {
    if st.closed {
        (st, Ok(ActionView::Wait))
    } else {
        match f.opcode {
            Opcode::Ping => (
                st,
                Ok(
                    ActionView::Answer(
                        frame_bytes(Opcode::Pong, f.payload),
                        MessageView::Ping(f.payload),
                    ),
                ),
            ),
            Opcode::Pong => (st, Ok(ActionView::Deliver(MessageView::Pong(f.payload)))),
            Opcode::Close => {
                let m = MessageView::Close(close_reason(f.payload));
                if st.close_sent {
                    (SocketState { closed: true, ..st }, Ok(ActionView::Deliver(m)))
                } else {
                    (st, Ok(ActionView::Answer(frame_bytes(Opcode::Close, f.payload), m)))
                }
            },
            Opcode::Continuation => {
                let buf = st.buf + f.payload;
                if !f.fin {
                    (SocketState { buf, ..st }, Ok(ActionView::Wait))
                } else {
                    match st.opcode {
                        None => (
                            SocketState { buf, ..st },
                            body_failure("WebSocket: continuation frame without start frame"@),
                        ),
                        Some(opcode) => (
                            SocketState { buf: Seq::empty(), opcode: None, ..st },
                            delivered(data_message(opcode, buf)),
                        ),
                    }
                }
            },
            Opcode::Text | Opcode::Binary => if st.buf.len() > 0 {
                (st, body_failure("WebSocket: unexpected frame sequence"@))
            } else if f.fin {
                (st, delivered(data_message(f.opcode, f.payload)))
            } else {
                (
                    SocketState { buf: f.payload, opcode: Some(f.opcode), ..st },
                    Ok(ActionView::Wait),
                )
            },
        }
    }
}

/// What a connection remembers once the answer to a message is sent: that to a Close closes it.
pub open spec fn after_answer(st: SocketState, m: MessageView) -> SocketState {
    SocketState { closed: st.closed || m is Close, ..st }
}

/// The frame that a message is sent in: its opcode and its payload.
pub open spec fn message_frame(m: MessageView) -> (Opcode, Seq<u8>) {
    match m {
        MessageView::Text(s) => (Opcode::Text, encode_utf8(s)),
        MessageView::Binary(b) => (Opcode::Binary, b),
        MessageView::Ping(b) => (Opcode::Ping, b),
        MessageView::Pong(b) => (Opcode::Pong, b),
        MessageView::Close(c) => (Opcode::Close, close_payload(c)),
    }
}

impl<S> View for WebSocket<S> {
    type V = SocketState;

    closed spec fn view(&self) -> SocketState {
        SocketState {
            buf: self.frag_buf@,
            opcode: self.frag_opcode,
            closed: self.closed,
            close_sent: self.close_sent,
        }
    }
}

/// What a connection remembers at first.
pub open spec fn fresh_socket() -> SocketState {
    SocketState { buf: Seq::empty(), opcode: None, closed: false, close_sent: false }
}

impl<S> WebSocket<S> {
    /// The stream that the connection is over.
    pub closed spec fn carried(self) -> S {
        self.stream
    }

    /// Lends the stream, to read from it and to write to it.
    pub fn stream(&mut self) -> (r: &mut S)
        ensures
            *r == old(self).carried(),
            final(self).carried() == *final(r),
            final(self)@ == old(self)@,
    {
        &mut self.stream
    }

    /// A connection over the stream.
    pub fn new(stream: S) -> (r: Self)
        ensures
            r@ == fresh_socket(),
            r.carried() == stream,
    {
        WebSocket {
            stream,
            frag_buf: Vec::new(),
            frag_opcode: None,
            closed: false,
            close_sent: false,
        }
    }

    /// Whether the connection is closed, so that no further message comes.
    pub fn is_closed(&self) -> (r: bool)
        ensures
            r == self@.closed,
    {
        self.closed
    }

    /// Takes the next frame and says what to do about it.
    ///
    /// - A Ping is answered with a Pong and then handed on.
    /// - Fragments are put together to a message.
    /// - A Close is answered once and then handed on.
    /// - Once the connection is closed, a frame is passed over.
    pub fn recv(&mut self, frame: Frame) -> (r: Result<Action, OxiHttpError>)
        ensures
            final(self)@ == on_frame(old(self)@, frame@).0,
            on_frame(old(self)@, frame@).1 == match r {
                Ok(a) => Ok(a@),
                Err(e) => Err(e@),
            },
            old(self)@.closed ==> final(self)@ == old(self)@ && (r matches Ok(a) && a@
                == ActionView::Wait),
            final(self).carried() == old(self).carried(),
    {
        if self.closed {
            return Ok(Action::Wait);
        }
        let payload = bytes_slice(&frame.payload);
        match frame.opcode {
            Opcode::Ping => {
                let reply = write_frame(Opcode::Pong, payload, true);
                Ok(Action::Answer(reply, Message::Ping(slice_to_vec(payload))))
            },
            Opcode::Pong => Ok(Action::Deliver(Message::Pong(slice_to_vec(payload)))),
            Opcode::Close => {
                let close = parse_close_frame(payload);
                if self.close_sent {
                    self.closed = true;
                    Ok(Action::Deliver(Message::Close(close)))
                } else {
                    let reply = write_frame(Opcode::Close, payload, true);
                    Ok(Action::Answer(reply, Message::Close(close)))
                }
            },
            Opcode::Continuation => {
                self.frag_buf.extend_from_slice(payload);
                assert(self.frag_buf@ =~= old(self).frag_buf@ + payload@);
                if !frame.fin {
                    return Ok(Action::Wait);
                }
                match self.frag_opcode {
                    None => Err(
                        OxiHttpError::Body(
                            "WebSocket: continuation frame without start frame".to_owned(),
                        ),
                    ),
                    Some(opcode) => {
                        self.frag_opcode = None;
                        let mut data: Vec<u8> = Vec::new();
                        std::mem::swap(&mut data, &mut self.frag_buf);
                        match make_data_message(opcode, data) {
                            Ok(m) => Ok(Action::Deliver(m)),
                            Err(e) => Err(e),
                        }
                    },
                }
            },
            Opcode::Text | Opcode::Binary => {
                if self.frag_buf.len() > 0 {
                    return Err(
                        OxiHttpError::Body("WebSocket: unexpected frame sequence".to_owned()),
                    );
                }
                if frame.fin {
                    match make_data_message(frame.opcode, slice_to_vec(payload)) {
                        Ok(m) => Ok(Action::Deliver(m)),
                        Err(e) => Err(e),
                    }
                } else {
                    self.frag_opcode = Some(frame.opcode);
                    self.frag_buf.extend_from_slice(payload);
                    assert(self.frag_buf@ =~= payload@);
                    Ok(Action::Wait)
                }
            },
        }
    }

    /// Takes note that the answer to a message was sent.
    pub fn answered(&mut self, message: &Message)
        ensures
            final(self)@ == after_answer(old(self)@, message@),
            final(self).carried() == old(self).carried(),
    {
        if let Message::Close(_) = message {
            self.closed = true;
        }
    }

    /// The frame in which to send a message. After a Close nothing more is received.
    pub fn send(&mut self, msg: Message) -> (r: Outgoing)
        ensures
            r.wire() == frame_bytes(message_frame(msg@).0, message_frame(msg@).1),
            final(self)@ == (if msg is Close {
                SocketState { closed: true, close_sent: true, ..old(self)@ }
            } else {
                old(self)@
            }),
            final(self).carried() == old(self).carried(),
    {
        match msg {
            Message::Text(s) => write_frame(Opcode::Text, s.as_str().as_bytes(), true),
            Message::Binary(b) => write_frame(Opcode::Binary, b.as_slice(), true),
            Message::Ping(p) => write_frame(Opcode::Ping, p.as_slice(), true),
            Message::Pong(p) => write_frame(Opcode::Pong, p.as_slice(), true),
            Message::Close(cf) => {
                let payload = match cf {
                    Some(cf) => close_bytes(cf.code, cf.reason.as_str()),
                    None => Vec::new(),
                };
                self.close_sent = true;
                self.closed = true;
                assert(payload@ =~= close_payload(close_view(cf)));
                write_frame(Opcode::Close, payload.as_slice(), true)
            },
        }
    }

    /// The frame that starts the end of the connection. The other side's answer is then received
    /// like any message.
    pub fn close(&mut self, code: u16, reason: &str) -> (r: Outgoing)
        ensures
            r.wire() == frame_bytes(Opcode::Close, close_payload(Some((code, reason@)))),
            final(self)@ == (SocketState { close_sent: true, ..old(self)@ }),
            final(self).carried() == old(self).carried(),
    {
        let payload = close_bytes(code, reason);
        self.close_sent = true;
        write_frame(Opcode::Close, payload.as_slice(), true)
    }
}

// ---------------------------------------------------------------------------
// The handshake
// ---------------------------------------------------------------------------

/// The key of an upgrade request, or why the request is refused (RFC 6455 §4.1).
///
/// The request has `Upgrade: websocket` in any case of letters, `Sec-WebSocket-Version: 13` and a
/// `Sec-WebSocket-Key` that is not empty.
pub open spec fn upgrade_key(m: HeaderMap) -> Result<Seq<char>, (ErrorKind, Seq<char>)> {
    match header_str(m, "upgrade"@) {
        None => body_failure("WebSocket: missing Upgrade header"@),
        Some(upgrade) => if lower(upgrade) != lower("websocket"@) {
            body_failure(
                "WebSocket: Upgrade header is '"@ + upgrade + "', expected 'websocket'"@,
            )
        } else {
            match header_str(m, "sec-websocket-version"@) {
                None => body_failure("WebSocket: missing Sec-WebSocket-Version header"@),
                Some(version) => if version != "13"@ {
                    body_failure(
                        "WebSocket: unsupported version '"@ + version
                            + "', only version 13 is supported"@,
                    )
                } else {
                    match header_str(m, "sec-websocket-key"@) {
                        None => body_failure("WebSocket: missing Sec-WebSocket-Key header"@),
                        Some(key) => if key.len() == 0 {
                            body_failure("WebSocket: missing Sec-WebSocket-Key header"@)
                        } else {
                            Ok(key)
                        },
                    }
                },
            }
        },
    }
}

/// Checks the headers of an upgrade request and gives its key.
pub fn validate_upgrade_request(headers: &HeaderMap) -> (r: Result<String, OxiHttpError>)
    ensures
        upgrade_key(*headers) == match r {
            Ok(key) => Ok(key@),
            Err(e) => Err(e@),
        },
{
    let upgrade = match get_str(headers, "upgrade") {
        Some(v) => v,
        None => return Err(OxiHttpError::Body("WebSocket: missing Upgrade header".to_owned())),
    };
    if !same_text(to_lower(upgrade).as_str(), to_lower("websocket").as_str()) {
        let mut m = "WebSocket: Upgrade header is '".to_owned();
        m.append(upgrade);
        m.append("', expected 'websocket'");
        return Err(OxiHttpError::Body(m));
    }
    let version = match get_str(headers, "sec-websocket-version") {
        Some(v) => v,
        None => return Err(
            OxiHttpError::Body("WebSocket: missing Sec-WebSocket-Version header".to_owned()),
        ),
    };
    if !same_text(version, "13") {
        let mut m = "WebSocket: unsupported version '".to_owned();
        m.append(version);
        m.append("', only version 13 is supported");
        return Err(OxiHttpError::Body(m));
    }
    match get_str(headers, "sec-websocket-key") {
        Some(v) => if v.is_empty() {
            Err(OxiHttpError::Body("WebSocket: missing Sec-WebSocket-Key header".to_owned()))
        } else {
            Ok(v.to_owned())
        },
        None => Err(OxiHttpError::Body("WebSocket: missing Sec-WebSocket-Key header".to_owned())),
    }
}

/// The value of `Sec-WebSocket-Accept` for a key (RFC 6455 §4.2.2).
pub open spec fn accept_key(key: Seq<char>) -> Seq<char> {
    base64_text(sha1_digest(encode_utf8(key) + encode_utf8(WS_MAGIC@)))
}

/// Computes the value of `Sec-WebSocket-Accept`.
pub fn compute_accept_key(key: &str) -> (r: String)
    ensures
        r@ == accept_key(key@),
        plain(r@),
{
    let mut data = slice_to_vec(key.as_bytes());
    data.extend_from_slice(WS_MAGIC.as_bytes());
    assert(data@ =~= encode_utf8(key@) + encode_utf8(WS_MAGIC@));
    let hash = sha1(data.as_slice());
    proof {
        law_base64_shape(hash@);
        assert(forall|c: char| #[trigger] is_base64_char(c) ==> plain_char(c));
    }
    standard_base64(hash.as_slice())
}

/// The answer to an upgrade request with the given key.
pub open spec fn upgrade_reply(key: Seq<char>) -> ReplyView {
    ReplyView {
        status: 101,
        headers: with_header(
            with_header(
                with_header(no_entries(), "upgrade"@, "websocket"@),
                "connection"@,
                "Upgrade"@,
            ),
            "sec-websocket-accept"@,
            accept_key(key),
        ),
        body: Seq::empty(),
    }
}

/// Checks an upgrade request by its headers and gives the answer that switches protocols.
pub fn upgrade(headers: &HeaderMap) -> (r: Result<Reply, OxiHttpError>)
    ensures
        match upgrade_key(*headers) {
            Ok(key) => r matches Ok(reply) && reply@ == upgrade_reply(key),
            Err(e) => r matches Err(f) && f@ == e,
        },
{
    let key = match validate_upgrade_request(headers) {
        Ok(key) => key,
        Err(e) => return Err(e),
    };
    let accept = compute_accept_key(key.as_str());
    let mut reply = Reply::empty(101);
    proof {
        lemma_known_names();
        reveal_strlit("websocket");
        reveal_strlit("Upgrade");
        lemma_plain_value("websocket"@);
        lemma_plain_value("Upgrade"@);
        lemma_plain_value(accept@);
    }
    set_text(&mut reply.headers, "upgrade", "websocket");
    set_text(&mut reply.headers, "connection", "Upgrade");
    set_text(&mut reply.headers, "sec-websocket-accept", accept.as_str());
    Ok(reply)
}

// ---------------------------------------------------------------------------
// Laws
// ---------------------------------------------------------------------------

/// What a connection makes of a row of frames: what it remembers then, and what to do about each.
pub open spec fn on_frames(st: SocketState, frames: Seq<FrameView>) -> (
    SocketState,
    Seq<Result<ActionView, (ErrorKind, Seq<char>)>>,
)
    decreases frames.len(),
{
    if frames.len() == 0 {
        (st, Seq::empty())
    } else {
        let before = on_frames(st, frames.drop_last());
        let step = on_frame(before.0, frames.last());
        (step.0, before.1.push(step.1))
    }
}

/// A message in pieces: a frame for each, the last one marked as such.
pub open spec fn fragments(opcode: Opcode, parts: Seq<Seq<u8>>) -> Seq<FrameView> {
    Seq::new(
        parts.len(),
        |i: int|
            FrameView {
                fin: i == parts.len() - 1,
                opcode: if i == 0 {
                    opcode
                } else {
                    Opcode::Continuation
                },
                payload: parts[i],
            },
    )
}

/// The pieces put together.
pub open spec fn assembled(parts: Seq<Seq<u8>>) -> Seq<u8>
    decreases parts.len(),
{
    if parts.len() == 0 {
        Seq::empty()
    } else {
        assembled(parts.drop_last()) + parts.last()
    }
}

/// After some but not all pieces of a message.
proof fn lemma_fragments_so_far(st: SocketState, opcode: Opcode, parts: Seq<Seq<u8>>, n: nat)
    requires
        opcode == Opcode::Text || opcode == Opcode::Binary,
        !st.closed,
        st.buf.len() == 0,
        st.opcode is None,
        0 < n < parts.len(),
    ensures
        on_frames(st, fragments(opcode, parts).take(n as int)).0 == (SocketState {
            buf: assembled(parts.take(n as int)),
            opcode: Some(opcode),
            ..st
        }),
        on_frames(st, fragments(opcode, parts).take(n as int)).1 == Seq::new(
            n,
            |i: int| Ok::<ActionView, (ErrorKind, Seq<char>)>(ActionView::Wait),
        ),
    decreases n,
{
    let frames = fragments(opcode, parts).take(n as int);
    let m = (n - 1) as nat;
    assert(frames.drop_last() =~= fragments(opcode, parts).take(m as int));
    assert(parts.take(n as int).drop_last() =~= parts.take(m as int));
    if n == 1 {
        assert(frames.drop_last() =~= Seq::empty());
        assert(parts.take(1).drop_last() =~= Seq::empty());
        assert(assembled(parts.take(0)) =~= Seq::<u8>::empty());
        assert(assembled(parts.take(1)) =~= parts[0]);
        assert(on_frames(st, frames).1 =~= Seq::new(
            n,
            |i: int| Ok::<ActionView, (ErrorKind, Seq<char>)>(ActionView::Wait),
        ));
    } else {
        lemma_fragments_so_far(st, opcode, parts, m);
        assert(on_frames(st, frames).1 =~= Seq::new(
            n,
            |i: int| Ok::<ActionView, (ErrorKind, Seq<char>)>(ActionView::Wait),
        ));
    }
}

/// A message that comes in pieces is handed on once, whole, with the last piece, and the
/// connection is then as it was.
pub proof fn law_fragments_reassembled(st: SocketState, opcode: Opcode, parts: Seq<Seq<u8>>)
    requires
        opcode == Opcode::Text || opcode == Opcode::Binary,
        !st.closed,
        st.buf.len() == 0,
        st.opcode is None,
        parts.len() > 0,
    ensures
        on_frames(st, fragments(opcode, parts)).0 == st,
        on_frames(st, fragments(opcode, parts)).1 == Seq::new(
            (parts.len() - 1) as nat,
            |i: int| Ok::<ActionView, (ErrorKind, Seq<char>)>(ActionView::Wait),
        ).push(delivered(data_message(opcode, assembled(parts)))),
{
    let frames = fragments(opcode, parts);
    let n = (parts.len() - 1) as nat;
    assert(st.buf =~= Seq::<u8>::empty());
    assert(frames.drop_last() =~= frames.take(n as int));
    assert(parts.drop_last() =~= parts.take(n as int));
    if n > 0 {
        lemma_fragments_so_far(st, opcode, parts, n);
    } else {
        assert(frames.drop_last() =~= Seq::empty());
        assert(assembled(parts.drop_last()) =~= Seq::<u8>::empty());
        assert(assembled(parts) =~= parts[0]);
        assert(on_frames(st, frames.drop_last()).1 =~= Seq::new(
            n,
            |i: int| Ok::<ActionView, (ErrorKind, Seq<char>)>(ActionView::Wait),
        ));
    }
}

/// Whether a frame is a ping or a pong.
pub open spec fn probe(f: FrameView) -> bool {
    f.opcode == Opcode::Ping || f.opcode == Opcode::Pong
}

/// The frames that are neither pings nor pongs, in order.
pub open spec fn without_probes(frames: Seq<FrameView>) -> Seq<FrameView>
    decreases frames.len(),
{
    if frames.len() == 0 {
        Seq::empty()
    } else if probe(frames.last()) {
        without_probes(frames.drop_last())
    } else {
        without_probes(frames.drop_last()).push(frames.last())
    }
}

/// What there is to do about the frames that are neither pings nor pongs, out of what there is to
/// do about all.
pub open spec fn actions_without_probes(
    frames: Seq<FrameView>,
    actions: Seq<Result<ActionView, (ErrorKind, Seq<char>)>>,
) -> Seq<Result<ActionView, (ErrorKind, Seq<char>)>>
    decreases frames.len(),
{
    if frames.len() == 0 {
        Seq::empty()
    } else if probe(frames.last()) {
        actions_without_probes(frames.drop_last(), actions.drop_last())
    } else {
        actions_without_probes(frames.drop_last(), actions.drop_last()).push(actions.last())
    }
}

/// Pings and pongs may come anywhere, also between the pieces of a message: what the other frames
/// come to is as if they had not come.
pub proof fn law_probes_interleave(st: SocketState, frames: Seq<FrameView>)
    ensures
        on_frames(st, frames).0 == on_frames(st, without_probes(frames)).0,
        actions_without_probes(frames, on_frames(st, frames).1) == on_frames(
            st,
            without_probes(frames),
        ).1,
    decreases frames.len(),
{
    if frames.len() > 0 {
        let less = frames.drop_last();
        law_probes_interleave(st, less);
        assert(on_frames(st, frames).1.drop_last() =~= on_frames(st, less).1);
        if !probe(frames.last()) {
            assert(without_probes(frames).drop_last() =~= without_probes(less));
        }
    }
}

/// A ping is answered with a pong that the other side reads with the same payload.
pub proof fn law_ping_answered(st: SocketState, payload: Seq<u8>)
    requires
        !st.closed,
        payload.len() <= 125,
    ensures
        on_frame(st, FrameView { fin: true, opcode: Opcode::Ping, payload }).1 matches Ok(
            ActionView::Answer(reply, message),
        ) && message == MessageView::Ping(payload) && decode(reply) == Ok::<
            (FrameView, nat),
            (ErrorKind, Seq<char>),
        >((FrameView { fin: true, opcode: Opcode::Pong, payload }, reply.len())),
{
    lemma_frame_bytes(Opcode::Pong, payload);
}

/// The bytes of a frame within the limits are read as that frame.
proof fn lemma_frame_bytes(opcode: Opcode, payload: Seq<u8>)
    requires
        payload.len() <= MAX_PAYLOAD_LEN,
        control(opcode) ==> payload.len() <= 125,
    ensures
        decode(frame_bytes(opcode, payload)) == Ok::<(FrameView, nat), (ErrorKind, Seq<char>)>(
            (FrameView { fin: true, opcode, payload }, frame_bytes(opcode, payload).len()),
        ),
{
    law_frame_roundtrip(opcode, payload, true, Seq::empty());
    let b = frame_bytes(opcode, payload);
    assert(b + Seq::<u8>::empty() =~= b);
}

/// A Close is answered with its own payload where none was sent before, and not again otherwise.
pub proof fn law_close_answered_once(st: SocketState, payload: Seq<u8>)
    requires
        !st.closed,
        payload.len() <= 125,
    ensures
        ({
            let f = FrameView { fin: true, opcode: Opcode::Close, payload };
            let m = MessageView::Close(close_reason(payload));
            &&& st.close_sent ==> on_frame(st, f).1 == Ok::<ActionView, (ErrorKind, Seq<char>)>(
                ActionView::Deliver(m),
            ) && on_frame(st, f).0.closed
            &&& !st.close_sent ==> (on_frame(st, f).1 matches Ok(ActionView::Answer(reply, message))
                && message == m && decode(reply) == Ok::<(FrameView, nat), (ErrorKind, Seq<char>)>(
                (f, reply.len()),
            ))
        }),
{
    lemma_frame_bytes(Opcode::Close, payload);
}

/// What a connection remembers after a frame, once the answer is sent where one is due.
pub open spec fn settled(st: SocketState, f: FrameView) -> SocketState {
    let step = on_frame(st, f);
    match step.1 {
        Ok(ActionView::Answer(_, m)) => after_answer(step.0, m),
        _ => step.0,
    }
}

/// Once a connection is closed, whatever frames still come are passed over: nothing is answered
/// and nothing is handed on.
pub proof fn law_closed_is_silent(st: SocketState, frames: Seq<FrameView>)
    requires
        st.closed,
    ensures
        on_frames(st, frames) == (
            st,
            Seq::new(
                frames.len(),
                |i: int| Ok::<ActionView, (ErrorKind, Seq<char>)>(ActionView::Wait),
            ),
        ),
    decreases frames.len(),
{
    if frames.len() > 0 {
        law_closed_is_silent(st, frames.drop_last());
    }
    assert(on_frames(st, frames).1 =~= Seq::new(
        frames.len(),
        |i: int| Ok::<ActionView, (ErrorKind, Seq<char>)>(ActionView::Wait),
    ));
}

/// A Close that comes, once it is answered where that is due, closes the connection: whatever
/// frames come after it are passed over.
pub proof fn law_received_close_ends(st: SocketState, close: FrameView, frames: Seq<FrameView>)
    requires
        close.opcode == Opcode::Close,
    ensures
        settled(st, close).closed,
        on_frames(settled(st, close), frames) == (
            settled(st, close),
            Seq::new(
                frames.len(),
                |i: int| Ok::<ActionView, (ErrorKind, Seq<char>)>(ActionView::Wait),
            ),
        ),
{
    law_closed_is_silent(settled(st, close), frames);
}

/// The message that a connection between messages hands on for a frame, if it does.
pub open spec fn handed_on(r: Result<ActionView, (ErrorKind, Seq<char>)>) -> Option<MessageView> {
    match r {
        Ok(ActionView::Deliver(m)) => Some(m),
        Ok(ActionView::Answer(_, m)) => Some(m),
        _ => None,
    }
}

/// A message that is sent is received as it was, where it fits a frame: up to 64 MiB for text and
/// binary messages, up to 125 bytes for the others.
pub proof fn law_message_roundtrip(st: SocketState, m: MessageView)
    requires
        !st.closed,
        st.buf.len() == 0,
        message_frame(m).1.len() <= MAX_PAYLOAD_LEN,
        control(message_frame(m).0) ==> message_frame(m).1.len() <= 125,
    ensures
        ({
            let wire = frame_bytes(message_frame(m).0, message_frame(m).1);
            decode(wire) matches Ok((f, n)) && n == wire.len() && handed_on(on_frame(st, f).1)
                == Some(m)
        }),
{
    broadcast use vstd::utf8::encode_utf8_decode_utf8;
    broadcast use vstd::utf8::encode_utf8_valid_utf8;

    lemma_frame_bytes(message_frame(m).0, message_frame(m).1);
    if let MessageView::Close(Some(c)) = m {
        let p = close_payload(Some(c));
        lemma_power_of_256();
        lemma_big_endian(c.0 as nat, 2);
        assert(p.take(2) =~= big_endian(c.0 as nat, 2));
        assert(p.skip(2) =~= encode_utf8(c.1));
    }
}

} // verus!
