//! What the rest is made of: Base64, errors, methods, replies and headers.

use bytes::Bytes;
use http::HeaderMap;
use vstd::prelude::*;
use vstd::utf8::{decode_utf8, encode_utf8};

use crate::encoding::{base64_char, base64_encode};
use crate::error::{ErrorKind, OxiHttpError};
use crate::headers::{
    get_str, header_entries, invalid_value_error, room_for, room_for_all, set_text,
};
use crate::http_types::{Method, Reply};
use crate::octets::bytes_of;
use crate::text::to_lower;

verus! {

/// The sixty-four characters of Base64, in order.
pub open spec fn alphabet() -> Seq<char> {
    "ABCDEFGHIJKLMNOPQRSTUVWXYZabcdefghijklmnopqrstuvwxyz0123456789+/"@
}

proof fn lemma_alphabet(n: u8)
    requires
        n < 64,
    ensures
        base64_char(n) == alphabet()[n as int],
{
    reveal_strlit("ABCDEFGHIJKLMNOPQRSTUVWXYZabcdefghijklmnopqrstuvwxyz0123456789+/");
    let a = alphabet();
    assert(a.len() == 64);
    assert(base64_char(n) as u32 == a[n as int] as u32);
}

/// Base64 writes three bytes as one number of 24 bits in four characters of six bits each, and goes
/// on with the rest. Two bytes at the end are written as three characters and `=`, one byte as two
/// characters and `==`.
pub proof fn law_base64(data: &[u8], rest: &[u8], r: String, s: String)
    requires
        call_ensures(base64_encode, (data,), r),
        call_ensures(base64_encode, (rest,), s),
        data@.len() >= 3 ==> rest@ == data@.skip(3),
    ensures
        data@.len() == 0 ==> r@.len() == 0,
        data@.len() == 1 ==> {
            let n = data@[0] * 0x1_0000;
            r@ == seq![alphabet()[n / 0x4_0000], alphabet()[n / 0x1000 % 64], '=', '=']
        },
        data@.len() == 2 ==> {
            let n = data@[0] * 0x1_0000 + data@[1] * 0x100;
            r@ == seq![
                alphabet()[n / 0x4_0000],
                alphabet()[n / 0x1000 % 64],
                alphabet()[n / 64 % 64],
                '=',
            ]
        },
        data@.len() >= 3 ==> {
            let n = data@[0] * 0x1_0000 + data@[1] * 0x100 + data@[2];
            r@ == seq![
                alphabet()[n / 0x4_0000],
                alphabet()[n / 0x1000 % 64],
                alphabet()[n / 64 % 64],
                alphabet()[n % 64],
            ] + s@
        },
{
    let d = data@;
    if d.len() > 0 {
        lemma_alphabet(d[0] / 4);
        lemma_alphabet((d[0] % 4 * 16) as u8);
        if d.len() > 1 {
            lemma_alphabet((d[0] % 4 * 16 + d[1] / 16) as u8);
            lemma_alphabet((d[1] % 16 * 4) as u8);
            if d.len() > 2 {
                lemma_alphabet((d[1] % 16 * 4 + d[2] / 64) as u8);
                lemma_alphabet(d[2] % 64);
            }
        }
        lemma_groups(d);
    }
}

proof fn lemma_groups(d: Seq<u8>)
    requires
        d.len() > 0,
    ensures
        ({
            let n1 = d[0] * 0x1_0000;
            n1 / 0x4_0000 == d[0] / 4 && n1 / 0x1000 % 64 == d[0] % 4 * 16
        }),
        d.len() > 1 ==> {
            let n2 = d[0] * 0x1_0000 + d[1] * 0x100;
            n2 / 0x4_0000 == d[0] / 4 && n2 / 0x1000 % 64 == d[0] % 4 * 16 + d[1] / 16 && n2 / 64
                % 64 == d[1] % 16 * 4
        },
        d.len() > 2 ==> {
            let n3 = d[0] * 0x1_0000 + d[1] * 0x100 + d[2];
            n3 / 0x4_0000 == d[0] / 4 && n3 / 0x1000 % 64 == d[0] % 4 * 16 + d[1] / 16 && n3 / 64
                % 64 == d[1] % 16 * 4 + d[2] / 64 && n3 % 64 == d[2] % 64
        },
{
}

/// An error has the kind of its variant and the message it holds.
pub proof fn law_errors(e: OxiHttpError, m: String, kind: ErrorKind, message: &str)
    requires
        call_ensures(OxiHttpError::kind, (&e,), kind),
        call_ensures(OxiHttpError::message, (&e,), message),
    ensures
        e == OxiHttpError::Body(m) ==> kind == ErrorKind::Body && message@ == m@,
        e == OxiHttpError::Http(m) ==> kind == ErrorKind::Http && message@ == m@,
        e == OxiHttpError::Hyper(m) ==> kind == ErrorKind::Hyper && message@ == m@,
        e == OxiHttpError::InvalidHeader(m) ==> kind == ErrorKind::InvalidHeader && message@ == m@,
        e == OxiHttpError::InvalidUri(m) ==> kind == ErrorKind::InvalidUri && message@ == m@,
        e == OxiHttpError::Io(m) ==> kind == ErrorKind::Io && message@ == m@,
        e == OxiHttpError::Json(m) ==> kind == ErrorKind::Json && message@ == m@,
        e == OxiHttpError::Redirect(m) ==> kind == ErrorKind::Redirect && message@ == m@,
        e == OxiHttpError::Server(m) ==> kind == ErrorKind::Server && message@ == m@,
        e == OxiHttpError::Timeout(m) ==> kind == ErrorKind::Timeout && message@ == m@,
        e == OxiHttpError::Tls(m) ==> kind == ErrorKind::Tls && message@ == m@,
{
}

/// The methods have the names of the standard.
pub proof fn law_method_names(
    m: Method,
    other: String,
    name: &str,
    copy: Method,
    text: &str,
    equal: bool,
)
    requires
        call_ensures(Method::as_str, (&m,), name),
        call_ensures(Method::copied, (&m,), copy),
        call_ensures(Method::is_named, (&m, text), equal),
    ensures
        m == Method::Get ==> name@ == "GET"@,
        m == Method::Post ==> name@ == "POST"@,
        m == Method::Put ==> name@ == "PUT"@,
        m == Method::Delete ==> name@ == "DELETE"@,
        m == Method::Patch ==> name@ == "PATCH"@,
        m == Method::Head ==> name@ == "HEAD"@,
        m == Method::Options ==> name@ == "OPTIONS"@,
        m == Method::Connect ==> name@ == "CONNECT"@,
        m == Method::Trace ==> name@ == "TRACE"@,
        m == Method::Other(other) ==> name@ == other@ && copy is Other,
        !(m is Other) ==> copy == m,
        copy@ == name@,
        equal <==> name@ == text@,
{
}

/// A method that is read from a name has that name, and is the one that the standard calls so.
pub proof fn law_method_read(name: &str, m: Method, r: &str)
    requires
        call_ensures(Method::from_name, (name,), m),
        call_ensures(Method::as_str, (&m,), r),
    ensures
        r@ == name@,
        m == Method::Get <==> name@ == "GET"@,
        m == Method::Post <==> name@ == "POST"@,
        m == Method::Put <==> name@ == "PUT"@,
        m == Method::Delete <==> name@ == "DELETE"@,
        m == Method::Patch <==> name@ == "PATCH"@,
        m == Method::Head <==> name@ == "HEAD"@,
        m == Method::Options <==> name@ == "OPTIONS"@,
        m == Method::Connect <==> name@ == "CONNECT"@,
        m == Method::Trace <==> name@ == "TRACE"@,
{
    reveal_strlit("GET");
    reveal_strlit("POST");
    reveal_strlit("PUT");
    reveal_strlit("DELETE");
    reveal_strlit("PATCH");
    reveal_strlit("HEAD");
    reveal_strlit("OPTIONS");
    reveal_strlit("CONNECT");
    reveal_strlit("TRACE");
    assert("GET"@.len() == 3 && "GET"@[0] == 'G' && "PUT"@.len() == 3 && "PUT"@[0] == 'P');
    assert("POST"@.len() == 4 && "POST"@[0] == 'P' && "HEAD"@.len() == 4 && "HEAD"@[0] == 'H');
    assert("PATCH"@.len() == 5 && "PATCH"@[0] == 'P' && "TRACE"@.len() == 5 && "TRACE"@[0] == 'T');
    assert("OPTIONS"@.len() == 7 && "OPTIONS"@[0] == 'O' && "CONNECT"@.len() == 7 && "CONNECT"@[0]
        == 'C');
    assert("DELETE"@.len() == 6);
}

/// A new reply has its status, its body and no headers.
pub proof fn law_new_replies(status: u16, body: Bytes, r: Reply, e: Reply)
    requires
        call_ensures(Reply::new, (status, body), r),
        call_ensures(Reply::empty, (status,), e),
    ensures
        r@.status == status && r@.body == bytes_of(body) && r@.headers == Map::<
            Seq<char>,
            Seq<Seq<u8>>,
        >::empty(),
        e@.status == status && e@.body.len() == 0 && e@.headers == Map::<
            Seq<char>,
            Seq<Seq<u8>>,
        >::empty(),
        r.status == status && bytes_of(r.body) == bytes_of(body),
        r@.headers == header_entries(r.headers),
        e.status == status && bytes_of(e.body).len() == 0,
{
}

/// A text that cannot be the value of a header is told as such.
pub proof fn law_invalid_value(e: http::header::InvalidHeaderValue, r: OxiHttpError)
    requires
        call_ensures(invalid_value_error, (e,), r),
    ensures
        r@ == (ErrorKind::InvalidHeader, "failed to parse header value"@),
{
}

/// Whether a text can be the name of a header: letters, digits and these signs.
pub open spec fn token(s: Seq<char>) -> bool {
    &&& 1 <= s.len() <= 65535
    &&& forall|i: int|
        0 <= i < s.len() ==> {
            let c = #[trigger] s[i];
            'a' <= c <= 'z' || 'A' <= c <= 'Z' || '0' <= c <= '9' || "!#$%&'*+-.^_`|~"@.contains(c)
        }
}

pub proof fn lemma_token(s: Seq<char>)
    ensures
        crate::headers::valid_name(s) <==> token(s),
{
    reveal_strlit("!#$%&'*+-.^_`|~");
    let signs = "!#$%&'*+-.^_`|~"@;
    assert(signs.len() == 15);
    assert(signs[0] == '!' && signs[1] == '#' && signs[2] == '$' && signs[3] == '%' && signs[4] == '&'
        && signs[5] == '\'' && signs[6] == '*' && signs[7] == '+' && signs[8] == '-' && signs[9]
        == '.' && signs[10] == '^' && signs[11] == '_' && signs[12] == '`' && signs[13] == '|'
        && signs[14] == '~');
    assert forall|c: char| #[trigger] crate::headers::token_char(c) <==> ('a' <= c <= 'z' || 'A' <= c
        <= 'Z' || '0' <= c <= '9' || signs.contains(c)) by {
        if signs.contains(c) {
            let i = choose|i: int| 0 <= i < signs.len() && signs[i] == c;
        }
    }
    if crate::headers::valid_name(s) {
        assert(forall|i: int| 0 <= i < s.len() ==> crate::headers::token_char(#[trigger] s[i]));
    }
    if token(s) {
        assert forall|i: int| 0 <= i < s.len() implies crate::headers::token_char(
            #[trigger] s[i],
        ) by {}
    }
}

/// The text of a header is that of the first value of its name, in any case of letters, where all
/// of its bytes are visible ASCII, spaces or tabs.
pub proof fn law_header_text(m: HeaderMap, name: &str, small: String, r: Option<&str>)
    requires
        call_ensures(get_str, (&m, name), r),
        call_ensures(to_lower, (name,), small),
        forall|n: Seq<char>|
            header_entries(m).contains_key(n) ==> (#[trigger] header_entries(m)[n]).len() > 0,
    ensures
        ({
            let there = token(name@) && header_entries(m).contains_key(small@);
            let bytes = header_entries(m)[small@][0];
            let shown = forall|i: int|
                0 <= i < bytes.len() ==> 32 <= #[trigger] bytes[i] <= 126 || bytes[i] == 9;
            match r {
                Some(t) => there && shown && t@ == decode_utf8(bytes),
                None => !(there && shown),
            }
        }),
{
    lemma_token(name@);
    assert(small@ == crate::text::lower(name@));
}

/// Setting a header makes the text its only value where no byte of it is a control character but a
/// tab, and changes nothing where one is.
pub proof fn law_set_text(m: &mut HeaderMap, name: &'static str, text: &str, r: bool)
    requires
        call_ensures(set_text, (m, name, text), r),
    ensures
        ({
            let bytes = encode_utf8(text@);
            let (before, after) = (header_entries(*old(m)), header_entries(*final(m)));
            &&& r <==> forall|i: int|
                0 <= i < bytes.len() ==> (32 <= #[trigger] bytes[i] && bytes[i] != 127) || bytes[i]
                    == 9
            &&& r ==> after == before.insert(name@, seq![bytes])
            &&& !r ==> after == before
        }),
{
}

/// There is room for further names up to 6554 in all.
pub proof fn law_room(m: HeaderMap, other: HeaderMap, n: usize, r: bool, s: bool)
    requires
        call_ensures(room_for, (&m, n), r),
        call_ensures(room_for_all, (&m, &other), s),
        header_entries(m).dom().finite(),
    ensures
        r <==> header_entries(m).dom().len() + n <= 6554,
        s <==> header_entries(m).dom().len() + header_entries(other).dom().len() <= 6554,
{
}

} // verus!
