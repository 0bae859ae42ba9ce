//! UTF-8, Base64 and digests.

use base64::Engine;
use sha1::Digest;
use vstd::prelude::*;
use vstd::utf8::{decode_utf8, encode_utf8, valid_utf8};

use crate::octets::max_len;

verus! {

// ---------------------------------------------------------------------------
// UTF-8
// ---------------------------------------------------------------------------

/// The message of the error with which `String::from_utf8` refuses the bytes.
pub uninterp spec fn utf8_problem(data: Seq<u8>) -> Seq<char>;

/// `String::from_utf8` takes bytes that are UTF-8 and reports on others.
#[verifier::external_body]
pub(crate) fn string_from_utf8(data: Vec<u8>) -> (r: Result<String, String>)
    ensures
        match r {
            Ok(s) => valid_utf8(data@) && s@ == decode_utf8(data@),
            Err(m) => !valid_utf8(data@) && m@ == utf8_problem(data@),
        },
{
    String::from_utf8(data).map_err(|e| e.to_string())
}

/// What `String::from_utf8_lossy` makes of the bytes.
pub uninterp spec fn utf8_lossy(data: Seq<u8>) -> Seq<char>;

/// `String::from_utf8_lossy` gives the text of bytes that are UTF-8; in others it replaces what is
/// not.
#[verifier::external_body]
pub(crate) fn string_from_utf8_lossy(data: &[u8]) -> (r: String)
    ensures
        r@ == utf8_lossy(data@),
        valid_utf8(data@) ==> r@ == decode_utf8(data@),
{
    String::from_utf8_lossy(data).into_owned()
}

/// `std::str::from_utf8` lends bytes that are UTF-8 as text.
#[verifier::external_body]
pub(crate) fn str_from_utf8<'a>(data: &'a [u8]) -> (r: Option<&'a str>)
    ensures
        r is Some <==> valid_utf8(data@),
        r matches Some(t) ==> t@ == decode_utf8(data@),
{
    std::str::from_utf8(data).ok()
}

/// The bytes of two texts, one after the other.
pub proof fn lemma_encode_concat(a: Seq<char>, b: Seq<char>)
    ensures
        encode_utf8(a + b) == encode_utf8(a) + encode_utf8(b),
    decreases a.len(),
{
    if a.len() == 0 {
        assert(a + b =~= b);
        assert(encode_utf8(a) + encode_utf8(b) =~= encode_utf8(b));
    } else {
        lemma_encode_concat(a.drop_first(), b);
        assert((a + b).drop_first() =~= a.drop_first() + b);
        assert((a + b)[0] == a[0]);
        assert(encode_utf8(a + b) =~= encode_utf8(a) + encode_utf8(b));
    }
}

// ---------------------------------------------------------------------------
// Digests
// ---------------------------------------------------------------------------

/// The SHA-1 digest of the data.
pub uninterp spec fn sha1_digest(data: Seq<u8>) -> Seq<u8>;

/// `Sha1::digest` computes the 20 bytes of the digest.
#[verifier::external_body]
pub(crate) fn sha1(data: &[u8]) -> (r: Vec<u8>)
    ensures
        r@ == sha1_digest(data@),
        r@.len() == 20,
{
    sha1::Sha1::digest(data).to_vec()
}

/// The SHA-256 digest of the data.
pub uninterp spec fn sha256_digest(data: Seq<u8>) -> Seq<u8>;

/// `Sha256::digest` computes the 32 bytes of the digest.
#[verifier::external_body]
pub(crate) fn sha256(data: &[u8]) -> (r: Vec<u8>)
    ensures
        r@ == sha256_digest(data@),
        r@.len() == 32,
{
    sha2::Sha256::digest(data).to_vec()
}

// ---------------------------------------------------------------------------
// Base64
// ---------------------------------------------------------------------------

/// The character for six bits (RFC 4648 §4).
pub open spec fn base64_char(n: u8) -> char {
    if n < 26 {
        (n + 65) as u8 as char
    } else if n < 52 {
        (n + 71) as u8 as char
    } else if n < 62 {
        (n - 4) as u8 as char
    } else if n == 62 {
        '+'
    } else {
        '/'
    }
}

/// The Base64 text of the data, padded (RFC 4648 §4).
pub open spec fn base64_text(data: Seq<u8>) -> Seq<char>
    decreases data.len(),
{
    if data.len() == 0 {
        Seq::empty()
    } else if data.len() == 1 {
        seq![base64_char(data[0] / 4), base64_char((data[0] % 4 * 16) as u8), '=', '=']
    } else if data.len() == 2 {
        seq![
            base64_char(data[0] / 4),
            base64_char((data[0] % 4 * 16 + data[1] / 16) as u8),
            base64_char((data[1] % 16 * 4) as u8),
            '=',
        ]
    } else {
        seq![
            base64_char(data[0] / 4),
            base64_char((data[0] % 4 * 16 + data[1] / 16) as u8),
            base64_char((data[1] % 16 * 4 + data[2] / 64) as u8),
            base64_char(data[2] % 64),
        ] + base64_text(data.skip(3))
    }
}

/// `Engine::encode` of the standard engine writes padded Base64; it panics where the text would
/// outgrow any allocation.
#[verifier::external_body]
pub(crate) fn standard_base64(data: &[u8]) -> (r: String)
    requires
        (data@.len() + 2) / 3 * 4 <= max_len(),
    ensures
        r@ == base64_text(data@),
{
    base64::engine::general_purpose::STANDARD.encode(data)
}

fn to_base64_char(n: u8) -> (r: char)
    requires
        n < 64,
    ensures
        r == base64_char(n),
{
    if n < 26 {
        (n + 65) as char
    } else if n < 52 {
        (n + 71) as char
    } else if n < 62 {
        (n - 4) as char
    } else if n == 62 {
        '+'
    } else {
        '/'
    }
}

/// Writes data as Base64, padded.
pub fn base64_encode(data: &[u8]) -> (r: String)
    ensures
        r@ == base64_text(data@),
{
    let mut out = String::new();
    let n: usize = data.len();
    let mut i: usize = 0;
    assert(data@.skip(0) =~= data@);
    assert(out@ + base64_text(data@) =~= base64_text(data@));
    while n - i >= 3
        invariant
            i <= n,
            n == data@.len(),
            out@ + base64_text(data@.skip(i as int)) == base64_text(data@),
        decreases n - i,
    {
        let (b0, b1, b2): (u8, u8, u8) = (data[i], data[i + 1], data[i + 2]);
        let ghost before = out@;
        let ghost rest = data@.skip(i as int);
        out.push(to_base64_char(b0 / 4));
        out.push(to_base64_char(b0 % 4 * 16 + b1 / 16));
        out.push(to_base64_char(b1 % 16 * 4 + b2 / 64));
        out.push(to_base64_char(b2 % 64));
        proof {
            assert(rest.skip(3) =~= data@.skip(i + 3));
            assert(before + base64_text(rest) =~= out@ + base64_text(rest.skip(3)));
        }
        i += 3;
    }
    let ghost rest = data@.skip(i as int);
    let ghost before = out@;
    if n - i == 1 {
        let b0: u8 = data[i];
        out.push(to_base64_char(b0 / 4));
        out.push(to_base64_char(b0 % 4 * 16));
        out.push('=');
        out.push('=');
        assert(out@ =~= before + base64_text(rest));
    } else if n - i == 2 {
        let (b0, b1): (u8, u8) = (data[i], data[i + 1]);
        out.push(to_base64_char(b0 / 4));
        out.push(to_base64_char(b0 % 4 * 16 + b1 / 16));
        out.push(to_base64_char(b1 % 16 * 4));
        out.push('=');
        assert(out@ =~= before + base64_text(rest));
    } else {
        assert(out@ =~= before + base64_text(rest));
    }
    out
}

/// Whether a character is one of Base64.
pub open spec fn is_base64_char(c: char) -> bool {
    'A' <= c <= 'Z' || 'a' <= c <= 'z' || '0' <= c <= '9' || c == '+' || c == '/' || c == '='
}

/// Base64 writes four characters for every three bytes begun, all from its own alphabet.
pub proof fn law_base64_shape(data: Seq<u8>)
    ensures
        base64_text(data).len() == (data.len() + 2) / 3 * 4,
        forall|i: int|
            0 <= i < base64_text(data).len() ==> is_base64_char(#[trigger] base64_text(data)[i]),
    decreases data.len(),
{
    if data.len() >= 3 {
        law_base64_shape(data.skip(3));
    }
}

/// The six bits that a character of Base64 stands for.
pub open spec fn base64_bits(c: char) -> nat {
    if 'A' <= c <= 'Z' {
        (c as u32 - 65) as nat
    } else if 'a' <= c <= 'z' {
        (c as u32 - 71) as nat
    } else if '0' <= c <= '9' {
        (c as u32 + 4) as nat
    } else if c == '+' {
        62
    } else {
        63
    }
}

proof fn lemma_base64_bits(n: u8)
    requires
        n < 64,
    ensures
        base64_bits(base64_char(n)) == n,
        base64_char(n) != '=',
{
}

/// Different data has different Base64 texts.
pub proof fn law_base64_injective(a: Seq<u8>, b: Seq<u8>)
    requires
        base64_text(a) == base64_text(b),
    ensures
        a == b,
    decreases a.len(),
{
    law_base64_shape(a);
    law_base64_shape(b);
    let t = base64_text(a);
    if a.len() == 0 || b.len() == 0 {
        assert(a.len() == 0 && b.len() == 0);
        assert(a =~= b);
    } else {
        lemma_first_group(a);
        lemma_first_group(b);
        if a.len() >= 3 && b.len() >= 3 {
            assert(t.skip(4) =~= base64_text(a.skip(3)));
            assert(t.skip(4) =~= base64_text(b.skip(3)));
            law_base64_injective(a.skip(3), b.skip(3));
            assert(a =~= seq![a[0], a[1], a[2]] + a.skip(3));
            assert(b =~= seq![b[0], b[1], b[2]] + b.skip(3));
        } else {
            assert(a =~= b);
        }
    }
}

/// The first four characters of a text give the first three bytes, and how many there are.
proof fn lemma_first_group(a: Seq<u8>)
    requires
        a.len() > 0,
    ensures
        ({
            let t = base64_text(a);
            let (c0, c1, c2, c3) = (
                base64_bits(t[0]),
                base64_bits(t[1]),
                base64_bits(t[2]),
                base64_bits(t[3]),
            );
            &&& t.len() >= 4
            &&& a[0] == c0 * 4 + c1 / 16
            &&& (t[2] == '=') == (a.len() < 2)
            &&& (t[3] == '=') == (a.len() < 3)
            &&& (a.len() >= 2 ==> a[1] == c1 % 16 * 16 + c2 / 4)
            &&& (a.len() >= 3 ==> a[2] == c2 % 4 * 64 + c3)
        }),
{
    let b0 = a[0];
    lemma_base64_bits(b0 / 4);
    if a.len() == 1 {
        lemma_base64_bits((b0 % 4 * 16) as u8);
    } else {
        let b1 = a[1];
        lemma_base64_bits((b0 % 4 * 16 + b1 / 16) as u8);
        if a.len() == 2 {
            lemma_base64_bits((b1 % 16 * 4) as u8);
        } else {
            let b2 = a[2];
            lemma_base64_bits((b1 % 16 * 4 + b2 / 64) as u8);
            lemma_base64_bits(b2 % 64);
        }
    }
}

} // verus!
