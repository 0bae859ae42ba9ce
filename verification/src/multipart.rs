//! `multipart/form-data` bodies (RFC 7578).

use bytes::{Bytes, BytesMut};
use vstd::prelude::*;
use vstd::slice::slice_subrange;
use vstd::utf8::encode_utf8;

use crate::encoding::lemma_encode_concat;
use crate::headers::{lemma_plain_concat, plain};
use crate::octets::{buffer_of, bytes_from_string, bytes_of, bytes_slice, max_len, put_slice};
use crate::text::{digit_char, hexadecimal, pad_zeros, to_hexadecimal, zero_padded};

verus! {

// ---------------------------------------------------------------------------
// Boundaries
// ---------------------------------------------------------------------------

/// The boundary for a moment, given by the nanoseconds of its second, and a running number.
pub open spec fn boundary_text(nanos: u32, counter: u64) -> Seq<char> {
    "----OxiHTTPBoundary"@ + zero_padded(hexadecimal(nanos as nat), 8) + zero_padded(
        hexadecimal(counter as nat),
        4,
    )
}

/// Makes a boundary from the nanoseconds of the current second and a running number.
pub fn generate_boundary(nanos: u32, counter: u64) -> (r: String)
    ensures
        r@ == boundary_text(nanos, counter),
        r@.len() > 0,
{
    proof {
        reveal_strlit("----OxiHTTPBoundary");
    }
    let mut out = "----OxiHTTPBoundary".to_owned();
    out.append(pad_zeros(to_hexadecimal(nanos as u64), 8).as_str());
    out.append(pad_zeros(to_hexadecimal(counter), 4).as_str());
    out
}

// ---------------------------------------------------------------------------
// Parts
// ---------------------------------------------------------------------------

/// One part of a body: its headers and its content.
#[derive(Debug)]
pub struct Part {
    headers: Vec<(String, String)>,
    body: Bytes,
}

/// What a part says.
pub struct PartContent {
    pub headers: Seq<(Seq<char>, Seq<char>)>,
    pub body: Seq<u8>,
}

/// The texts of pairs of strings.
pub open spec fn pair_texts(list: Seq<(String, String)>) -> Seq<(Seq<char>, Seq<char>)> {
    list.map_values(|p: (String, String)| (p.0@, p.1@))
}

impl View for Part {
    type V = PartContent;

    closed spec fn view(&self) -> PartContent {
        PartContent { headers: pair_texts(self.headers@), body: bytes_of(self.body) }
    }
}

/// A text field.
pub open spec fn text_part(name: Seq<char>, value: Seq<char>) -> PartContent {
    PartContent {
        headers: seq![("Content-Disposition"@, "form-data; name=\""@ + name + "\""@)],
        body: encode_utf8(value),
    }
}

/// A file.
pub open spec fn file_part(
    name: Seq<char>,
    filename: Seq<char>,
    content_type: Seq<char>,
    body: Seq<u8>,
) -> PartContent {
    PartContent {
        headers: seq![
            (
                "Content-Disposition"@,
                "form-data; name=\""@ + name + "\"; filename=\""@ + filename + "\""@,
            ),
            ("Content-Type"@, content_type),
        ],
        body,
    }
}

impl Part {
    /// A text field. It needs no `Content-Type`: receivers take it for plain text.
    pub fn text(name: &str, value: &str) -> (r: Self)
        ensures
            r@ == text_part(name@, value@),
    {
        let mut d = "form-data; name=\"".to_owned();
        d.append(name);
        d.append("\"");
        let mut headers: Vec<(String, String)> = Vec::new();
        headers.push(("Content-Disposition".to_owned(), d));
        let r = Part { headers, body: bytes_from_string(value.to_owned()) };
        assert(r@.headers =~= text_part(name@, value@).headers);
        r
    }

    /// A file with its name and its type.
    pub fn file(name: &str, filename: &str, content_type: &str, body: Bytes) -> (r: Self)
        ensures
            r@ == file_part(name@, filename@, content_type@, bytes_of(body)),
    {
        let mut d = "form-data; name=\"".to_owned();
        d.append(name);
        d.append("\"; filename=\"");
        d.append(filename);
        d.append("\"");
        let mut headers: Vec<(String, String)> = Vec::new();
        headers.push(("Content-Disposition".to_owned(), d));
        headers.push(("Content-Type".to_owned(), content_type.to_owned()));
        let r = Part { headers, body };
        assert(r@.headers =~= file_part(name@, filename@, content_type@, bytes_of(body)).headers);
        r
    }

    /// A part with the given headers and content.
    pub fn custom(headers: Vec<(String, String)>, body: Bytes) -> (r: Self)
        ensures
            r@ == (PartContent { headers: pair_texts(headers@), body: bytes_of(body) }),
    {
        Part { headers, body }
    }
}

impl Clone for Part {
    fn clone(&self) -> (r: Self)
        ensures
            r@ == self@,
    {
        let mut headers: Vec<(String, String)> = Vec::new();
        let mut i: usize = 0;
        while i < self.headers.len()
            invariant
                i <= self.headers@.len(),
                headers@.len() == i,
                forall|j: int|
                    0 <= j < i ==> (#[trigger] headers@[j]).0@ == self.headers@[j].0@
                        && headers@[j].1@ == self.headers@[j].1@,
            decreases self.headers@.len() - i,
        {
            let h = &self.headers[i];
            headers.push((h.0.clone(), h.1.clone()));
            i += 1;
        }
        assert(pair_texts(headers@) =~= pair_texts(self.headers@));
        Part { headers, body: self.body.clone() }
    }
}

// ---------------------------------------------------------------------------
// Collisions
// ---------------------------------------------------------------------------

/// Whether `needle` occurs in `hay` at the position `p`.
pub open spec fn occurs_at(hay: Seq<u8>, needle: Seq<u8>, p: int) -> bool {
    0 <= p && p + needle.len() <= hay.len() && hay.subrange(p, p + needle.len()) == needle
}

/// Whether `needle` occurs in `hay`.
pub open spec fn occurs(hay: Seq<u8>, needle: Seq<u8>) -> bool {
    exists|p: int| occurs_at(hay, needle, p)
}

/// Whether a boundary occurs in the content of a part.
pub open spec fn collides(parts: Seq<PartContent>, boundary: Seq<char>) -> bool {
    exists|j: int|
        0 <= j < parts.len() && occurs((#[trigger] parts[j]).body, encode_utf8(boundary))
}

/// The boundaries that are tried in turn: the given one, then that with a number after it.
pub open spec fn candidate(base: Seq<char>, k: nat) -> Seq<char> {
    if k == 0 {
        base
    } else {
        base + zero_padded(hexadecimal(k), 4)
    }
}

/// The number of the first boundary, from the number `k` on, that occurs in no part.
pub open spec fn first_free(base: Seq<char>, parts: Seq<PartContent>, k: nat) -> nat
    decreases u32::MAX - k,
{
    if k >= u32::MAX || !collides(parts, candidate(base, k)) {
        k
    } else {
        first_free(base, parts, k + 1)
    }
}

/// Whether `needle` occurs in `hay`.
fn contains_bytes(hay: &[u8], needle: &[u8]) -> (r: bool)
    requires
        needle@.len() > 0,
    ensures
        r == occurs(hay@, needle@),
{
    let n: usize = needle.len();
    let mut p: usize = 0;
    while p < hay.len() && n <= hay.len() - p
        invariant
            n == needle@.len(),
            n > 0,
            p <= hay@.len(),
            forall|q: int| 0 <= q < p ==> !occurs_at(hay@, needle@, q),
        decreases hay@.len() - p,
    {
        let w = slice_subrange(hay, p, p + n);
        assert(w@ =~= hay@.subrange(p as int, p + n));
        let mut i: usize = 0;
        while i < n && w[i] == needle[i]
            invariant
                i <= n,
                n == needle@.len(),
                n == w@.len(),
                forall|j: int| 0 <= j < i ==> w@[j] == needle@[j],
            decreases n - i,
        {
            i += 1;
        }
        if i == n {
            assert(w@ =~= needle@);
            assert(occurs_at(hay@, needle@, p as int));
            return true;
        }
        assert(w@[i as int] != needle@[i as int]);
        assert(!occurs_at(hay@, needle@, p as int));
        p += 1;
    }
    assert forall|q: int| !occurs_at(hay@, needle@, q) by {
        if q >= p {
            assert(q + n > hay@.len());
        }
    }
    false
}

// ---------------------------------------------------------------------------
// The wire format
// ---------------------------------------------------------------------------

/// The header lines of a part.
pub open spec fn header_lines(headers: Seq<(Seq<char>, Seq<char>)>) -> Seq<u8>
    decreases headers.len(),
{
    if headers.len() == 0 {
        Seq::empty()
    } else {
        header_lines(headers.drop_last()) + (encode_utf8(headers.last().0) + encode_utf8(": "@)
            + encode_utf8(headers.last().1) + crlf())
    }
}

/// The end of a line.
pub open spec fn crlf() -> Seq<u8> {
    seq![13u8, 10u8]
}

/// A part: the delimiter, the headers, an empty line and the content.
pub open spec fn part_bytes(boundary: Seq<char>, part: PartContent) -> Seq<u8> {
    encode_utf8("--"@ + boundary) + crlf() + header_lines(part.headers) + crlf() + part.body
        + crlf()
}

/// All parts, one after the other.
pub open spec fn parts_bytes(boundary: Seq<char>, parts: Seq<PartContent>) -> Seq<u8>
    decreases parts.len(),
{
    if parts.len() == 0 {
        Seq::empty()
    } else {
        parts_bytes(boundary, parts.drop_last()) + part_bytes(boundary, parts.last())
    }
}

/// The whole body: the parts and the closing delimiter.
pub open spec fn body_bytes(boundary: Seq<char>, parts: Seq<PartContent>) -> Seq<u8> {
    parts_bytes(boundary, parts) + encode_utf8("--"@ + boundary + "--\r\n"@)
}

proof fn lemma_header_lines_grow(headers: Seq<(Seq<char>, Seq<char>)>, n: int)
    requires
        0 <= n <= headers.len(),
    ensures
        header_lines(headers.take(n)).len() <= header_lines(headers).len(),
    decreases headers.len(),
{
    if n < headers.len() {
        lemma_header_lines_grow(headers.drop_last(), n);
        assert(headers.drop_last().take(n) =~= headers.take(n));
    } else {
        assert(headers.take(n) =~= headers);
    }
}

proof fn lemma_parts_grow(boundary: Seq<char>, parts: Seq<PartContent>, n: int)
    requires
        0 <= n <= parts.len(),
    ensures
        parts_bytes(boundary, parts.take(n)).len() <= parts_bytes(boundary, parts).len(),
    decreases parts.len(),
{
    if n < parts.len() {
        lemma_parts_grow(boundary, parts.drop_last(), n);
        assert(parts.drop_last().take(n) =~= parts.take(n));
    } else {
        assert(parts.take(n) =~= parts);
    }
}

/// Appends the header lines of a part.
fn put_headers(buf: &mut BytesMut, headers: &Vec<(String, String)>)
    requires
        buffer_of(*old(buf)).len() + header_lines(pair_texts(headers@)).len() <= max_len(),
    ensures
        buffer_of(*final(buf)) == buffer_of(*old(buf)) + header_lines(pair_texts(headers@)),
{
    let ghost all = pair_texts(headers@);
    let ghost start = buffer_of(*buf);
    let mut i: usize = 0;
    assert(start + header_lines(all.take(0)) =~= start);
    while i < headers.len()
        invariant
            i <= headers@.len(),
            all == pair_texts(headers@),
            start.len() + header_lines(all).len() <= max_len(),
            buffer_of(*buf) == start + header_lines(all.take(i as int)),
        decreases headers@.len() - i,
    {
        let h = &headers[i];
        proof {
            lemma_header_lines_grow(all, i + 1);
            assert(all.take(i + 1).drop_last() =~= all.take(i as int));
            assert(all.take(i + 1).last() == (h.0@, h.1@));
        }
        put_slice(buf, h.0.as_str().as_bytes());
        put_slice(buf, ": ".as_bytes());
        put_slice(buf, h.1.as_str().as_bytes());
        put_slice(buf, &[13u8, 10u8]);
        assert(buffer_of(*buf) =~= start + header_lines(all.take(i + 1)));
        i += 1;
    }
    assert(all.take(i as int) =~= all);
}

/// Appends a part.
fn put_part(buf: &mut BytesMut, dash_boundary: &str, Ghost(boundary): Ghost<Seq<char>>, part: &Part)
    requires
        dash_boundary@ == "--"@ + boundary,
        buffer_of(*old(buf)).len() + part_bytes(boundary, part@).len() <= max_len(),
    ensures
        buffer_of(*final(buf)) == buffer_of(*old(buf)) + part_bytes(boundary, part@),
{
    put_slice(buf, dash_boundary.as_bytes());
    put_slice(buf, &[13u8, 10u8]);
    put_headers(buf, &part.headers);
    put_slice(buf, &[13u8, 10u8]);
    put_slice(buf, bytes_slice(&part.body));
    put_slice(buf, &[13u8, 10u8]);
    assert(buffer_of(*buf) =~= buffer_of(*old(buf)) + part_bytes(boundary, part@));
}

// ---------------------------------------------------------------------------
// The builder
// ---------------------------------------------------------------------------

/// Builds a `multipart/form-data` body.
#[derive(Debug)]
pub struct MultipartBuilder {
    boundary: String,
    parts: Vec<Part>,
}

/// What a body is built of.
pub struct FormContent {
    pub boundary: Seq<char>,
    pub parts: Seq<PartContent>,
}

/// What each part says.
pub open spec fn part_contents(parts: Seq<Part>) -> Seq<PartContent> {
    parts.map_values(|p: Part| p@)
}

impl View for MultipartBuilder {
    type V = FormContent;

    closed spec fn view(&self) -> FormContent {
        FormContent { boundary: self.boundary@, parts: part_contents(self.parts@) }
    }
}

impl FormContent {
    /// The boundary of the body: the first of the candidates that occurs in no part.
    pub open spec fn unique_boundary(self) -> Seq<char> {
        candidate(self.boundary, first_free(self.boundary, self.parts, 0))
    }

    /// The value of the `Content-Type` header.
    pub open spec fn content_type(self) -> Seq<char> {
        "multipart/form-data; boundary="@ + self.unique_boundary()
    }

    /// The body.
    pub open spec fn wire(self) -> Seq<u8> {
        body_bytes(self.unique_boundary(), self.parts)
    }

    /// Whether one of the candidates occurs in no part.
    pub open spec fn resolvable(self) -> bool {
        !collides(self.parts, self.unique_boundary())
    }
}

impl MultipartBuilder {
    #[verifier::type_invariant]
    spec fn has_boundary(self) -> bool {
        self.boundary@.len() > 0
    }

    /// A body without parts, whose boundary is made from the nanoseconds of the current second and
    /// a running number.
    pub fn new(nanos: u32, counter: u64) -> (r: Self)
        ensures
            r@ == (FormContent { boundary: boundary_text(nanos, counter), parts: Seq::empty() }),
    {
        let r = MultipartBuilder {
            boundary: generate_boundary(nanos, counter),
            parts: Vec::new(),
        };
        assert(r@.parts =~= Seq::<PartContent>::empty());
        r
    }

    /// The own boundary, without dashes. The body has it where it occurs in no part.
    pub fn boundary(&self) -> (r: &str)
        ensures
            r@ == self@.boundary,
    {
        self.boundary.as_str()
    }

    /// The value of the `Content-Type` header, with the boundary that the body has.
    pub fn content_type(&self) -> (r: String)
        ensures
            r@ == self@.content_type(),
    {
        let mut out = "multipart/form-data; boundary=".to_owned();
        let (boundary, _) = self.search_unique_boundary();
        out.append(boundary.as_str());
        out
    }

    /// Adds a text field.
    pub fn add_text(self, name: &str, value: &str) -> (r: Self)
        ensures
            r@ == (FormContent { parts: self@.parts.push(text_part(name@, value@)), ..self@ }),
    {
        self.add_part(Part::text(name, value))
    }

    /// Adds a file.
    pub fn add_file(self, name: &str, filename: &str, content_type: &str, body: Bytes) -> (r: Self)
        ensures
            r@ == (FormContent {
                parts: self@.parts.push(
                    file_part(name@, filename@, content_type@, bytes_of(body)),
                ),
                ..self@
            }),
    {
        self.add_part(Part::file(name, filename, content_type, body))
    }

    /// Adds a part.
    pub fn add_part(self, part: Part) -> (r: Self)
        ensures
            r@ == (FormContent { parts: self@.parts.push(part@), ..self@ }),
    {
        proof {
            use_type_invariant(&self);
        }
        let mut parts = self.parts;
        let ghost before = parts@;
        parts.push(part);
        assert(part_contents(parts@) =~= part_contents(before).push(part@));
        MultipartBuilder { boundary: self.boundary, parts }
    }

    /// Whether a boundary occurs in the content of a part.
    fn has_collision(&self, boundary: &str) -> (r: bool)
        requires
            boundary@.len() > 0,
        ensures
            r == collides(self@.parts, boundary@),
    {
        let ghost all = self@.parts;
        let needle = boundary.as_bytes();
        proof {
            vstd::utf8::encode_utf8_first_scalar(boundary@);
        }
        let mut i: usize = 0;
        while i < self.parts.len()
            invariant
                i <= self.parts@.len(),
                all == part_contents(self.parts@),
                all == self@.parts,
                needle@ == encode_utf8(boundary@),
                needle@.len() > 0,
                forall|j: int| 0 <= j < i ==> !occurs((#[trigger] all[j]).body, needle@),
            decreases self.parts@.len() - i,
        {
            assert(all[i as int] == self.parts@[i as int]@);
            if contains_bytes(bytes_slice(&self.parts[i].body), needle) {
                return true;
            }
            i += 1;
        }
        false
    }

    /// Looks for a boundary that occurs in the content of no part: the own one, or that with a
    /// number after it. Says whether it found one, or tried every candidate and ended at the last.
    fn search_unique_boundary(&self) -> (r: (String, bool))
        ensures
            r.0@ == self@.unique_boundary(),
            r.1 == self@.resolvable(),
    {
        proof {
            use_type_invariant(self);
        }
        let mut boundary = self.boundary.clone();
        let mut suffix: u32 = 0;
        while self.has_collision(boundary.as_str())
            invariant
                self@.boundary.len() > 0,
                self@.boundary == self.boundary@,
                boundary@ == candidate(self@.boundary, suffix as nat),
                boundary@.len() > 0,
                first_free(self@.boundary, self@.parts, 0) == first_free(
                    self@.boundary,
                    self@.parts,
                    suffix as nat,
                ),
            decreases u32::MAX - suffix,
        {
            if suffix == u32::MAX {
                return (boundary, false);
            }
            suffix = suffix + 1;
            boundary = self.boundary.clone();
            boundary.append(pad_zeros(to_hexadecimal(suffix as u64), 4).as_str());
        }
        (boundary, true)
    }

    /// Finds a boundary that occurs in the content of no part.
    pub fn find_unique_boundary(&self) -> (r: String)
        requires
            self@.resolvable(),
        ensures
            r@ == self@.unique_boundary(),
            !collides(self@.parts, r@),
    {
        let (boundary, _) = self.search_unique_boundary();
        boundary
    }

    /// How long the body is with the given boundary; `None` where no allocation can hold it.
    fn body_len(&self, boundary: &str) -> (r: Option<usize>)
        ensures
            r is Some <==> body_bytes(boundary@, self@.parts).len() <= max_len(),
            r matches Some(n) ==> n == body_bytes(boundary@, self@.parts).len(),
    {
        let ghost b = boundary@;
        let ghost all = self@.parts;
        let edge: usize = match dashed_len(boundary, "") {
            Some(n) => n,
            None => {
                proof {
                    assert("--"@ + b + ""@ =~= "--"@ + b) by {
                        reveal_strlit("");
                    }
                    lemma_encode_concat("--"@ + b, "--\r\n"@);
                }
                return None;
            },
        };
        proof {
            reveal_strlit("");
            assert("--"@ + b + ""@ =~= "--"@ + b);
        }
        let mut total: usize = match dashed_len(boundary, "--\r\n") {
            Some(n) => n,
            None => return None,
        };
        let ghost closing = total as nat;
        let mut i: usize = 0;
        assert(parts_bytes(b, all.take(0)) =~= Seq::<u8>::empty());
        while i < self.parts.len()
            invariant
                i <= self.parts@.len(),
                all == part_contents(self.parts@),
                all == self@.parts,
                b == boundary@,
                edge == encode_utf8("--"@ + b).len(),
                closing == encode_utf8("--"@ + b + "--\r\n"@).len(),
                total == closing + parts_bytes(b, all.take(i as int)).len(),
                total <= max_len(),
            decreases self.parts@.len() - i,
        {
            proof {
                lemma_parts_grow(b, all, i + 1);
                assert(all.take(i + 1).drop_last() =~= all.take(i as int));
                assert(all.take(i + 1).last() == self.parts@[i as int]@);
            }
            let part = &self.parts[i];
            total = match part_len(total, edge, Ghost(b), part) {
                Some(n) => n,
                None => return None,
            };
            i += 1;
        }
        assert(all.take(i as int) =~= all);
        Some(total)
    }

    /// Builds the body with a boundary that occurs in no part.
    fn assemble(self, boundary: String) -> (r: Bytes)
        requires
            body_bytes(boundary@, self@.parts).len() <= max_len(),
        ensures
            bytes_of(r) == body_bytes(boundary@, self@.parts),
    {
        let mut dash_boundary = "--".to_owned();
        dash_boundary.append(boundary.as_str());
        let mut final_boundary = "--".to_owned();
        final_boundary.append(boundary.as_str());
        final_boundary.append("--\r\n");
        let ghost b = boundary@;
        let ghost all = self@.parts;
        let mut buf = BytesMut::new();
        let mut i: usize = 0;
        assert(parts_bytes(b, all.take(0)) =~= Seq::<u8>::empty());
        while i < self.parts.len()
            invariant
                i <= self.parts@.len(),
                all == part_contents(self.parts@),
                dash_boundary@ == "--"@ + b,
                parts_bytes(b, all).len() <= max_len(),
                buffer_of(buf) == parts_bytes(b, all.take(i as int)),
            decreases self.parts@.len() - i,
        {
            proof {
                lemma_parts_grow(b, all, i + 1);
                assert(all.take(i + 1).drop_last() =~= all.take(i as int));
                assert(all.take(i + 1).last() == self.parts@[i as int]@);
            }
            put_part(&mut buf, dash_boundary.as_str(), Ghost(b), &self.parts[i]);
            i += 1;
        }
        assert(all.take(i as int) =~= all);
        put_slice(&mut buf, final_boundary.as_str().as_bytes());
        buf.freeze()
    }

    /// Builds the body.
    ///
    /// Where the boundary occurs in a part, a number is put after it until it occurs in none.
    pub fn build(self) -> (r: Bytes)
        requires
            self@.resolvable(),
            self@.wire().len() <= max_len(),
        ensures
            bytes_of(r) == self@.wire(),
    {
        let boundary = self.find_unique_boundary();
        self.assemble(boundary)
    }

    /// Builds the body where that can be done; `None` where every boundary occurs in a part, or
    /// where no allocation can hold the body.
    pub fn build_checked(self) -> (r: Option<Bytes>)
        ensures
            r is Some <==> self@.resolvable() && self@.wire().len() <= max_len(),
            r matches Some(b) ==> bytes_of(b) == self@.wire(),
    {
        let (boundary, free) = self.search_unique_boundary();
        if !free || self.body_len(boundary.as_str()).is_none() {
            return None;
        }
        Some(self.assemble(boundary))
    }
}

/// The length of a boundary with dashes before it and a text after it.
fn dashed_len(boundary: &str, end: &str) -> (r: Option<usize>)
    ensures
        r is Some <==> encode_utf8("--"@ + boundary@ + end@).len() <= max_len(),
        r matches Some(n) ==> n == encode_utf8("--"@ + boundary@ + end@).len(),
{
    proof {
        lemma_encode_concat("--"@, boundary@);
        lemma_encode_concat("--"@ + boundary@, end@);
    }
    match limited_sum(0, "--".as_bytes().len()) {
        None => None,
        Some(a) => match limited_sum(a, boundary.as_bytes().len()) {
            None => None,
            Some(b) => limited_sum(b, end.as_bytes().len()),
        },
    }
}

/// The sum of two lengths, where an allocation can be that long.
fn limited_sum(a: usize, b: usize) -> (r: Option<usize>)
    requires
        a <= max_len(),
    ensures
        r is Some <==> a + b <= max_len(),
        r matches Some(n) ==> n == a + b,
{
    if b > isize::MAX as usize - a {
        None
    } else {
        Some(a + b)
    }
}

/// Adds the length of the header lines of a part.
fn header_lines_len(start: usize, headers: &Vec<(String, String)>) -> (r: Option<usize>)
    requires
        start <= max_len(),
    ensures
        r is Some <==> start + header_lines(pair_texts(headers@)).len() <= max_len(),
        r matches Some(n) ==> n == start + header_lines(pair_texts(headers@)).len(),
{
    let ghost all = pair_texts(headers@);
    let mut total: usize = start;
    let mut i: usize = 0;
    assert(header_lines(all.take(0)) =~= Seq::<u8>::empty());
    proof {
        lemma_separator();
    }
    while i < headers.len()
        invariant
            i <= headers@.len(),
            all == pair_texts(headers@),
            encode_utf8(": "@).len() == 2,
            total == start + header_lines(all.take(i as int)).len(),
            total <= max_len(),
        decreases headers@.len() - i,
    {
        let h = &headers[i];
        proof {
            lemma_header_lines_grow(all, i + 1);
            assert(all.take(i + 1).drop_last() =~= all.take(i as int));
            assert(all.take(i + 1).last() == (h.0@, h.1@));
        }
        let a: usize = match limited_sum(total, h.0.as_str().as_bytes().len()) {
            Some(n) => n,
            None => return None,
        };
        let b: usize = match limited_sum(a, h.1.as_str().as_bytes().len()) {
            Some(n) => n,
            None => return None,
        };
        total = match limited_sum(b, 4) {
            Some(n) => n,
            None => return None,
        };
        i += 1;
    }
    assert(all.take(i as int) =~= all);
    Some(total)
}

/// A colon and a space are two bytes.
proof fn lemma_separator()
    ensures
        encode_utf8(": "@).len() == 2,
{
    reveal_strlit(": ");
    assert(vstd::utf8::is_ascii_chars(": "@));
    vstd::utf8::is_ascii_chars_encode_utf8(": "@);
}

/// Adds the length of a part whose delimiter has `edge` bytes.
fn part_len(start: usize, edge: usize, Ghost(boundary): Ghost<Seq<char>>, part: &Part) -> (r:
    Option<usize>)
    requires
        start <= max_len(),
        edge == encode_utf8("--"@ + boundary).len(),
    ensures
        r is Some <==> start + part_bytes(boundary, part@).len() <= max_len(),
        r matches Some(n) ==> n == start + part_bytes(boundary, part@).len(),
{
    let a: usize = match limited_sum(start, edge) {
        Some(n) => n,
        None => return None,
    };
    let b: usize = match header_lines_len(a, &part.headers) {
        Some(n) => n,
        None => return None,
    };
    let c: usize = match limited_sum(b, bytes_slice(&part.body).len()) {
        Some(n) => n,
        None => return None,
    };
    limited_sum(c, 6)
}

impl Clone for MultipartBuilder {
    fn clone(&self) -> (r: Self)
        ensures
            r@ == self@,
    {
        proof {
            use_type_invariant(self);
        }
        let mut parts: Vec<Part> = Vec::new();
        let mut i: usize = 0;
        while i < self.parts.len()
            invariant
                i <= self.parts@.len(),
                parts@.len() == i,
                forall|j: int| 0 <= j < i ==> (#[trigger] parts@[j])@ == self.parts@[j]@,
            decreases self.parts@.len() - i,
        {
            parts.push(self.parts[i].clone());
            i += 1;
        }
        assert(part_contents(parts@) =~= part_contents(self.parts@));
        MultipartBuilder { boundary: self.boundary.clone(), parts }
    }
}

// ---------------------------------------------------------------------------
// Laws
// ---------------------------------------------------------------------------

/// The value of a digit in base sixteen.
pub open spec fn hex_value(c: char) -> nat {
    if '0' <= c <= '9' {
        (c as u32 - '0' as u32) as nat
    } else {
        (c as u32 - 'a' as u32 + 10) as nat
    }
}

/// The number that a row of digits writes in base sixteen.
pub open spec fn hex_number(s: Seq<char>) -> nat
    decreases s.len(),
{
    if s.len() == 0 {
        0
    } else {
        hex_number(s.drop_last()) * 16 + hex_value(s.last())
    }
}

/// A numeral in base sixteen reads as its number, with zeros in front or without.
proof fn lemma_hex_number(n: nat, width: nat)
    ensures
        hex_number(hexadecimal(n)) == n,
        hex_number(zero_padded(hexadecimal(n), width)) == n,
        hexadecimal(n).len() > 0,
    decreases n,
{
    let h = hexadecimal(n);
    if n < 16 {
        assert(h.drop_last() =~= Seq::<char>::empty());
        assert(hex_number(h) == hex_number(h.drop_last()) * 16 + hex_value(h.last()));
    } else {
        lemma_hex_number(n / 16, 0);
        assert(h.drop_last() =~= hexadecimal(n / 16));
    }
    lemma_hex_padded(h, width);
}

proof fn lemma_hex_padded(s: Seq<char>, width: nat)
    ensures
        hex_number(zero_padded(s, width)) == hex_number(s),
    decreases s.len(), width,
{
    let p = zero_padded(s, width);
    if s.len() >= width {
    } else if s.len() == 0 {
        lemma_hex_padded(s, (width - 1) as nat);
        assert(p.drop_last() =~= zero_padded(s, (width - 1) as nat));
        assert(p.last() == '0');
    } else {
        lemma_hex_padded(s.drop_last(), (width - 1) as nat);
        assert(p.drop_last() =~= zero_padded(s.drop_last(), (width - 1) as nat));
        assert(p.last() == s.last());
    }
}

/// How long a numeral in base sixteen is.
proof fn lemma_hex_len(n: nat)
    ensures
        n < 0x1_0000_0000 ==> hexadecimal(n).len() <= 8,
        0x1000_0000 <= n < 0x1_0000_0000 ==> hexadecimal(n).len() == 8,
{
    reveal_with_fuel(hexadecimal, 9);
}

/// Boundaries that are made at different moments, or with different running numbers, differ.
pub proof fn law_boundaries_differ(nanos1: u32, counter1: u64, nanos2: u32, counter2: u64)
    requires
        nanos1 != nanos2 || counter1 != counter2,
    ensures
        boundary_text(nanos1, counter1) != boundary_text(nanos2, counter2),
{
    let (n1, n2) = (
        zero_padded(hexadecimal(nanos1 as nat), 8),
        zero_padded(hexadecimal(nanos2 as nat), 8),
    );
    let (c1, c2) = (
        zero_padded(hexadecimal(counter1 as nat), 4),
        zero_padded(hexadecimal(counter2 as nat), 4),
    );
    lemma_hex_number(nanos1 as nat, 8);
    lemma_hex_number(nanos2 as nat, 8);
    lemma_hex_number(counter1 as nat, 4);
    lemma_hex_number(counter2 as nat, 4);
    lemma_hex_len(nanos1 as nat);
    lemma_hex_len(nanos2 as nat);
    let p = "----OxiHTTPBoundary"@;
    let (b1, b2) = (boundary_text(nanos1, counter1), boundary_text(nanos2, counter2));
    if b1 == b2 {
        assert(n1.len() == 8 && n2.len() == 8);
        let k = p.len() as int;
        assert(b1.subrange(k, k + 8) =~= n1);
        assert(b2.subrange(k, k + 8) =~= n2);
        assert(b1.skip(k + 8) =~= c1);
        assert(b2.skip(k + 8) =~= c2);
    }
}

/// The boundary of a body that is built occurs in the content of no part.
pub proof fn law_boundary_unique(form: FormContent)
    requires
        form.resolvable(),
    ensures
        forall|j: int|
            0 <= j < form.parts.len() ==> !occurs(
                (#[trigger] form.parts[j]).body,
                encode_utf8(form.unique_boundary()),
            ),
{
}

/// The boundary that `Content-Type` announces is the one that delimits the parts of the body and
/// ends it.
pub proof fn law_announced_boundary(form: FormContent, announced: Seq<char>)
    requires
        form.content_type() == "multipart/form-data; boundary="@ + announced,
    ensures
        form.wire() == parts_bytes(announced, form.parts) + encode_utf8(
            "--"@ + announced + "--\r\n"@,
        ),
{
    let prefix = "multipart/form-data; boundary="@;
    assert((prefix + announced).skip(prefix.len() as int) =~= announced);
    assert((prefix + form.unique_boundary()).skip(prefix.len() as int) =~= form.unique_boundary());
}

/// Where the own boundary occurs in no part, it is the boundary of the body.
pub proof fn law_own_boundary_kept(form: FormContent)
    requires
        !collides(form.parts, form.boundary),
    ensures
        form.unique_boundary() == form.boundary,
        form.wire() == body_bytes(form.boundary, form.parts),
        form.resolvable(),
{
}

/// How many bytes the contents of the parts have together.
pub open spec fn content_len(parts: Seq<PartContent>) -> nat
    decreases parts.len(),
{
    if parts.len() == 0 {
        0
    } else {
        content_len(parts.drop_last()) + parts.last().body.len()
    }
}

proof fn lemma_content_len_grows(parts: Seq<PartContent>, i: int, j: int)
    requires
        0 <= i < j <= parts.len(),
    ensures
        content_len(parts.take(i)) + parts[i].body.len() <= content_len(parts.take(j)),
    decreases j,
{
    assert(parts.take(j).drop_last() =~= parts.take(j - 1));
    if i < j - 1 {
        lemma_content_len_grows(parts, i, j - 1);
    }
}

/// Candidates before the first free one are not free.
pub proof fn lemma_before_first_free(base: Seq<char>, parts: Seq<PartContent>, k: nat, j: nat)
    requires
        k <= j < first_free(base, parts, k),
    ensures
        collides(parts, candidate(base, j)),
    decreases j - k,
{
    if k < j {
        lemma_before_first_free(base, parts, k + 1, j);
    }
}

/// Whether `candidate(base, k)` occurs in the part `j` at the position `p`.
spec fn found_at(base: Seq<char>, parts: Seq<PartContent>, k: int, j: int, p: int) -> bool {
    0 <= j < parts.len() && occurs_at(parts[j].body, encode_utf8(candidate(base, k as nat)), p)
}

/// Where `candidate(base, k)` occurs, counted through all parts.
spec fn found(base: Seq<char>, parts: Seq<PartContent>, k: int) -> int {
    let (j, p) = choose|j: int, p: int| found_at(base, parts, k, j, p);
    content_len(parts.take(j)) + p
}

/// The candidates with eight digits after the boundary have bytes of one length, which differ.
proof fn lemma_long_candidates(base: Seq<char>, k1: nat, k2: nat)
    requires
        0x1000_0000 <= k1 < 0x1_0000_0000,
        0x1000_0000 <= k2 < 0x1_0000_0000,
    ensures
        encode_utf8(candidate(base, k1)).len() == encode_utf8(base).len() + 8,
        encode_utf8(candidate(base, k1)) == encode_utf8(candidate(base, k2)) ==> k1 == k2,
{
    vstd::utf8::encode_utf8_decode_utf8(candidate(base, k1));
    vstd::utf8::encode_utf8_decode_utf8(candidate(base, k2));
    let (h1, h2) = (hexadecimal(k1), hexadecimal(k2));
    lemma_hex_len(k1);
    lemma_hex_len(k2);
    lemma_hex_number(k1, 4);
    lemma_hex_number(k2, 4);
    lemma_encode_concat(base, h1);
    lemma_hex_ascii(k1);
    vstd::utf8::is_ascii_chars_encode_utf8(h1);
    if encode_utf8(candidate(base, k1)) == encode_utf8(candidate(base, k2)) {
        assert(candidate(base, k1) == candidate(base, k2));
        assert(candidate(base, k1).skip(base.len() as int) =~= h1);
        assert(candidate(base, k2).skip(base.len() as int) =~= h2);
    }
}

proof fn lemma_hex_ascii(n: nat)
    ensures
        vstd::utf8::is_ascii_chars(hexadecimal(n)),
    decreases n,
{
    if n >= 16 {
        lemma_hex_ascii(n / 16);
    }
}

/// Where a candidate with eight digits was found, and that no other was found there.
proof fn lemma_found(base: Seq<char>, parts: Seq<PartContent>, k1: int, k2: int)
    requires
        0x1000_0000 <= k1 < 0x1_0000_0000,
        0x1000_0000 <= k2 < 0x1_0000_0000,
        collides(parts, candidate(base, k1 as nat)),
        collides(parts, candidate(base, k2 as nat)),
    ensures
        0 <= found(base, parts, k1) < content_len(parts),
        found(base, parts, k1) == found(base, parts, k2) ==> k1 == k2,
{
    lemma_found_exists(base, parts, k1);
    lemma_found_exists(base, parts, k2);
    let (j1, p1) = choose|j: int, p: int| found_at(base, parts, k1, j, p);
    let (j2, p2) = choose|j: int, p: int| found_at(base, parts, k2, j, p);
    lemma_long_candidates(base, k1 as nat, k2 as nat);
    lemma_long_candidates(base, k2 as nat, k1 as nat);
    lemma_content_len_grows(parts, j1, parts.len() as int);
    assert(parts.take(parts.len() as int) =~= parts);
    if j1 < j2 {
        lemma_content_len_grows(parts, j1, j2);
    } else if j2 < j1 {
        lemma_content_len_grows(parts, j2, j1);
    }
}

proof fn lemma_found_exists(base: Seq<char>, parts: Seq<PartContent>, k: int)
    requires
        collides(parts, candidate(base, k as nat)),
    ensures
        exists|j: int, p: int| found_at(base, parts, k, j, p),
{
    let b = encode_utf8(candidate(base, k as nat));
    let j = choose|j: int| 0 <= j < parts.len() && occurs((#[trigger] parts[j]).body, b);
    let p = choose|p: int| occurs_at(parts[j].body, b, p);
    assert(found_at(base, parts, k, j, p));
}

/// Parts with less than 0xF000_0000 bytes together leave a boundary free: there are more
/// candidates than places where one could occur.
pub proof fn law_small_forms_resolve(form: FormContent)
    requires
        content_len(form.parts) < 0xF000_0000,
    ensures
        form.resolvable(),
{
    let (base, parts) = (form.boundary, form.parts);
    let n = first_free(base, parts, 0);
    lemma_first_free_bound(base, parts, 0);
    if collides(parts, candidate(base, n)) {
        assert forall|k: nat| k <= n implies collides(parts, #[trigger] candidate(base, k)) by {
            if k < n {
                lemma_before_first_free(base, parts, 0, k);
            }
        }
        let lo = 0x1000_0000int;
        let hi = 0x1_0000_0000int;
        let all = vstd::set_lib::set_int_range(lo, hi);
        let f = |k: int| found(base, parts, k);
        vstd::set_lib::lemma_int_range(lo, hi);
        vstd::set_lib::lemma_int_range(0, content_len(parts) as int);
        assert forall|k1: int, k2: int|
            all.contains(k1) && all.contains(k2) && #[trigger] f(k1) == #[trigger] f(
                k2,
            ) implies k1 == k2 by {
            assert(collides(parts, candidate(base, k1 as nat)));
            assert(collides(parts, candidate(base, k2 as nat)));
            lemma_found(base, parts, k1, k2);
        }
        assert(vstd::relations::injective_on(f, all));
        vstd::set_lib::lemma_map_size(all, all.map(f), f);
        assert forall|g: int| all.map(f).contains(g) implies vstd::set_lib::set_int_range(
            0,
            content_len(parts) as int,
        ).contains(g) by {
            let k = choose|k: int| all.contains(k) && f(k) == g;
            assert(collides(parts, candidate(base, k as nat)));
            lemma_found(base, parts, k, k);
        }
        vstd::set_lib::lemma_len_subset(
            all.map(f),
            vstd::set_lib::set_int_range(0, content_len(parts) as int),
        );
    }
}

/// The search ends at the last candidate, and stops before it only at a free one.
proof fn lemma_first_free_bound(base: Seq<char>, parts: Seq<PartContent>, k: nat)
    requires
        k <= u32::MAX,
    ensures
        k <= first_free(base, parts, k) <= u32::MAX,
        first_free(base, parts, k) < u32::MAX ==> !collides(
            parts,
            candidate(base, first_free(base, parts, k)),
        ),
    decreases u32::MAX - k,
{
    if k < u32::MAX && collides(parts, candidate(base, k)) {
        lemma_first_free_bound(base, parts, k + 1);
    }
}

/// A generated boundary is visible ASCII, and so is one with a number after it.
pub proof fn lemma_boundary_plain(nanos: u32, counter: u64, k: nat)
    ensures
        plain(candidate(boundary_text(nanos, counter), k)),
{
    let n = zero_padded(hexadecimal(nanos as nat), 8);
    let c = zero_padded(hexadecimal(counter as nat), 4);
    reveal_strlit("----OxiHTTPBoundary");
    lemma_plain_hexadecimal(nanos as nat, 8);
    lemma_plain_hexadecimal(counter as nat, 4);
    lemma_plain_concat("----OxiHTTPBoundary"@, n);
    lemma_plain_concat("----OxiHTTPBoundary"@ + n, c);
    lemma_plain_hexadecimal(k, 4);
    lemma_plain_concat(boundary_text(nanos, counter), zero_padded(hexadecimal(k), 4));
}

proof fn lemma_plain_hexadecimal(n: nat, width: nat)
    ensures
        plain(hexadecimal(n)),
        plain(zero_padded(hexadecimal(n), width)),
    decreases n,
{
    let h = hexadecimal(n);
    if n >= 16 {
        lemma_plain_hexadecimal(n / 16, width);
        let less = hexadecimal(n / 16);
        assert(h == less.push(digit_char(n % 16)));
    }
    assert(plain(h));
    let p = zero_padded(h, width);
    if h.len() < width {
        let zeros = Seq::new((width - h.len()) as nat, |i: int| '0');
        assert(plain(zeros));
        lemma_plain_concat(zeros, h);
    }
}

} // verus!
