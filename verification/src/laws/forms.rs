//! `multipart/form-data` bodies, line by line (RFC 7578).

use bytes::Bytes;
use vstd::prelude::*;
use vstd::utf8::encode_utf8;

use crate::encoding::lemma_encode_concat;
use crate::multipart::{
    body_bytes, candidate, collides, first_free, generate_boundary, header_lines, occurs, occurs_at,
    parts_bytes, MultipartBuilder, Part, PartContent,
};
use crate::octets::{bytes_of, max_len};
use crate::text::{hexadecimal, pad_zeros, to_hexadecimal, zero_padded};

verus! {

/// A boundary is made of a fixed text, the nanoseconds in eight digits and the running number in
/// four or more, in base sixteen.
pub proof fn law_boundary_made(
    nanos: u32,
    counter: u64,
    a: String,
    b: String,
    pa: String,
    pb: String,
    r: String,
)
    requires
        call_ensures(generate_boundary, (nanos, counter), r),
        call_ensures(to_hexadecimal, (nanos as u64,), a),
        call_ensures(pad_zeros, (a, 8usize), pa),
        call_ensures(to_hexadecimal, (counter,), b),
        call_ensures(pad_zeros, (b, 4usize), pb),
    ensures
        r@ == "----OxiHTTPBoundary"@ + pa@ + pb@,
{
}

/// A text field has its name in its one header and the text as its content; a file also has its own
/// name there, and its type in a second header; any other part has the headers it is given.
pub proof fn law_parts_made(
    name: &str,
    value: &str,
    filename: &str,
    content_type: &str,
    body: Bytes,
    headers: Vec<(String, String)>,
    r: (Part, Part, Part),
    copy: Part,
)
    requires
        call_ensures(Part::clone, (&r.2,), copy),
        call_ensures(Part::text, (name, value), r.0),
        call_ensures(Part::file, (name, filename, content_type, body), r.1),
        call_ensures(Part::custom, (headers, body), r.2),
    ensures
        r.0@.headers == seq![
            ("Content-Disposition"@, "form-data; name=\""@ + name@ + "\""@),
        ],
        r.0@.body == encode_utf8(value@),
        r.1@.headers == seq![
            (
                "Content-Disposition"@,
                "form-data; name=\""@ + name@ + "\"; filename=\""@ + filename@ + "\""@,
            ),
            ("Content-Type"@, content_type@),
        ],
        r.1@.body == bytes_of(body),
        r.2@.headers.len() == headers@.len(),
        forall|i: int|
            0 <= i < headers@.len() ==> r.2@.headers[i] == (
                (#[trigger] headers@[i]).0@,
                headers@[i].1@,
            ),
        r.2@.body == bytes_of(body),
        copy@ == r.2@,
{
}

/// A form starts with the boundary for its moment and without parts; what is added comes last and
/// changes nothing else.
pub proof fn law_form_grows(
    nanos: u32,
    counter: u64,
    own: String,
    new: MultipartBuilder,
    f: MultipartBuilder,
    name: &str,
    value: &str,
    filename: &str,
    content_type: &str,
    body: Bytes,
    parts: (Part, Part, Part),
    r: (MultipartBuilder, MultipartBuilder, MultipartBuilder),
    boundary: &str,
    copy: MultipartBuilder,
)
    requires
        call_ensures(MultipartBuilder::clone, (&f,), copy),
        call_ensures(generate_boundary, (nanos, counter), own),
        call_ensures(MultipartBuilder::new, (nanos, counter), new),
        call_ensures(Part::text, (name, value), parts.0),
        call_ensures(Part::file, (name, filename, content_type, body), parts.1),
        call_ensures(MultipartBuilder::add_text, (f, name, value), r.0),
        call_ensures(MultipartBuilder::add_file, (f, name, filename, content_type, body), r.1),
        call_ensures(MultipartBuilder::add_part, (f, parts.2), r.2),
        call_ensures(MultipartBuilder::boundary, (&f,), boundary),
    ensures
        new@.boundary == own@ && new@.parts.len() == 0,
        boundary@ == f@.boundary,
        copy@ == f@,
        r.0@.boundary == f@.boundary && r.0@.parts == f@.parts.push(parts.0@),
        r.1@.boundary == f@.boundary && r.1@.parts == f@.parts.push(parts.1@),
        r.2@.boundary == f@.boundary && r.2@.parts == f@.parts.push(parts.2@),
{
}

/// Whether bytes occur somewhere in others.
pub open spec fn found(hay: Seq<u8>, needle: Seq<u8>) -> bool {
    exists|p: int|
        0 <= p && p + needle.len() <= hay.len() && #[trigger] hay.subrange(p, p + needle.len())
            == needle
}

/// Whether a boundary occurs in the content of a part.
pub open spec fn taken(parts: Seq<PartContent>, boundary: Seq<char>) -> bool {
    exists|j: int| 0 <= j < parts.len() && found((#[trigger] parts[j]).body, encode_utf8(boundary))
}

proof fn lemma_taken(parts: Seq<PartContent>, boundary: Seq<char>)
    ensures
        collides(parts, boundary) <==> taken(parts, boundary),
{
    let needle = encode_utf8(boundary);
    assert forall|hay: Seq<u8>| #[trigger] occurs(hay, needle) <==> found(hay, needle) by {
        if occurs(hay, needle) {
            let p = choose|p: int| occurs_at(hay, needle, p);
            assert(hay.subrange(p, p + needle.len()) == needle);
        }
        if found(hay, needle) {
            let p = choose|p: int|
                0 <= p && p + needle.len() <= hay.len() && #[trigger] hay.subrange(
                    p,
                    p + needle.len(),
                ) == needle;
            assert(occurs_at(hay, needle, p));
        }
    }
    if collides(parts, boundary) {
        let j = choose|j: int| 0 <= j < parts.len() && occurs((#[trigger] parts[j]).body, needle);
        assert(found(parts[j].body, needle));
    }
    if taken(parts, boundary) {
        let j = choose|j: int| 0 <= j < parts.len() && found((#[trigger] parts[j]).body, needle);
        assert(occurs(parts[j].body, needle));
    }
}

/// The boundary of a body occurs in none of its parts. It is the form's own where that does; else a
/// number in four or more digits of base sixteen stands behind that, and the own boundary and those
/// with smaller numbers all occur.
pub proof fn law_boundary_found(f: MultipartBuilder, r: String, content_type: String)
    requires
        f@.resolvable(),
        call_ensures(MultipartBuilder::find_unique_boundary, (&f,), r),
        call_ensures(MultipartBuilder::content_type, (&f,), content_type),
    ensures
        !taken(f@.parts, r@),
        !taken(f@.parts, f@.boundary) ==> r@ == f@.boundary,
        taken(f@.parts, f@.boundary) ==> exists|k: nat|
            k >= 1 && r@ == f@.boundary + #[trigger] zero_padded(hexadecimal(k), 4) && forall|i: nat|
                1 <= i < k ==> taken(
                    f@.parts,
                    f@.boundary + #[trigger] zero_padded(hexadecimal(i), 4),
                ),
        content_type@ == "multipart/form-data; boundary="@ + r@,
{
    let (base, parts) = (f@.boundary, f@.parts);
    lemma_taken(parts, r@);
    lemma_taken(parts, base);
    let k = first_free(base, parts, 0);
    if taken(parts, base) {
        assert(k >= 1);
        assert(r@ == base + zero_padded(hexadecimal(k), 4));
        assert forall|i: nat| 1 <= i < k implies taken(
            parts,
            base + #[trigger] zero_padded(hexadecimal(i), 4),
        ) by {
            crate::multipart::lemma_before_first_free(base, parts, 0, i);
            lemma_taken(parts, candidate(base, i));
        }
    }
}

/// The bytes of a line.
pub open spec fn line(text: Seq<char>) -> Seq<u8> {
    encode_utf8(text) + seq![13u8, 10u8]
}

/// The lines of a part's headers: the name, a colon and a space, and the value.
pub open spec fn lines(headers: Seq<(Seq<char>, Seq<char>)>) -> Seq<u8>
    decreases headers.len(),
{
    if headers.len() == 0 {
        Seq::empty()
    } else {
        lines(headers.drop_last()) + line(headers.last().0 + ": "@ + headers.last().1)
    }
}

/// A body: for each part a line of two hyphens and the boundary, the lines of its headers, an empty
/// line, and its content with the end of a line behind it.
pub open spec fn body(boundary: Seq<char>, parts: Seq<PartContent>) -> Seq<u8>
    decreases parts.len(),
{
    if parts.len() == 0 {
        Seq::empty()
    } else {
        body(boundary, parts.drop_last()) + line("--"@ + boundary) + lines(parts.last().headers)
            + line(Seq::empty()) + parts.last().body + seq![13u8, 10u8]
    }
}

proof fn lemma_lines(headers: Seq<(Seq<char>, Seq<char>)>)
    ensures
        header_lines(headers) == lines(headers),
    decreases headers.len(),
{
    if headers.len() > 0 {
        lemma_lines(headers.drop_last());
        let (n, v) = headers.last();
        lemma_encode_concat(n, ": "@);
        lemma_encode_concat(n + ": "@, v);
        assert(header_lines(headers) =~= lines(headers));
    }
}

proof fn lemma_body(boundary: Seq<char>, parts: Seq<PartContent>)
    ensures
        parts_bytes(boundary, parts) == body(boundary, parts),
    decreases parts.len(),
{
    if parts.len() > 0 {
        lemma_body(boundary, parts.drop_last());
        lemma_lines(parts.last().headers);
        assert(encode_utf8(Seq::<char>::empty()) =~= Seq::<u8>::empty());
        assert(parts_bytes(boundary, parts) =~= body(boundary, parts));
    }
}

/// A body is its parts, each behind a line with the boundary, and a last line of two hyphens, the
/// boundary and two hyphens. It is built wherever a boundary is left and memory could hold it.
pub proof fn law_body(f: MultipartBuilder, boundary: String, r: Bytes, checked: Option<Bytes>)
    requires
        f@.resolvable(),
        f@.wire().len() <= max_len(),
        call_ensures(MultipartBuilder::find_unique_boundary, (&f,), boundary),
        call_ensures(MultipartBuilder::build, (f,), r),
        call_ensures(MultipartBuilder::build_checked, (f,), checked),
    ensures
        bytes_of(r) == body(boundary@, f@.parts) + line("--"@ + boundary@ + "--"@),
        checked matches Some(b) && bytes_of(b) == bytes_of(r),
{
    lemma_whole(boundary@, f@.parts);
}

proof fn lemma_whole(b: Seq<char>, parts: Seq<PartContent>)
    ensures
        body_bytes(b, parts) == body(b, parts) + line("--"@ + b + "--"@),
{
    lemma_body(b, parts);
    reveal_strlit("--\r\n");
    reveal_strlit("--");
    assert("--"@ + b + "--\r\n"@ =~= ("--"@ + b + "--"@) + seq!['\r', '\n']);
    lemma_encode_concat("--"@ + b + "--"@, seq!['\r', '\n']);
    lemma_end_of_line();
}

proof fn lemma_end_of_line()
    ensures
        encode_utf8(seq!['\r', '\n']) == seq![13u8, 10u8],
{
    let s = seq!['\r', '\n'];
    assert(vstd::utf8::has_width_1_encoding(13u32) && vstd::utf8::has_width_1_encoding(10u32));
    reveal_with_fuel(encode_utf8, 3);
    assert(13u32 & 0x7F == 13u32) by (bit_vector);
    assert(10u32 & 0x7F == 10u32) by (bit_vector);
    assert(s.drop_first() =~= seq!['\n']);
    assert(seq!['\n'].drop_first() =~= Seq::<char>::empty());
    assert(encode_utf8(s) =~= seq![13u8, 10u8]);
}

/// The boundary with the number `k`: the form's own, or that with the number behind it.
pub open spec fn numbered(boundary: Seq<char>, k: nat) -> Seq<char> {
    if k == 0 {
        boundary
    } else {
        boundary + zero_padded(hexadecimal(k), 4)
    }
}

/// A form is built with the boundary of the smallest number up to `u32::MAX` that occurs in none of
/// its parts, where memory could hold that, and not at all where all of them occur.
pub proof fn law_body_built_or_not(f: MultipartBuilder, k: nat, checked: Option<Bytes>)
    requires
        call_ensures(MultipartBuilder::build_checked, (f,), checked),
        k <= u32::MAX,
        forall|i: nat| i < k ==> taken(f@.parts, #[trigger] numbered(f@.boundary, i)),
    ensures
        taken(f@.parts, numbered(f@.boundary, k)) && k == u32::MAX ==> checked is None,
        !taken(f@.parts, numbered(f@.boundary, k)) ==> {
            let b = numbered(f@.boundary, k);
            let whole = body(b, f@.parts) + line("--"@ + b + "--"@);
            &&& f@.resolvable()
            &&& f@.wire() == whole
            &&& checked is Some <==> whole.len() <= isize::MAX
            &&& checked matches Some(c) ==> bytes_of(c) == whole
        },
{
    let (base, parts) = (f@.boundary, f@.parts);
    lemma_taken(parts, candidate(base, k));
    if k == u32::MAX || !taken(parts, numbered(base, k)) {
        lemma_first_free(base, parts, 0, k);
        assert(candidate(base, k) == numbered(base, k));
        lemma_whole(numbered(base, k), parts);
    }
}

proof fn lemma_first_free(base: Seq<char>, parts: Seq<PartContent>, j: nat, k: nat)
    requires
        j <= k <= u32::MAX,
        forall|i: nat| i < k ==> taken(parts, #[trigger] numbered(base, i)),
        k == u32::MAX || !taken(parts, numbered(base, k)),
    ensures
        first_free(base, parts, j) == k,
    decreases k - j,
{
    assert(candidate(base, j) == numbered(base, j));
    lemma_taken(parts, numbered(base, j));
    if j < k {
        lemma_first_free(base, parts, j + 1, k);
    }
}

} // verus!
