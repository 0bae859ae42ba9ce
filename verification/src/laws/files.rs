//! Static files: tags, dates, ranges, paths and responses.

use http::HeaderMap;
use std::path::{Path, PathBuf};
use vstd::prelude::*;
use vstd::utf8::encode_utf8;

use crate::encoding::sha256_digest;
use crate::error::{ErrorKind, OxiHttpError};
use crate::headers::{get_str, valid_value};
use crate::http_date::{format_http_date, parse_http_date};
use crate::http_types::{Method, Reply};
use crate::static_files::{
    compute_etag, etag_matches, file_reply, guessed_mime, hex_text, is_modified_since, is_path_safe,
    is_within, normalised, parse_single_range, part_views, path_parts, Choice, Located, Modified,
    PartView, PathPart, RangeError, ServeDir, ServeFile, ServedFile,
};
use crate::text::{
    hexadecimal, lemma_position, parse_number, slice_texts, split, to_decimal, trim, trimmed,
};

verus! {

/// The tag of a file is the first sixteen bytes of its SHA-256 digest, each as two digits in base
/// sixteen, in quotes.
pub proof fn law_etag(data: &[u8], r: String)
    requires
        call_ensures(compute_etag, (data,), r),
        sha256_digest(data@).len() == 32,
    ensures
        r@.len() == 34,
        r@[0] == '"' && r@[33] == '"',
        forall|i: int|
            0 <= i < 16 ==> {
                let b = #[trigger] sha256_digest(data@)[i] as int;
                r@[1 + 2 * i] == "0123456789abcdef"@[b / 16] && r@[2 + 2 * i]
                    == "0123456789abcdef"@[b % 16]
            },
{
    let first = sha256_digest(data@).take(16);
    lemma_hex_pairs(first);
    let h = hex_text(first);
    assert forall|i: int| 0 <= i < 16 implies ({
        let b = #[trigger] sha256_digest(data@)[i] as int;
        r@[1 + 2 * i] == "0123456789abcdef"@[b / 16] && r@[2 + 2 * i] == "0123456789abcdef"@[b
            % 16]
    }) by {
        assert(first[i] == sha256_digest(data@)[i]);
        assert(r@[1 + 2 * i] == h[2 * i]);
        assert(r@[2 + 2 * i] == h[2 * i + 1]);
    }
}

proof fn lemma_hex_pairs(data: Seq<u8>)
    ensures
        hex_text(data).len() == 2 * data.len(),
        forall|i: int|
            0 <= i < data.len() ==> {
                let b = #[trigger] data[i] as int;
                hex_text(data)[2 * i] == "0123456789abcdef"@[b / 16] && hex_text(data)[2 * i + 1]
                    == "0123456789abcdef"@[b % 16]
            },
    decreases data.len(),
{
    reveal_strlit("0123456789abcdef");
    if data.len() > 0 {
        let less = data.drop_last();
        lemma_hex_pairs(less);
        reveal_with_fuel(hexadecimal, 3);
        let h = hex_text(data);
        let two = crate::static_files::hex_byte(data.last());
        assert(two.len() == 2);
        let last = data.last() as int;
        assert(two[0] == "0123456789abcdef"@[last / 16] && two[1] == "0123456789abcdef"@[last % 16]);
        assert forall|i: int| 0 <= i < data.len() implies ({
            let b = #[trigger] data[i] as int;
            h[2 * i] == "0123456789abcdef"@[b / 16] && h[2 * i + 1] == "0123456789abcdef"@[b % 16]
        }) by {
            if i < less.len() {
                assert(less[i] == data[i]);
                assert(h[2 * i] == hex_text(less)[2 * i]);
                assert(h[2 * i + 1] == hex_text(less)[2 * i + 1]);
            } else {
                assert(h[2 * i] == two[0]);
                assert(h[2 * i + 1] == two[1]);
            }
        }
    }
}

/// An `If-None-Match` names a tag where it is `*` or where the tag is between two of its commas,
/// white space left out.
pub proof fn law_etag_matches(
    s: &str,
    chars: &[char],
    inner: &[char],
    list: Vec<&[char]>,
    etag: &str,
    r: bool,
)
    requires
        chars@ == s@,
        call_ensures(trim, (chars,), inner),
        call_ensures(split, (inner, ','), list),
        call_ensures(etag_matches, (s, etag), r),
    ensures
        inner@ == "*"@ ==> r,
        inner@ != "*"@ ==> (r <==> exists|i: int|
            0 <= i < list@.len() && trimmed((#[trigger] list@[i])@) == etag@),
{
    let all = slice_texts(list@);
    assert(forall|i: int| 0 <= i < list@.len() ==> all[i] == (#[trigger] list@[i])@);
    if exists|i: int| 0 <= i < all.len() && trimmed(#[trigger] all[i]) == etag@ {
        let i = choose|i: int| 0 <= i < all.len() && trimmed(#[trigger] all[i]) == etag@;
        assert(trimmed(list@[i]@) == etag@);
    }
    if exists|i: int| 0 <= i < list@.len() && trimmed((#[trigger] list@[i])@) == etag@ {
        let i = choose|i: int| 0 <= i < list@.len() && trimmed((#[trigger] list@[i])@) == etag@;
        assert(trimmed(all[i]) == etag@);
    }
}

/// A file changed after a date where it was modified later than the second that the date names, and
/// where the date cannot be read.
pub proof fn law_modified_since(mtime: u64, ims: &str, date: Option<u64>, r: bool)
    requires
        call_ensures(parse_http_date, (ims,), date),
        call_ensures(is_modified_since, (mtime, ims), r),
    ensures
        r <==> (date matches Some(t) ==> mtime > t),
{
}

/// A range starts with `bytes=`, is only one, and has a hyphen. With a number on either side it
/// asks for these positions and all between; without the second for all from the first on; without
/// the first for so many at the end. What it asks for has to lie within the file.
pub proof fn law_range(
    s: &str,
    chars: &[char],
    inner: &[char],
    ask: Seq<char>,
    a: &[char],
    b: &[char],
    na: Option<u64>,
    nb: Option<u64>,
    len: usize,
    r: Result<(usize, usize), RangeError>,
)
    requires
        chars@ == s@,
        call_ensures(trim, (chars,), inner),
        call_ensures(parse_number, (a, usize::MAX as u64), na),
        call_ensures(parse_number, (b, usize::MAX as u64), nb),
        call_ensures(parse_single_range, (s, len), r),
    ensures
        (inner@.len() < 6 || inner@.take(6) != "bytes="@) ==> r == Err::<(usize, usize), RangeError>(
            RangeError::Invalid,
        ),
        inner@ == "bytes="@ + ask && ask.contains(',') ==> r == Err::<(usize, usize), RangeError>(
            RangeError::MultiRange,
        ),
        inner@ == "bytes="@ + ask && !ask.contains(',') && !ask.contains('-') ==> r == Err::<
            (usize, usize),
            RangeError,
        >(RangeError::Invalid),
        inner@ == "bytes="@ + (a@ + seq!['-'] + b@) && !a@.contains('-') && !a@.contains(',')
            && !b@.contains(',') ==> {
            let first: Option<int> = if a@.len() > 0 {
                match na {
                    Some(n) => Some(n as int),
                    None => None,
                }
            } else {
                match nb {
                    Some(n) => if n == 0 {
                        None
                    } else if n >= len {
                        Some(0)
                    } else {
                        Some(len - n)
                    },
                    None => None,
                }
            };
            let last: Option<int> = if a@.len() == 0 || b@.len() == 0 {
                Some(len - 1)
            } else {
                match nb {
                    Some(n) => Some(n as int),
                    None => None,
                }
            };
            if first is Some && last is Some && first->0 <= last->0 < len {
                r == Ok::<(usize, usize), RangeError>((first->0 as usize, last->0 as usize))
            } else {
                r == Err::<(usize, usize), RangeError>(RangeError::Invalid)
            }
        },
{
    reveal_strlit("bytes=");
    let t = inner@;
    if t == "bytes="@ + ask {
        assert(t.take(6) =~= "bytes="@);
        assert(t.skip(6) =~= ask);
        lemma_position(ask, '-');
    }
    let both = a@ + seq!['-'] + b@;
    if t == "bytes="@ + both && !a@.contains('-') && !a@.contains(',') && !b@.contains(',') {
        assert(t.take(6) =~= "bytes="@);
        assert(t.skip(6) =~= both);
        assert(!both.contains(',')) by {
            assert forall|i: int| 0 <= i < both.len() implies both[i] != ',' by {
                if i < a@.len() {
                    assert(a@.contains(both[i]));
                } else if i > a@.len() {
                    assert(b@[i - a@.len() - 1] == both[i]);
                    assert(b@.contains(both[i]));
                }
            }
        }
        assert forall|j: int| 0 <= j < a@.len() implies both[j] != '-' by {
            assert(a@.contains(both[j]));
        }
        crate::text::lemma_position_at(both, '-', a@.len());
        assert(both.take(a@.len() as int) =~= a@);
        assert(both.skip(a@.len() as int + 1) =~= b@);
    }
}

/// Headers with one more.
pub open spec fn plus(
    entries: Map<Seq<char>, Seq<Seq<u8>>>,
    name: Seq<char>,
    text: Seq<char>,
) -> Map<Seq<char>, Seq<Seq<u8>>> {
    entries.insert(name, seq![encode_utf8(text)])
}

/// Headers with the `Cache-Control`, where there is one that can be a value.
pub open spec fn plus_cache(
    entries: Map<Seq<char>, Seq<Seq<u8>>>,
    cache: Option<String>,
) -> Map<Seq<char>, Seq<Seq<u8>>> {
    match cache {
        Some(c) => if valid_value(encode_utf8(c@)) {
            plus(entries, "cache-control"@, c@)
        } else {
            entries
        },
        None => entries,
    }
}

/// What is found out about a request for a file before it is answered.
pub struct Findings<'a> {
    pub etag: String,
    pub tag: &'a str,
    pub if_none_match: Option<&'a str>,
    pub names_tag: bool,
    pub if_modified_since: Option<&'a str>,
    pub modified: bool,
    pub range: Option<&'a str>,
    pub part: Result<(usize, usize), RangeError>,
    pub date: String,
    pub numerals: (String, String, String, String),
}

impl<'a> Findings<'a> {
    /// Whether they are those of this request: the tag of the file, what the three headers say, and
    /// what they come to.
    pub open spec fn of(self, headers: HeaderMap, data: &[u8], mtime: Modified) -> bool {
        &&& call_ensures(compute_etag, (data,), self.etag)
        &&& self.tag@ == self.etag@
        &&& call_ensures(get_str, (&headers, "if-none-match"), self.if_none_match)
        &&& call_ensures(get_str, (&headers, "if-modified-since"), self.if_modified_since)
        &&& call_ensures(get_str, (&headers, "range"), self.range)
        &&& self.if_none_match matches Some(v) ==> call_ensures(
            etag_matches,
            (v, self.tag),
            self.names_tag,
        )
        &&& self.if_modified_since matches Some(v) ==> match mtime {
            Modified::Unknown => true,
            Modified::BeforeEpoch => call_ensures(is_modified_since, (0u64, v), self.modified),
            Modified::At(t) => call_ensures(is_modified_since, (t, v), self.modified),
        }
        &&& self.range matches Some(v) ==> call_ensures(
            parse_single_range,
            (v, data@.len() as usize),
            self.part,
        )
        &&& mtime matches Modified::At(t) ==> call_ensures(format_http_date, (t,), self.date)
        &&& call_ensures(to_decimal, (data@.len() as u64,), self.numerals.0)
        &&& self.part matches Ok((s, e)) ==> {
            &&& call_ensures(to_decimal, (s as u64,), self.numerals.1)
            &&& call_ensures(to_decimal, (e as u64,), self.numerals.2)
            &&& call_ensures(to_decimal, ((e - s + 1) as u64,), self.numerals.3)
        }
    }

    /// Whether the client has the file already.
    pub open spec fn fresh(self, mtime: Modified) -> bool {
        (self.if_none_match is Some && self.names_tag) || (self.if_modified_since is Some && mtime
            !is Unknown && !self.modified)
    }
}

/// A client that has the file already gets 304 with the tag. One that asks for a part gets 206 with
/// that part, or 416 with the length where there is no such part. Any other gets 200 with the file.
/// The headers are exactly those that are listed here, and a HEAD request gets no body. A file or a
/// part cannot be sent with a `Cache-Control` or a type that can be no header's value.
pub proof fn law_file_reply(
    head: bool,
    headers: HeaderMap,
    data: Vec<u8>,
    slice: &[u8],
    mtime: Modified,
    mime: &str,
    cache: Option<String>,
    x: Findings<'_>,
    r: Result<Reply, OxiHttpError>,
)
    requires
        call_ensures(file_reply, (head, &headers, data, mtime, mime, &cache), r),
        slice@ == data@,
        data@.len() <= usize::MAX,
        x.of(headers, slice, mtime),
    ensures
        ({
            let none = Map::<Seq<char>, Seq<Seq<u8>>>::empty();
            let sendable = valid_value(encode_utf8(mime@)) && (cache matches Some(c)
                ==> valid_value(encode_utf8(c@)));
            if x.fresh(mtime) {
                r matches Ok(f) && f@.status == 304 && f@.body.len() == 0 && f@.headers
                    == plus_cache(plus(none, "etag"@, x.etag@), cache)
            } else if x.range is Some && x.part is Err {
                r matches Ok(f) && f@.status == 416 && f@.body.len() == 0 && f@.headers
                    == plus_cache(
                    plus(none, "content-range"@, "bytes */"@ + x.numerals.0@),
                    cache,
                )
            } else if !sendable {
                r matches Err(e) && e@ == (ErrorKind::Http, "failed to parse header value"@)
            } else if x.range is Some {
                let (s, e) = x.part->Ok_0;
                r matches Ok(f) && f@.status == 206 && f@.body == (if head {
                    Seq::empty()
                } else {
                    data@.subrange(s as int, e + 1)
                }) && f@.headers == plus_cache(
                    plus(
                        plus(
                            plus(
                                plus(none, "content-type"@, mime@),
                                "content-range"@,
                                "bytes "@ + x.numerals.1@ + "-"@ + x.numerals.2@ + "/"@
                                    + x.numerals.0@,
                            ),
                            "content-length"@,
                            x.numerals.3@,
                        ),
                        "etag"@,
                        x.etag@,
                    ),
                    cache,
                )
            } else {
                let base = plus(
                    plus(
                        plus(none, "content-type"@, mime@),
                        "content-length"@,
                        x.numerals.0@,
                    ),
                    "etag"@,
                    x.etag@,
                );
                r matches Ok(f) && f@.status == 200 && f@.body == (if head {
                    Seq::empty()
                } else {
                    data@
                }) && f@.headers == plus_cache(
                    if mtime is At {
                        plus(base, "last-modified"@, x.date@)
                    } else {
                        base
                    },
                    cache,
                )
            }
        }),
{
}

/// Whether a method is one that files are served for.
pub open spec fn get_or_head(m: Method) -> bool {
    m@ == "GET"@ || m@ == "HEAD"@
}

/// Whether a response has only the status and the `Cache-Control`.
pub open spec fn bare(f: Reply, status: u16, cache: Option<Seq<char>>) -> bool {
    let none = Map::<Seq<char>, Seq<Seq<u8>>>::empty();
    &&& f@.status == status
    &&& f@.body.len() == 0
    &&& f@.headers == if cache matches Some(c) && valid_value(encode_utf8(c)) {
        plus(none, "cache-control"@, cache->0)
    } else {
        none
    }
}

/// A request for a directory is for its path without the slashes in front, or for the index where
/// nothing else is left and there is one. Without one it gets 404, and any method but GET and HEAD
/// gets 405.
pub proof fn law_locate(
    d: ServeDir,
    method: Method,
    slashes: nat,
    rel: Seq<char>,
    path: &str,
    r: Located,
)
    requires
        call_ensures(ServeDir::locate, (&d, &method, path), r),
        path@ == Seq::new(slashes, |i: int| '/') + rel,
        rel.len() > 0 ==> rel[0] != '/',
    ensures
        !get_or_head(method) ==> (r matches Located::Refused(f) && bare(f, 405, d@.cache_control)),
        get_or_head(method) && rel.len() > 0 ==> (r matches Located::File(p) && p@ == rel),
        get_or_head(method) && rel.len() == 0 ==> match d@.index {
            Some(index) => r matches Located::File(p) && p@ == index,
            None => r matches Located::Refused(f) && bare(f, 404, d@.cache_control),
        },
{
    lemma_slashes(slashes, rel);
}

proof fn lemma_slashes(n: nat, rel: Seq<char>)
    requires
        rel.len() > 0 ==> rel[0] != '/',
    ensures
        crate::static_files::without_slashes(Seq::new(n, |i: int| '/') + rel) == rel,
    decreases n,
{
    let s = Seq::new(n, |i: int| '/') + rel;
    if n > 0 {
        lemma_slashes((n - 1) as nat, rel);
        assert(s.skip(1) =~= Seq::new((n - 1) as nat, |i: int| '/') + rel);
    } else {
        assert(s =~= rel);
    }
}

/// A path outside the root gets 403 and one inside is let through; a missing file gets 404; and a
/// method that a single file is not served for gets 405.
pub proof fn law_refusals(
    d: ServeDir,
    root: &Path,
    joined: &Path,
    safe: bool,
    g: Option<Reply>,
    n: Reply,
    one: ServeFile,
    method: Method,
    c: Option<Reply>,
)
    requires
        call_ensures(is_path_safe, (root, joined), safe),
        call_ensures(ServeDir::guard, (&d, root, joined), g),
        call_ensures(ServeDir::not_found, (&d,), n),
        call_ensures(ServeFile::check_method, (&one, &method), c),
    ensures
        safe <==> g is None,
        g matches Some(f) ==> bare(f, 403, d@.cache_control),
        bare(n, 404, d@.cache_control),
        get_or_head(method) <==> c is None,
        c matches Some(f) ==> bare(f, 405, one@.cache_control),
{
}

/// The file that was asked for is served where it is one, else the fallback where there is one.
pub proof fn law_choice(d: ServeDir, requested: bool, fallback: bool, r: Choice)
    requires
        call_ensures(ServeDir::choose_file, (&d, requested, fallback), r),
    ensures
        r == Choice::Requested <==> requested,
        r == Choice::Fallback <==> !requested && fallback && d@.fallback is Some,
        r == Choice::Missing <==> !requested && !(fallback && d@.fallback is Some),
{
}

/// A file is served as `file_reply` does it, with the type that was set for its extension or the
/// usual one, and with the configured `Cache-Control`. Any method but GET and HEAD gets 405.
pub proof fn law_serve(
    d: ServeDir,
    one: ServeFile,
    method: Method,
    file: ServedFile,
    headers: HeaderMap,
    mimes: (&str, &str),
    caches: (Option<String>, Option<String>),
    replies: (Result<Reply, OxiHttpError>, Result<Reply, OxiHttpError>),
    r: (Result<Reply, OxiHttpError>, Result<Reply, OxiHttpError>),
)
    requires
        call_ensures(ServeDir::serve, (&d, &method, file, &headers), r.0),
        call_ensures(ServeFile::serve, (&one, &method, file, &headers), r.1),
        mimes.0@ == if d@.mime_overrides.contains_key(file.extension@) {
            d@.mime_overrides[file.extension@]
        } else {
            guessed_mime(file.extension@)
        },
        mimes.1@ == match one@.mime_override {
            Some(t) => t,
            None => guessed_mime(file.extension@),
        },
        match caches.0 {
            Some(c) => d@.cache_control == Some(c@),
            None => d@.cache_control is None,
        },
        match caches.1 {
            Some(c) => one@.cache_control == Some(c@),
            None => one@.cache_control is None,
        },
        call_ensures(
            file_reply,
            (method@ == "HEAD"@, &headers, file.data, file.modified, mimes.0, &caches.0),
            replies.0,
        ),
        call_ensures(
            file_reply,
            (method@ == "HEAD"@, &headers, file.data, file.modified, mimes.1, &caches.1),
            replies.1,
        ),
    ensures
        !get_or_head(method) ==> (r.0 matches Ok(f) && bare(f, 405, d@.cache_control)) && (
        r.1 matches Ok(f) && bare(f, 405, one@.cache_control)),
        get_or_head(method) ==> match r.0 {
            Ok(f) => replies.0 matches Ok(g) && f@ == g@,
            Err(e) => replies.0 matches Err(g) && e@ == g@,
        },
        get_or_head(method) ==> match r.1 {
            Ok(f) => replies.1 matches Ok(g) && f@ == g@,
            Err(e) => replies.1 matches Err(g) && e@ == g@,
        },
{
}

/// What is set on a directory is there, the last one for an extension counts, and nothing else
/// changes.
pub proof fn law_directory_settings(
    root: PathBuf,
    new: ServeDir,
    d: ServeDir,
    text: &str,
    mime: &str,
    path: PathBuf,
    r: (ServeDir, ServeDir, ServeDir, ServeDir),
    ext: Seq<char>,
    shown: &PathBuf,
    other: Option<&PathBuf>,
)
    requires
        call_ensures(ServeDir::root, (&d,), shown),
        call_ensures(ServeDir::fallback, (&d,), other),
        call_ensures(ServeDir::new, (root,), new),
        call_ensures(ServeDir::with_index, (d, text), r.0),
        call_ensures(ServeDir::with_fallback, (d, path), r.1),
        call_ensures(ServeDir::with_cache_control, (d, text), r.2),
        call_ensures(ServeDir::add_mime_override, (d, text, mime), r.3),
    ensures
        *shown == d@.root,
        other is Some <==> d@.fallback is Some,
        other matches Some(p) ==> d@.fallback == Some(*p),
        new@.root == root && new@.index is None && new@.fallback is None && new@.cache_control is None
            && !new@.mime_overrides.contains_key(ext),
        r.0@.index == Some(text@) && r.0@.root == d@.root && r.0@.fallback == d@.fallback
            && r.0@.cache_control == d@.cache_control && r.0@.mime_overrides == d@.mime_overrides,
        r.1@.fallback == Some(path) && r.1@.root == d@.root && r.1@.index == d@.index
            && r.1@.cache_control == d@.cache_control && r.1@.mime_overrides == d@.mime_overrides,
        r.2@.cache_control == Some(text@) && r.2@.root == d@.root && r.2@.index == d@.index
            && r.2@.fallback == d@.fallback && r.2@.mime_overrides == d@.mime_overrides,
        r.3@.root == d@.root && r.3@.index == d@.index && r.3@.fallback == d@.fallback
            && r.3@.cache_control == d@.cache_control,
        r.3@.mime_overrides.contains_key(text@) && r.3@.mime_overrides[text@] == mime@,
        ext != text@ ==> r.3@.mime_overrides.contains_key(ext) == d@.mime_overrides.contains_key(
            ext,
        ) && (d@.mime_overrides.contains_key(ext) ==> r.3@.mime_overrides[ext]
            == d@.mime_overrides[ext]),
{
}

/// What is set on a single file is there, and nothing else changes.
pub proof fn law_file_settings(
    path: PathBuf,
    new: ServeFile,
    one: ServeFile,
    text: &str,
    r: (ServeFile, ServeFile),
    shown: &PathBuf,
)
    requires
        call_ensures(ServeFile::path, (&one,), shown),
        call_ensures(ServeFile::new, (path,), new),
        call_ensures(ServeFile::with_cache_control, (one, text), r.0),
        call_ensures(ServeFile::with_mime, (one, text), r.1),
    ensures
        *shown == one@.path,
        new@.path == path && new@.cache_control is None && new@.mime_override is None,
        r.0@.cache_control == Some(text@) && r.0@.path == one@.path && r.0@.mime_override
            == one@.mime_override,
        r.1@.mime_override == Some(text@) && r.1@.path == one@.path && r.1@.cache_control
            == one@.cache_control,
{
}

/// A path is inside a root where its components start with those of the root.
pub proof fn law_within_by_components(root: &Vec<PathPart>, path: &Vec<PathPart>, r: bool)
    requires
        call_ensures(is_within, (root, path), r),
        forall|i: int|
            0 <= i < root@.len() ==> (#[trigger] root@[i]) !is Parent && root@[i] !is Current,
        forall|i: int|
            0 <= i < path@.len() ==> (#[trigger] path@[i]) !is Parent && path@[i] !is Current,
    ensures
        r <==> root@.len() <= path@.len() && forall|i: int|
            0 <= i < root@.len() ==> alike(#[trigger] root@[i], path@[i]),
{
    assert(forall|x: PathPart, y: PathPart| #[trigger] alike(x, y) <==> x@ == y@);
    let (a, b) = (part_views(root@), part_views(path@));
    lemma_plain_parts(a);
    lemma_plain_parts(b);
    assert(forall|i: int| 0 <= i < root@.len() ==> a[i] == (#[trigger] root@[i])@);
    assert(forall|i: int| 0 <= i < path@.len() ==> b[i] == (#[trigger] path@[i])@);
    if a.len() <= b.len() {
        if b.take(a.len() as int) == a {
            assert(forall|i: int| 0 <= i < a.len() ==> b.take(a.len() as int)[i] == b[i]);
        } else if forall|i: int| 0 <= i < root@.len() ==> alike(#[trigger] root@[i], path@[i]) {
            assert(b.take(a.len() as int) =~= a);
        }
    }
}

proof fn lemma_plain_parts(p: Seq<PartView>)
    requires
        forall|i: int| 0 <= i < p.len() ==> (#[trigger] p[i]) !is Parent && p[i] !is Current,
    ensures
        normalised(p) == p,
    decreases p.len(),
{
    if p.len() > 0 {
        assert(forall|i: int| 0 <= i < p.len() - 1 ==> p.drop_last()[i] == p[i]);
        lemma_plain_parts(p.drop_last());
        assert(p[p.len() - 1] == p.last());
        assert(normalised(p) =~= p);
    }
}

/// What each component says, in order.
pub open spec fn views(parts: Seq<PathPart>) -> Seq<PartView> {
    Seq::new(parts.len(), |i: int| parts[i]@)
}

proof fn lemma_views(parts: Seq<PathPart>)
    ensures
        views(parts) == part_views(parts),
{
    assert(views(parts) =~= part_views(parts));
}

/// Whether two components are of the same kind and have the same bytes.
pub open spec fn alike(a: PathPart, b: PathPart) -> bool {
    match (a, b) {
        (PathPart::Parent, PathPart::Parent) => true,
        (PathPart::Current, PathPart::Current) => true,
        (PathPart::Root, PathPart::Root) => true,
        (PathPart::Named(x), PathPart::Named(y)) => x@ == y@,
        (PathPart::Raw(x), PathPart::Raw(y)) => x@ == y@,
        (PathPart::RawShare(x, v), PathPart::RawShare(y, w)) => x@ == y@ && v@ == w@,
        (PathPart::RawDrive(x), PathPart::RawDrive(y)) => x == y,
        (PathPart::Device(x), PathPart::Device(y)) => x@ == y@,
        (PathPart::Share(x, v), PathPart::Share(y, w)) => x@ == y@ && v@ == w@,
        (PathPart::Drive(x), PathPart::Drive(y)) => x == y,
        _ => false,
    }
}

/// Wherever it stands in a path, a `.` changes nothing, and neither does a component with a `..`
/// right behind it, nor a `..` in front of everything else.
pub proof fn law_dots_in_paths(
    root: &Vec<PathPart>,
    path: &Vec<PathPart>,
    same: &Vec<PathPart>,
    before: Seq<PartView>,
    step: PartView,
    after: Seq<PartView>,
    r: bool,
    s: bool,
)
    requires
        call_ensures(is_within, (root, path), r),
        call_ensures(is_within, (root, same), s),
        views(same@) == before + after,
        step !is Parent && step !is Current,
    ensures
        views(path@) == before + seq![PartView::Current] + after ==> r == s,
        views(path@) == before + seq![step, PartView::Parent] + after ==> r == s,
        before.len() == 0 && views(path@) == seq![PartView::Parent] + after ==> r == s,
{
    lemma_dots(before, step, after);
    lemma_views(root@);
    lemma_views(path@);
    lemma_views(same@);
}

/// `law_dots_in_paths` of the root.
pub proof fn law_dots_in_roots(
    root: &Vec<PathPart>,
    same: &Vec<PathPart>,
    path: &Vec<PathPart>,
    before: Seq<PartView>,
    step: PartView,
    after: Seq<PartView>,
    r: bool,
    s: bool,
)
    requires
        call_ensures(is_within, (root, path), r),
        call_ensures(is_within, (same, path), s),
        views(same@) == before + after,
        step !is Parent && step !is Current,
    ensures
        views(root@) == before + seq![PartView::Current] + after ==> r == s,
        views(root@) == before + seq![step, PartView::Parent] + after ==> r == s,
        before.len() == 0 && views(root@) == seq![PartView::Parent] + after ==> r == s,
{
    lemma_dots(before, step, after);
    lemma_views(root@);
    lemma_views(path@);
    lemma_views(same@);
}

proof fn lemma_dots(before: Seq<PartView>, step: PartView, after: Seq<PartView>)
    requires
        step !is Parent && step !is Current,
    ensures
        normalised(before + seq![PartView::Current] + after) == normalised(before + after),
        normalised(before + seq![step, PartView::Parent] + after) == normalised(before + after),
        before.len() == 0 ==> normalised(seq![PartView::Parent] + after) == normalised(
            before + after,
        ),
{
    let b = before + seq![PartView::Current];
    assert(b.drop_last() =~= before);
    lemma_same_prefix(b, before, after);
    let c1 = before + seq![step];
    let c = before + seq![step, PartView::Parent];
    assert(c.drop_last() =~= c1);
    assert(c1.drop_last() =~= before);
    assert(normalised(c1) =~= normalised(before).push(step));
    assert(normalised(c) =~= normalised(before));
    lemma_same_prefix(c, before, after);
    let d = seq![PartView::Parent];
    assert(d.drop_last() =~= Seq::<PartView>::empty());
    assert(normalised(Seq::<PartView>::empty()) =~= Seq::<PartView>::empty());
    assert(d.last() == PartView::Parent);
    assert(normalised(d.drop_last()).len() == 0);
    assert(normalised(d) =~= Seq::<PartView>::empty());
    lemma_same_prefix(d, Seq::empty(), after);
    assert(before.len() == 0 ==> before =~= Seq::<PartView>::empty());
}

proof fn lemma_same_prefix(a: Seq<PartView>, b: Seq<PartView>, after: Seq<PartView>)
    requires
        normalised(a) == normalised(b),
    ensures
        normalised(a + after) == normalised(b + after),
    decreases after.len(),
{
    if after.len() == 0 {
        assert(a + after =~= a);
        assert(b + after =~= b);
    } else {
        lemma_same_prefix(a, b, after.drop_last());
        assert((a + after).drop_last() =~= a + after.drop_last());
        assert((b + after).drop_last() =~= b + after.drop_last());
    }
}

/// Paths are compared by their components.
pub proof fn law_paths_by_components(
    root: &Path,
    path: &Path,
    a: &Vec<PathPart>,
    b: &Vec<PathPart>,
    r: bool,
    s: bool,
)
    requires
        call_ensures(is_path_safe, (root, path), r),
        views(a@) == path_parts(root),
        views(b@) == path_parts(path),
        call_ensures(is_within, (a, b), s),
    ensures
        r == s,
{
    lemma_views(a@);
    lemma_views(b@);
}

} // verus!
