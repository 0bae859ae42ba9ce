//! URIs, as far as a client looks into them.

use vstd::prelude::*;
use vstd::slice::slice_subrange;

use crate::error::{ErrorKind, OxiHttpError};
use crate::text::{
    chars_of, find, is_text, joined, last_position, lemma_joined_pieces, lemma_pieces_joined,
    lemma_pieces_parts, lemma_position, lower, lower_char, opt_chars, pieces, position, push_chars,
    rfind, slice_texts, split,
};

verus! {

/// A URI that `http::Uri` accepts: its text, its scheme and its authority.
#[derive(Debug, Clone, PartialEq, Eq)]
pub struct Uri {
    /// The text it was read from.
    pub text: String,
    /// The scheme, where it has one.
    pub scheme: Option<String>,
    /// The authority, where it has one.
    pub authority: Option<String>,
}

/// What a URI says.
pub struct UriView {
    pub text: Seq<char>,
    pub scheme: Option<Seq<char>>,
    pub authority: Option<Seq<char>>,
}

impl View for Uri {
    type V = UriView;

    open spec fn view(&self) -> UriView {
        UriView {
            text: self.text@,
            scheme: opt_chars(self.scheme),
            authority: opt_chars(self.authority),
        }
    }
}

/// Whether a character ends an authority.
pub open spec fn ends_authority(c: char) -> bool {
    c == '/' || c == '?' || c == '#'
}

/// Whether a text has no character that ends an authority.
pub open spec fn within_authority(s: Seq<char>) -> bool {
    forall|i: int| 0 <= i < s.len() ==> !ends_authority(#[trigger] s[i])
}

/// Whether a text is empty or starts with a character that ends an authority.
pub open spec fn after_authority(s: Seq<char>) -> bool {
    s.len() > 0 ==> ends_authority(s[0])
}

impl UriView {
    /// How many characters the scheme and the authority take.
    pub open spec fn prefix_len(self) -> nat {
        (match self.scheme {
            Some(s) => s.len() + 3,
            None => 0,
        }) + (match self.authority {
            Some(a) => a.len(),
            None => 0,
        })
    }

    /// What follows the scheme and the authority.
    pub open spec fn rest(self) -> Seq<char> {
        if self.prefix_len() <= self.text.len() {
            self.text.skip(self.prefix_len() as int)
        } else {
            Seq::empty()
        }
    }

    /// The path and the query, without the fragment. `*` is no path.
    pub open spec fn path_and_query(self) -> Seq<char> {
        if after_authority(self.rest()) {
            up_to(self.rest(), '#')
        } else {
            Seq::empty()
        }
    }

    /// The path.
    pub open spec fn path(self) -> Seq<char> {
        up_to(self.path_and_query(), '?')
    }

    /// Whether the scheme and the authority are those of the text.
    ///
    /// A scheme stands in front, in any case of letters, with `://` and an authority after it. An
    /// authority ends with the text or at a `/`, `?` or `#`. A text without a scheme is a path, or
    /// has no `/` at all.
    pub open spec fn wf(self) -> bool {
        &&& self.scheme matches Some(s) ==> {
            &&& self.authority is Some
            &&& !s.contains(':')
            &&& !s.contains('/')
            &&& self.prefix_len() <= self.text.len()
            &&& lower(self.text.take(s.len() as int)) == lower(s)
            &&& self.text.skip(s.len() as int) == "://"@ + self.authority->0 + self.rest()
        }
        &&& self.authority matches Some(a) ==> within_authority(a) && after_authority(self.rest())
        &&& self.scheme is None ==> (self.text.len() > 0 && self.text[0] == '/')
            || !self.text.contains('/')
    }
}

/// A text up to the first `c`, or the whole of it where there is none.
pub open spec fn up_to(s: Seq<char>, c: char) -> Seq<char> {
    match position(s, c) {
        Some(i) => s.take(i as int),
        None => s,
    }
}

/// What `http::Uri` makes of a text: its scheme and its authority, or the message of the error with
/// which it refuses it.
pub uninterp spec fn uri_parts(text: Seq<char>) -> Result<
    (Option<Seq<char>>, Option<Seq<char>>),
    Seq<char>,
>;

/// Whether the parts are those of the text, where there are any.
pub open spec fn parts_of(
    text: Seq<char>,
    r: Result<(Option<String>, Option<String>), String>,
) -> bool {
    r matches Ok(p) ==> (UriView {
        text,
        scheme: opt_chars(p.0),
        authority: opt_chars(p.1),
    }).wf()
}

/// `Uri::from_str` reads a URI; `scheme_str` and `authority` take it apart. The scheme and the
/// authority stand in the text where [`UriView::wf`] says. Which texts are refused, and with which
/// words, is not stated.
#[verifier::external_body]
fn parse(text: &str) -> (r: Result<(Option<String>, Option<String>), String>)
    ensures
        uri_parts(text@) == match r {
            Ok(p) => Ok((opt_chars(p.0), opt_chars(p.1))),
            Err(m) => Err(m@),
        },
        parts_of(text@, r),
{
    match text.parse::<http::Uri>() {
        Ok(u) => Ok((
            u.scheme_str().map(|s| s.to_owned()),
            u.authority().map(|a| a.as_str().to_owned()),
        )),
        Err(e) => Err(e.to_string()),
    }
}

/// The URI with the given text, or why there is none.
pub open spec fn uri_of(text: Seq<char>) -> Result<UriView, (ErrorKind, Seq<char>)> {
    match uri_parts(text) {
        Ok(p) => Ok(UriView { text, scheme: p.0, authority: p.1 }),
        Err(m) => Err((ErrorKind::InvalidUri, m)),
    }
}

impl Uri {
    /// Reads a URI.
    pub fn from_text(text: &str) -> (r: Result<Uri, OxiHttpError>)
        ensures
            uri_of(text@) == match r {
                Ok(u) => Ok(u@),
                Err(e) => Err(e@),
            },
            r matches Ok(u) ==> u@.wf(),
    {
        match parse(text) {
            Ok((scheme, authority)) => Ok(Uri { text: text.to_owned(), scheme, authority }),
            Err(m) => Err(OxiHttpError::InvalidUri(m)),
        }
    }

    /// A second value for the same URI.
    pub fn copied(&self) -> (r: Uri)
        ensures
            r@ == self@,
    {
        Uri {
            text: self.text.clone(),
            scheme: match &self.scheme {
                Some(s) => Some(s.clone()),
                None => None,
            },
            authority: match &self.authority {
                Some(s) => Some(s.clone()),
                None => None,
            },
        }
    }
}

// ---------------------------------------------------------------------------
// Dot segments
// ---------------------------------------------------------------------------

/// Whether a segment of a path is `.` or `..`.
pub open spec fn dots(segment: Seq<char>) -> bool {
    segment == "."@ || segment == ".."@
}

/// The segments that are left once every `.` is left out and every `..` has taken away the segment
/// before it.
pub open spec fn settled_segments(segments: Seq<Seq<char>>) -> Seq<Seq<char>>
    decreases segments.len(),
{
    if segments.len() == 0 {
        segments
    } else {
        let before = settled_segments(segments.drop_last());
        if segments.last() == ".."@ {
            if before.len() == 0 {
                before
            } else {
                before.drop_last()
            }
        } else if segments.last() == "."@ {
            before
        } else {
            before.push(segments.last())
        }
    }
}

/// The segments of a path that starts with `/`.
pub open spec fn segments_of(path: Seq<char>) -> Seq<Seq<char>> {
    pieces(path.skip(1), '/')
}

/// The segments of a path without dot segments; a `.` or `..` at the end leaves a `/` there.
pub open spec fn kept_segments(path: Seq<char>) -> Seq<Seq<char>> {
    let all = segments_of(path);
    if dots(all.last()) {
        settled_segments(all).push(Seq::empty())
    } else {
        settled_segments(all)
    }
}

/// A path that is empty or starts with `/`, without dot segments (RFC 3986 §5.2.4).
pub open spec fn settled_path(path: Seq<char>) -> Seq<char> {
    if path.len() == 0 {
        path
    } else {
        "/"@ + joined(kept_segments(path), "/"@)
    }
}

/// What precedes the query and the fragment.
pub open spec fn leading_path(s: Seq<char>) -> Seq<char> {
    up_to(up_to(s, '#'), '?')
}

/// A path with its query and its fragment, the path without dot segments.
pub open spec fn settled(s: Seq<char>) -> Seq<char> {
    settled_path(leading_path(s)) + s.skip(leading_path(s).len() as int)
}

/// Leaves out every `.` and lets every `..` take away the segment before it.
fn settle_segments<'a>(segments: &Vec<&'a [char]>) -> (r: Vec<&'a [char]>)
    ensures
        slice_texts(r@) == settled_segments(slice_texts(segments@)),
{
    let ghost all = slice_texts(segments@);
    let mut out: Vec<&'a [char]> = Vec::new();
    assert(slice_texts(out@) =~= settled_segments(all.take(0)));
    let mut i: usize = 0;
    while i < segments.len()
        invariant
            i <= segments@.len(),
            all == slice_texts(segments@),
            slice_texts(out@) == settled_segments(all.take(i as int)),
        decreases segments@.len() - i,
    {
        let segment = segments[i];
        proof {
            reveal_strlit(".");
            reveal_strlit("..");
            assert(all.take(i + 1).drop_last() =~= all.take(i as int));
            assert(all.take(i + 1).last() == segment@);
        }
        let ghost before = out@;
        if is_text(segment, "..") {
            if out.len() > 0 {
                out.pop();
                assert(slice_texts(out@) =~= slice_texts(before).drop_last());
            }
        } else if !is_text(segment, ".") {
            out.push(segment);
            assert(slice_texts(out@) =~= slice_texts(before).push(segment@));
        }
        i += 1;
    }
    assert(all.take(i as int) =~= all);
    out
}

/// Appends a path with its query and its fragment, the path without dot segments.
fn push_settled(full: &mut String, s: &[char])
    ensures
        final(full)@ == old(full)@ + settled(s@),
{
    let path = cut(cut(s, '#'), '?');
    let n: usize = path.len();
    let ghost before = full@;
    proof {
        lemma_position(s@, '#');
        lemma_position(up_to(s@, '#'), '?');
    }
    if n > 0 {
        let names = slice_subrange(path, 1, n);
        assert(names@ =~= path@.skip(1));
        let segments = split(names, '/');
        let mut kept = settle_segments(&segments);
        let last = segments[segments.len() - 1];
        assert(slice_texts(segments@).last() == last@);
        if is_text(last, ".") || is_text(last, "..") {
            let none = slice_subrange(path, 0, 0);
            let ghost settled_so_far = kept@;
            kept.push(none);
            assert(none@ =~= Seq::<char>::empty());
            assert(slice_texts(kept@) =~= slice_texts(settled_so_far).push(Seq::empty()));
        }
        let ghost all = slice_texts(kept@);
        assert(all == kept_segments(path@));
        full.append("/");
        let mut i: usize = 0;
        assert(joined(all.take(0), "/"@) =~= Seq::<char>::empty());
        assert(full@ =~= before + ("/"@ + joined(all.take(0), "/"@)));
        while i < kept.len()
            invariant
                i <= kept@.len(),
                all == slice_texts(kept@),
                full@ == before + ("/"@ + joined(all.take(i as int), "/"@)),
            decreases kept@.len() - i,
        {
            if i > 0 {
                full.append("/");
            }
            push_chars(full, kept[i]);
            proof {
                assert(all.take(i + 1).drop_last() =~= all.take(i as int));
                assert(all.take(i + 1).last() == kept@[i as int]@);
                assert(full@ =~= before + ("/"@ + joined(all.take(i + 1), "/"@)));
            }
            i += 1;
        }
        assert(all.take(i as int) =~= all);
    }
    assert(full@ =~= before + settled_path(path@));
    let m: usize = s.len();
    let suffix = slice_subrange(s, n, m);
    assert(suffix@ =~= s@.skip(n as int));
    push_chars(full, suffix);
    assert(full@ =~= before + settled(s@));
}

/// A path without dot segments has none: no segment of it is `.` or `..`.
pub proof fn law_no_dot_segments(path: Seq<char>)
    requires
        path.len() > 0,
    ensures
        segments_of(settled_path(path)) == kept_segments(path),
        forall|i: int|
            0 <= i < segments_of(settled_path(path)).len() ==> !dots(
                #[trigger] segments_of(settled_path(path))[i],
            ),
{
    let all = segments_of(path);
    let kept = kept_segments(path);
    lemma_pieces_parts(path.skip(1), '/');
    lemma_settled_segments(all);
    reveal_strlit("/");
    reveal_strlit(".");
    reveal_strlit("..");
    assert(!Seq::<char>::empty().contains('/'));
    assert forall|i: int| 0 <= i < kept.len() implies !dots(#[trigger] kept[i])
        && !kept[i].contains('/') by {
        if i < settled_segments(all).len() {
            assert(kept[i] == settled_segments(all)[i]);
        }
    }
    assert(kept.len() > 0) by {
        if !dots(all.last()) {
            assert(settled_segments(all).last() == all.last());
        }
    }
    lemma_pieces_joined(kept, '/');
    assert("/"@ =~= seq!['/']);
    assert(settled_path(path).skip(1) =~= joined(kept, "/"@));
}

/// A path that has no dot segments stays as it is.
pub proof fn law_plain_path_kept(path: Seq<char>)
    requires
        path.len() > 0 ==> path[0] == '/',
        forall|i: int| 0 <= i < segments_of(path).len() ==> !dots(#[trigger] segments_of(path)[i]),
    ensures
        settled_path(path) == path,
{
    if path.len() > 0 {
        let all = segments_of(path);
        lemma_pieces_parts(path.skip(1), '/');
        lemma_nothing_to_settle(all);
        lemma_joined_pieces(path.skip(1), '/');
        reveal_strlit("/");
        assert("/"@ =~= seq!['/']);
        assert(!dots(all[all.len() - 1]));
        assert(settled_path(path) =~= path);
    }
}

/// Leaving out dot segments twice is as leaving them out once.
pub proof fn law_settling_is_final(path: Seq<char>)
    ensures
        settled_path(settled_path(path)) == settled_path(path),
{
    if path.len() > 0 {
        law_no_dot_segments(path);
        reveal_strlit("/");
        assert(settled_path(path)[0] == '/');
        law_plain_path_kept(settled_path(path));
    }
}

/// What is left of segments are some of them, without dot segments.
proof fn lemma_settled_segments(segments: Seq<Seq<char>>)
    ensures
        forall|i: int|
            0 <= i < settled_segments(segments).len() ==> !dots(
                #[trigger] settled_segments(segments)[i],
            ) && segments.contains(settled_segments(segments)[i]),
    decreases segments.len(),
{
    if segments.len() > 0 {
        let less = segments.drop_last();
        lemma_settled_segments(less);
        let r = settled_segments(segments);
        assert forall|i: int| 0 <= i < r.len() implies !dots(#[trigger] r[i])
            && segments.contains(r[i]) by {
            if i < settled_segments(less).len() {
                assert(r[i] == settled_segments(less)[i]);
                let j = choose|j: int| 0 <= j < less.len() && less[j] == r[i];
                assert(segments[j] == r[i]);
            } else {
                assert(segments[segments.len() - 1] == r[i]);
            }
        }
    }
}

/// Segments of which none is a dot segment stay.
proof fn lemma_nothing_to_settle(segments: Seq<Seq<char>>)
    requires
        forall|i: int| 0 <= i < segments.len() ==> !dots(#[trigger] segments[i]),
    ensures
        settled_segments(segments) == segments,
    decreases segments.len(),
{
    if segments.len() > 0 {
        let less = segments.drop_last();
        assert forall|i: int| 0 <= i < less.len() implies !dots(#[trigger] less[i]) by {
            assert(less[i] == segments[i]);
        }
        lemma_nothing_to_settle(less);
        assert(!dots(segments[segments.len() - 1]));
        assert(settled_segments(segments) =~= segments);
    }
}

// ---------------------------------------------------------------------------
// Redirects
// ---------------------------------------------------------------------------

/// The scheme and the authority that a relative `Location` keeps, with what separates them.
pub open spec fn origin(base: UriView) -> Seq<char> {
    kept_scheme(base) + "://"@ + kept_authority(base)
}

/// The scheme that a relative `Location` keeps.
pub open spec fn kept_scheme(base: UriView) -> Seq<char> {
    match base.scheme {
        Some(s) => s,
        None => "http"@,
    }
}

/// The authority that a relative `Location` keeps.
pub open spec fn kept_authority(base: UriView) -> Seq<char> {
    match base.authority {
        Some(a) => a,
        None => "localhost"@,
    }
}

/// A path up to and with its last `/`.
pub open spec fn directory(path: Seq<char>) -> Seq<char> {
    match last_position(path, '/') {
        Some(i) => path.take(i as int + 1),
        None => "/"@,
    }
}

/// Whether a `Location` has an authority of its own, though no scheme.
pub open spec fn names_host(location: Seq<char>) -> bool {
    location.len() >= 2 && location[0] == '/' && location[1] == '/'
}

/// What a relative `Location` puts behind the scheme and the authority (RFC 3986 §5.2): one with a
/// leading `/` is the path; one with a leading `?` keeps the path; an empty one or one with a
/// leading `#` keeps the path and the query; any other replaces what follows the last `/` of the
/// path. A path that the `Location` gives or changes is left without dot segments.
pub open spec fn relative_path(base: UriView, location: Seq<char>) -> Seq<char> {
    if location.len() == 0 || location[0] == '#' {
        base.path_and_query() + location
    } else if location[0] == '/' {
        settled(location)
    } else if location[0] == '?' {
        base.path() + location
    } else {
        settled(directory(base.path()) + location)
    }
}

/// The authority that a `Location` with two leading slashes has.
pub open spec fn named_authority(location: Seq<char>) -> Seq<char> {
    up_to(leading_path(location.skip(2)), '/')
}

/// What follows the authority of a `Location` with two leading slashes.
pub open spec fn named_path(location: Seq<char>) -> Seq<char> {
    location.skip(2).skip(named_authority(location).len() as int)
}

/// The text that a `Location` without a scheme stands for; one with two leading slashes keeps only
/// the scheme of the base.
pub open spec fn relative_target(base: UriView, location: Seq<char>) -> Seq<char> {
    if names_host(location) {
        kept_scheme(base) + "://"@ + named_authority(location) + settled(named_path(location))
    } else {
        origin(base) + relative_path(base, location)
    }
}

/// A text up to the first `c`, or the whole of it where there is none.
fn cut<'a>(s: &'a [char], c: char) -> (r: &'a [char])
    ensures
        r@ == up_to(s@, c),
{
    match find(s, c) {
        Some(i) => {
            let r = slice_subrange(s, 0, i);
            assert(r@ =~= s@.take(i as int));
            r
        },
        None => s,
    }
}

/// How many characters a text has with others after it, but no more than `max`.
fn bounded_len(s: &Option<String>, extra: usize, max: usize) -> (r: Option<usize>)
    requires
        extra <= 3,
    ensures
        ({
            let n = match opt_chars(*s) {
                Some(t) => t.len() + extra,
                None => 0,
            };
            r == if n <= max {
                Some(n as usize)
            } else {
                None
            }
        }),
{
    match s {
        Some(t) => {
            let n: usize = t.as_str().unicode_len();
            if n > max || extra > max - n {
                None
            } else {
                Some(n + extra)
            }
        },
        None => Some(0),
    }
}

/// What follows the scheme and the authority in the text of a URI.
fn rest_of<'a>(u: &Uri, text: &'a [char]) -> (r: &'a [char])
    requires
        text@ == u.text@,
    ensures
        r@ == u@.rest(),
{
    let n: usize = text.len();
    let skipped: Option<usize> = match bounded_len(&u.scheme, 3, n) {
        Some(a) => match bounded_len(&u.authority, 0, n - a) {
            Some(b) => Some(a + b),
            None => None,
        },
        None => None,
    };
    match skipped {
        Some(k) => {
            let r = slice_subrange(text, k, n);
            assert(r@ =~= text@.skip(k as int));
            r
        },
        None => {
            let r = slice_subrange(text, n, n);
            assert(r@ =~= Seq::<char>::empty());
            r
        },
    }
}

/// The path and the query in the text of a URI.
fn path_and_query_of<'a>(u: &Uri, text: &'a [char]) -> (r: &'a [char])
    requires
        text@ == u.text@,
    ensures
        r@ == u@.path_and_query(),
{
    let rest = rest_of(u, text);
    if rest.len() > 0 && rest[0] != '/' && rest[0] != '?' && rest[0] != '#' {
        let r = slice_subrange(rest, 0, 0);
        assert(r@ =~= Seq::<char>::empty());
        r
    } else {
        cut(rest, '#')
    }
}

/// Writes the text that a `Location` without a scheme stands for.
pub fn join_location(base: &Uri, location: &str) -> (r: String)
    ensures
        r@ == relative_target(base@, location@),
{
    let mut full = match &base.scheme {
        Some(s) => s.clone(),
        None => "http".to_owned(),
    };
    let loc = chars_of(location);
    if loc.len() >= 2 && loc[0] == '/' && loc[1] == '/' {
        full.append("://");
        let n: usize = loc.len();
        let tail = slice_subrange(loc.as_slice(), 2, n);
        assert(tail@ =~= location@.skip(2));
        let authority = cut(cut(cut(tail, '#'), '?'), '/');
        proof {
            lemma_position(tail@, '#');
            lemma_position(up_to(tail@, '#'), '?');
            lemma_position(leading_path(tail@), '/');
        }
        push_chars(&mut full, authority);
        let path = slice_subrange(tail, authority.len(), tail.len());
        assert(path@ =~= named_path(location@));
        push_settled(&mut full, path);
        return full;
    }
    full.append("://");
    match &base.authority {
        Some(a) => full.append(a.as_str()),
        None => full.append("localhost"),
    }
    assert(full@ == origin(base@));
    let text = chars_of(base.text.as_str());
    let path_and_query = path_and_query_of(base, text.as_slice());
    let ghost before = full@;
    if loc.len() == 0 || loc[0] == '#' {
        push_chars(&mut full, path_and_query);
        full.append(location);
    } else if loc[0] == '?' {
        push_chars(&mut full, cut(path_and_query, '?'));
        full.append(location);
    } else if loc[0] == '/' {
        push_settled(&mut full, loc.as_slice());
    } else {
        let mut merged = String::new();
        let path = cut(path_and_query, '?');
        match rfind(path, '/') {
            Some(i) => {
                assert(i < path.len());
                let dir = slice_subrange(path, 0, i + 1);
                assert(dir@ =~= path@.take(i + 1));
                push_chars(&mut merged, dir);
            },
            None => merged.append("/"),
        }
        merged.append(location);
        assert(merged@ =~= directory(base@.path()) + location@);
        let merged = chars_of(merged.as_str());
        push_settled(&mut full, merged.as_slice());
    }
    assert(full@ =~= before + relative_path(base@, location@));
    full
}

/// Whether a `Location` is a URI with a scheme, and so stands by itself.
pub open spec fn absolute(location: Seq<char>) -> bool {
    uri_of(location) matches Ok(u) && u.scheme is Some
}

/// Where a redirect leads: an absolute `Location` by itself, any other relative to the base.
pub open spec fn redirect_uri(base: UriView, location: Seq<char>) -> Result<
    UriView,
    (ErrorKind, Seq<char>),
> {
    if absolute(location) {
        uri_of(location)
    } else {
        uri_of(relative_target(base, location))
    }
}

/// Whether a `Location` that names no host left the authority and the scheme as they were.
pub open spec fn stays(base: UriView, location: Seq<char>, u: UriView) -> bool {
    base.wf() && !absolute(location) && !names_host(location) ==> {
        &&& u.authority == Some(kept_authority(base))
        &&& u.scheme is Some
        &&& lower(u.scheme->0) == lower(kept_scheme(base))
    }
}

/// Says where a redirect leads.
pub fn resolve_redirect_uri(base: &Uri, location: &str) -> (r: Result<Uri, OxiHttpError>)
    ensures
        redirect_uri(base@, location@) == match r {
            Ok(u) => Ok(u@),
            Err(e) => Err(e@),
        },
        r matches Ok(u) ==> u@.wf() && stays(base@, location@, u@),
{
    if let Ok(uri) = Uri::from_text(location) {
        if uri.scheme.is_some() {
            return Ok(uri);
        }
    }
    let full = join_location(base, location);
    let r = Uri::from_text(full.as_str());
    proof {
        if let Ok(u) = &r {
            if base@.wf() && !names_host(location@) {
                law_relative_keeps_authority(base@, location@, u@);
            }
        }
    }
    r
}

/// A `Location` without a scheme that does not start with `//` never leads to another authority,
/// nor to another scheme. A base without an authority stands for `localhost`.
pub proof fn law_relative_keeps_authority(base: UriView, location: Seq<char>, u: UriView)
    requires
        base.wf(),
        !absolute(location),
        !names_host(location),
        redirect_uri(base, location) == Ok::<UriView, (ErrorKind, Seq<char>)>(u),
        u.wf(),
    ensures
        base.authority is Some ==> u.authority == base.authority,
        u.authority == Some(kept_authority(base)),
        u.scheme is Some,
        lower(u.scheme->0) == lower(kept_scheme(base)),
{
    let s = kept_scheme(base);
    let a = kept_authority(base);
    let p = relative_path(base, location);
    let t = relative_target(base, location);
    assert(t == s + "://"@ + a + p);
    reveal_strlit("://");
    reveal_strlit("http");
    assert(!s.contains(':') && !s.contains('/')) by {
        if base.scheme is None {
            assert(forall|i: int| 0 <= i < 4 ==> #[trigger] "http"@[i] != ':' && "http"@[i] != '/');
        }
    }
    assert(within_authority(a)) by {
        reveal_strlit("localhost");
    }
    lemma_relative_path(base, location);
    let n = s.len() as int;
    assert(t[n] == ':' && t[n + 1] == '/');
    assert(t.contains('/'));
    if u.scheme is None {
        assert(t[0] == '/');
        if n > 0 {
            assert(t[0] == s[0] && s.contains(s[0]));
        }
    }
    let s2 = u.scheme->0;
    let a2 = u.authority->0;
    let m = s2.len() as int;
    lemma_no_colon(t.take(m), s2);
    assert(t.skip(m)[0] == ':');
    if m < n {
        assert(t[m] == s[m] && s.contains(s[m]));
    } else if n < m {
        assert(t.take(m)[n] == ':' && t.take(m).contains(t.take(m)[n]));
    }
    assert(t.take(m) =~= s);
    let x = t.skip(n + 3);
    assert(x =~= a + p);
    assert(x =~= t.skip(m).skip(3));
    assert(("://"@ + a2 + u.rest()).skip(3) =~= a2 + u.rest());
    lemma_authority_end(a, p, a2, u.rest());
}

/// A text that is another one in other letters has no colon where that one has none.
proof fn lemma_no_colon(t: Seq<char>, s: Seq<char>)
    requires
        lower(t) == lower(s),
        !s.contains(':'),
    ensures
        !t.contains(':'),
        t.len() == s.len(),
{
    assert(lower(t).len() == t.len() && lower(s).len() == s.len());
    assert forall|i: int| 0 <= i < t.len() implies t[i] != ':' by {
        assert(lower(t)[i] == lower_char(t[i]));
        assert(lower(s)[i] == lower_char(s[i]));
        assert(s.contains(s[i]));
    }
}

/// An authority is known from what it is followed by.
proof fn lemma_authority_end(a: Seq<char>, p: Seq<char>, b: Seq<char>, q: Seq<char>)
    requires
        within_authority(a),
        within_authority(b),
        after_authority(p),
        after_authority(q),
        a + p == b + q,
    ensures
        a == b,
{
    let x = a + p;
    if a.len() < b.len() {
        assert(x[a.len() as int] == p[0]);
        assert(x[a.len() as int] == b[a.len() as int]);
    } else if b.len() < a.len() {
        assert(x[b.len() as int] == q[0]);
        assert(x[b.len() as int] == a[b.len() as int]);
    }
    assert(x.take(a.len() as int) =~= a);
    assert(x.take(b.len() as int) =~= b);
}

/// What a relative `Location` puts behind the authority does not continue it.
proof fn lemma_relative_path(base: UriView, location: Seq<char>)
    requires
        !names_host(location),
    ensures
        after_authority(relative_path(base, location)),
{
    let rest = base.rest();
    let pq = base.path_and_query();
    let path = base.path();
    lemma_position(rest, '#');
    lemma_position(pq, '?');
    lemma_last_position_in(path);
    reveal_strlit("/");
    if pq.len() > 0 {
        assert(pq[0] == rest[0]);
    }
    if path.len() > 0 {
        assert(path[0] == pq[0]);
    }
    lemma_settled_start(location);
    lemma_settled_start(directory(path) + location);
}

/// What starts with `/` still does so without dot segments.
proof fn lemma_settled_start(s: Seq<char>)
    ensures
        s.len() > 0 && s[0] == '/' ==> settled(s).len() > 0 && settled(s)[0] == '/',
{
    lemma_position(s, '#');
    lemma_position(up_to(s, '#'), '?');
    reveal_strlit("/");
}

/// The last `/` of a text stands in it.
proof fn lemma_last_position_in(s: Seq<char>)
    ensures
        last_position(s, '/') matches Some(i) ==> i < s.len(),
    decreases s.len(),
{
    if s.len() > 0 {
        lemma_last_position_in(s.drop_last());
    }
}

} // verus!
