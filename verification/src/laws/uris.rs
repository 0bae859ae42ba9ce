//! URIs, and where a `Location` leads.

use vstd::prelude::*;

use crate::error::{ErrorKind, OxiHttpError};
use crate::text::{
    last_position, lemma_pieces_cons, lemma_pieces_single, lemma_position, lemma_position_at,
    lemma_position_none, pieces, position, to_lower,
};
use crate::uri::{
    directory, dots, join_location, kept_segments, law_plain_path_kept, leading_path,
    named_authority, named_path, relative_path, resolve_redirect_uri, segments_of, settled,
    settled_segments, up_to, Uri,
};

verus! {

/// Whether a text has no `/`, `?` or `#`.
pub open spec fn one_part(s: Seq<char>) -> bool {
    forall|i: int| 0 <= i < s.len() ==> #[trigger] s[i] != '/' && s[i] != '?' && s[i] != '#'
}

/// Whether a text is empty or starts with `/`, and has neither a query nor a fragment.
pub open spec fn is_path(s: Seq<char>) -> bool {
    &&& s.len() > 0 ==> s[0] == '/'
    &&& forall|i: int| 0 <= i < s.len() ==> #[trigger] s[i] != '?' && s[i] != '#'
}

/// Whether a text is empty or starts a query or a fragment.
pub open spec fn is_tail(s: Seq<char>) -> bool {
    s.len() > 0 ==> s[0] == '?' || s[0] == '#'
}

/// Whether one or two dots stand alone behind a `/`.
pub open spec fn dots_at(p: Seq<char>, i: int) -> bool {
    &&& 0 <= i
    &&& i + 1 < p.len()
    &&& p[i] == '/'
    &&& p[i + 1] == '.'
    &&& i + 2 == p.len() || p[i + 2] == '/' || (p[i + 2] == '.' && (i + 3 == p.len() || p[i + 3]
        == '/'))
}

/// Whether a path has dots that stand alone between slashes.
pub open spec fn has_dots(p: Seq<char>) -> bool {
    exists|i: int| #[trigger] dots_at(p, i)
}

/// The scheme of a URI, or `http`.
pub open spec fn scheme_text(u: Uri) -> Seq<char> {
    match u.scheme {
        Some(s) => s@,
        None => "http"@,
    }
}

/// The authority of a URI, or `localhost`.
pub open spec fn authority_text(u: Uri) -> Seq<char> {
    match u.authority {
        Some(a) => a@,
        None => "localhost"@,
    }
}

/// Whether the text of a URI goes on with the path and the query after its scheme and authority.
/// A text that is no path there has neither.
pub open spec fn goes_on(
    u: Uri,
    front: Seq<char>,
    path: Seq<char>,
    query: Seq<char>,
    end: Seq<char>,
) -> bool {
    &&& u.text@ == front + path + query + end
    &&& front.len() == (match u.scheme {
        Some(s) => s@.len() + 3,
        None => 0,
    }) + (match u.authority {
        Some(a) => a@.len(),
        None => 0,
    })
    &&& is_path(path)
    &&& query.len() > 0 ==> query[0] == '?'
    &&& forall|i: int| 0 <= i < query.len() ==> #[trigger] query[i] != '#'
    &&& end.len() > 0 && end[0] != '#' ==> path.len() == 0 && query.len() == 0 && end[0] != '/'
        && end[0] != '?'
}

/// Whether a path ends with its last `/`, or is a lone `/` for a path without one.
pub open spec fn is_directory(path: Seq<char>, dir: Seq<char>) -> bool {
    if path.contains('/') {
        &&& dir.len() > 0
        &&& dir.is_prefix_of(path)
        &&& dir.last() == '/'
        &&& forall|i: int| dir.len() <= i < path.len() ==> #[trigger] path[i] != '/'
    } else {
        dir == "/"@
    }
}

// ---------------------------------------------------------------------------
// Reading
// ---------------------------------------------------------------------------

/// A URI keeps the text that it was read from. What is no URI is refused as such, and a text is
/// read the same way each time.
pub proof fn law_uri_read(
    text: &str,
    r: Result<Uri, OxiHttpError>,
    again: Result<Uri, OxiHttpError>,
)
    requires
        call_ensures(Uri::from_text, (text,), r),
        call_ensures(Uri::from_text, (text,), again),
    ensures
        r matches Ok(u) ==> u.text@ == text@,
        r matches Err(e) ==> e@.0 == ErrorKind::InvalidUri,
        r matches Ok(u) ==> (again matches Ok(v) && v@ == u@),
        r matches Err(e) ==> (again matches Err(f) && f@ == e@),
{
}

/// The scheme of a URI stands in front of its text, in any case of letters. `://`, the authority
/// and what ends it follow.
pub proof fn law_uri_parts(
    text: &str,
    u: Uri,
    scheme: &str,
    authority: &str,
    head: &str,
    small: (String, String),
)
    requires
        call_ensures(Uri::from_text, (text,), Ok::<Uri, OxiHttpError>(u)),
        u.scheme matches Some(s) && s@ == scheme@,
        u.authority matches Some(a) && a@ == authority@,
        head@ == text@.take(scheme@.len() as int),
        call_ensures(to_lower, (head,), small.0),
        call_ensures(to_lower, (scheme,), small.1),
    ensures
        small.0@ == small.1@,
        one_part(authority@),
        ({
            let n = scheme@.len() as int;
            let end = n + 3 + authority@.len();
            &&& end <= text@.len()
            &&& text@.subrange(n, n + 3) == "://"@
            &&& text@.subrange(n + 3, end) == authority@
            &&& end < text@.len() ==> text@[end] == '/' || text@[end] == '?' || text@[end] == '#'
        }),
{
    reveal_strlit("://");
    let n = scheme@.len() as int;
    let t = text@.skip(n);
    let rest = u@.rest();
    assert(t == "://"@ + authority@ + rest);
    assert(text@.subrange(n, n + 3) =~= t.subrange(0, 3));
    assert(text@.subrange(n + 3, n + 3 + authority@.len()) =~= t.subrange(
        3,
        3 + authority@.len() as int,
    ));
    assert(t.subrange(0, 3) =~= "://"@);
    assert(t.subrange(3, 3 + authority@.len() as int) =~= authority@);
}

/// A URI with a scheme has an authority; one without is a path or has no `/`.
pub proof fn law_uri_kinds(text: &str, u: Uri)
    requires
        call_ensures(Uri::from_text, (text,), Ok::<Uri, OxiHttpError>(u)),
    ensures
        u.scheme is Some ==> u.authority is Some,
        u.scheme is None && text@.contains('/') ==> text@[0] == '/',
{
}

/// A copy says what the URI says.
pub proof fn law_uri_copied(u: Uri, r: Uri)
    requires
        call_ensures(Uri::copied, (&u,), r),
    ensures
        r.text@ == u.text@,
        r.scheme is Some <==> u.scheme is Some,
        r.scheme matches Some(s) ==> s@ == u.scheme->0@,
        r.authority is Some <==> u.authority is Some,
        r.authority matches Some(a) ==> a@ == u.authority->0@,
{
}

// ---------------------------------------------------------------------------
// Redirects
// ---------------------------------------------------------------------------

/// A `Location` that is a URI with a scheme stands for itself; any other is the URI with the text
/// that it makes with the base, or refused as that text is.
pub proof fn law_redirect(
    base: Uri,
    location: &str,
    itself: Result<Uri, OxiHttpError>,
    joined: String,
    whole: &str,
    made: Result<Uri, OxiHttpError>,
    r: Result<Uri, OxiHttpError>,
)
    requires
        call_ensures(resolve_redirect_uri, (&base, location), r),
        call_ensures(Uri::from_text, (location,), itself),
        call_ensures(join_location, (&base, location), joined),
        whole@ == joined@,
        call_ensures(Uri::from_text, (whole,), made),
    ensures
        itself matches Ok(u) ==> u.scheme is Some ==> (r matches Ok(v) && v@ == u@),
        !(itself matches Ok(u) && u.scheme is Some) ==> match made {
            Ok(u) => r matches Ok(v) && v@ == u@,
            Err(e) => r matches Err(f) && f@ == e@,
        },
{
}

/// An empty `Location` or a fragment keeps the path and the query of the base; a query keeps its
/// path.
pub proof fn law_path_kept(
    base: Uri,
    front: Seq<char>,
    path: Seq<char>,
    query: Seq<char>,
    end: Seq<char>,
    location: &str,
    r: String,
)
    requires
        goes_on(base, front, path, query, end),
        call_ensures(join_location, (&base, location), r),
    ensures
        is_tail(location@) ==> r@ == scheme_text(base) + "://"@ + authority_text(base) + path + (
        if location@.len() > 0 && location@[0] == '?' {
            location@
        } else {
            query + location@
        }),
{
    lemma_goes_on(base, front, path, query, end);
    if is_tail(location@) {
        assert(r@ == scheme_text(base) + "://"@ + authority_text(base) + relative_path(
            base@,
            location@,
        ));
        assert(r@ =~= scheme_text(base) + "://"@ + authority_text(base) + path + (if location@.len()
            > 0 && location@[0] == '?' {
            location@
        } else {
            query + location@
        }));
    }
}

/// A `Location` with a path of its own leads where one leads that names the authority of the base
/// as well.
pub proof fn law_own_path(base: Uri, location: &str, full: &str, r: String, other: String)
    requires
        one_part(authority_text(base)),
        call_ensures(join_location, (&base, location), r),
        location@.len() > 0 && location@[0] == '/',
        location@.len() > 1 ==> location@[1] != '/',
        full@ == "//"@ + authority_text(base) + location@,
        call_ensures(join_location, (&base, full), other),
    ensures
        r@ == other@,
{
    lemma_named(authority_text(base), location@);
    reveal_strlit("//");
    assert(r@ =~= other@);
}

/// Any other `Location` takes the place of what follows the last `/` of the path of the base.
pub proof fn law_beside(
    base: Uri,
    front: Seq<char>,
    path: Seq<char>,
    query: Seq<char>,
    end: Seq<char>,
    dir: Seq<char>,
    location: &str,
    full: &str,
    r: String,
    other: String,
)
    requires
        goes_on(base, front, path, query, end),
        is_directory(path, dir),
        one_part(authority_text(base)),
        call_ensures(join_location, (&base, location), r),
        location@.len() > 0,
        location@[0] != '/' && location@[0] != '?' && location@[0] != '#',
        full@ == "//"@ + authority_text(base) + dir + location@,
        call_ensures(join_location, (&base, full), other),
    ensures
        r@ == other@,
{
    lemma_goes_on(base, front, path, query, end);
    lemma_directory(path, dir);
    reveal_strlit("/");
    reveal_strlit("//");
    let p = dir + location@;
    assert(full@ =~= "//"@ + authority_text(base) + p);
    lemma_named(authority_text(base), p);
    assert(r@ =~= other@);
}

/// A `Location` that names an authority keeps the scheme of the base alone, and stands as it is
/// where its path has no dots that stand alone.
pub proof fn law_named(
    base: Uri,
    authority: Seq<char>,
    path: Seq<char>,
    tail: Seq<char>,
    location: &str,
    r: String,
)
    requires
        one_part(authority),
        is_path(path),
        is_tail(tail),
        !has_dots(path),
        location@ == "//"@ + authority + path + tail,
        call_ensures(join_location, (&base, location), r),
    ensures
        r@ == scheme_text(base) + ":"@ + location@,
{
    reveal_strlit("//");
    reveal_strlit("://");
    reveal_strlit(":");
    assert(location@ =~= "//"@ + authority + (path + tail));
    lemma_named(authority, path + tail);
    lemma_leading(path, tail);
    if path.len() > 0 {
        lemma_no_dots(path);
        law_plain_path_kept(path);
    }
    assert((path + tail).skip(path.len() as int) =~= tail);
    assert(settled(path + tail) =~= path + tail);
    assert(r@ =~= scheme_text(base) + ":"@ + location@);
}

/// A lone dot between slashes changes nothing.
pub proof fn law_dot(
    base: Uri,
    authority: Seq<char>,
    before: Seq<char>,
    after: Seq<char>,
    with: &str,
    without: &str,
    r: String,
    other: String,
)
    requires
        one_part(authority),
        is_path(before),
        with@ == "//"@ + authority + before + "/./"@ + after,
        without@ == "//"@ + authority + before + "/"@ + after,
        call_ensures(join_location, (&base, with), r),
        call_ensures(join_location, (&base, without), other),
    ensures
        r@ == other@,
{
    reveal_strlit("//");
    reveal_strlit("/./");
    reveal_strlit("/");
    reveal_strlit(".");
    reveal_strlit("..");
    let a = before + "/./"@ + after;
    let b = before + "/"@ + after;
    assert(with@ =~= "//"@ + authority + a);
    assert(without@ =~= "//"@ + authority + b);
    lemma_named(authority, a);
    lemma_named(authority, b);
    let p = leading_path(after);
    let h = heads(before);
    lemma_segments(before, p);
    lemma_heads_more(before, "."@);
    let c = before + "/"@ + "."@;
    lemma_segments(c, p);
    assert(settled_segments(h.push("."@)) == settled_segments(h)) by {
        assert(h.push("."@).drop_last() =~= h);
        assert("."@.len() != ".."@.len());
    }
    lemma_same_segments(h.push("."@), h, pieces(p, '/'));
    assert(c + "/"@ + p =~= before + "/./"@ + p);
    assert(a =~= (before + "/./"@) + after);
    lemma_settled(before + "/./"@, before + "/"@, after);
}

/// Two dots between slashes take away the part before them.
pub proof fn law_two_dots(
    base: Uri,
    authority: Seq<char>,
    before: Seq<char>,
    part: Seq<char>,
    after: Seq<char>,
    with: &str,
    without: &str,
    r: String,
    other: String,
)
    requires
        one_part(authority),
        is_path(before),
        one_part(part),
        part != "."@,
        part != ".."@,
        with@ == "//"@ + authority + before + "/"@ + part + "/../"@ + after,
        without@ == "//"@ + authority + before + "/"@ + after,
        call_ensures(join_location, (&base, with), r),
        call_ensures(join_location, (&base, without), other),
    ensures
        r@ == other@,
{
    reveal_strlit("//");
    reveal_strlit("/../");
    reveal_strlit("/..");
    reveal_strlit("/");
    reveal_strlit(".");
    reveal_strlit("..");
    let a = before + "/"@ + part + "/../"@ + after;
    let b = before + "/"@ + after;
    assert(with@ =~= "//"@ + authority + a);
    assert(without@ =~= "//"@ + authority + b);
    lemma_named(authority, a);
    lemma_named(authority, b);
    let p = leading_path(after);
    let h = heads(before);
    lemma_segments(before, p);
    lemma_heads_more(before, part);
    lemma_heads_more(before + "/"@ + part, ".."@);
    let c = before + "/"@ + part + "/"@ + ".."@;
    lemma_segments(c, p);
    let more = h.push(part).push(".."@);
    lemma_undone(h, part);
    lemma_same_segments(more, h, pieces(p, '/'));
    assert(c + "/"@ + p =~= before + "/"@ + part + "/../"@ + p);
    assert(a =~= (before + "/"@ + part + "/../"@) + after);
    lemma_settled(before + "/"@ + part + "/../"@, before + "/"@, after);
}

/// Two dots at the start of a path take nothing away.
pub proof fn law_two_dots_first(
    base: Uri,
    authority: Seq<char>,
    after: Seq<char>,
    with: &str,
    without: &str,
    r: String,
    other: String,
)
    requires
        one_part(authority),
        with@ == "//"@ + authority + "/../"@ + after,
        without@ == "//"@ + authority + "/"@ + after,
        call_ensures(join_location, (&base, with), r),
        call_ensures(join_location, (&base, without), other),
    ensures
        r@ == other@,
{
    reveal_strlit("//");
    reveal_strlit("/../");
    reveal_strlit("/");
    reveal_strlit(".");
    reveal_strlit("..");
    assert(with@ =~= "//"@ + authority + ("/../"@ + after));
    assert(without@ =~= "//"@ + authority + ("/"@ + after));
    lemma_named(authority, "/../"@ + after);
    lemma_named(authority, "/"@ + after);
    let none = Seq::<char>::empty();
    let p = leading_path(after);
    let h = heads(none);
    lemma_segments(none, p);
    lemma_heads_more(none, ".."@);
    lemma_segments(none + "/"@ + ".."@, p);
    assert(settled_segments(h.push(".."@)) =~= settled_segments(h)) by {
        assert(h.push(".."@).drop_last() =~= h);
    }
    lemma_same_segments(h.push(".."@), h, pieces(p, '/'));
    assert(none + "/"@ + ".."@ + "/"@ + p =~= "/../"@ + p);
    assert(none + "/"@ + p =~= "/"@ + p);
    lemma_settled("/../"@, "/"@, after);
}

/// Dots at the end of a path leave a `/` there: after a lone dot the path stays, two take away the
/// part before them where there is one.
pub proof fn law_dots_last(
    base: Uri,
    authority: Seq<char>,
    before: Seq<char>,
    part: Seq<char>,
    tail: Seq<char>,
    with: (&str, &str, &str),
    without: (&str, &str),
    r: (String, String, String),
    other: (String, String),
)
    requires
        one_part(authority),
        is_path(before),
        one_part(part),
        part != "."@,
        part != ".."@,
        is_tail(tail),
        with.0@ == "//"@ + authority + before + "/."@ + tail,
        with.1@ == "//"@ + authority + before + "/"@ + part + "/.."@ + tail,
        with.2@ == "//"@ + authority + "/.."@ + tail,
        without.0@ == "//"@ + authority + before + "/"@ + tail,
        without.1@ == "//"@ + authority + "/"@ + tail,
        call_ensures(join_location, (&base, with.0), r.0),
        call_ensures(join_location, (&base, with.1), r.1),
        call_ensures(join_location, (&base, with.2), r.2),
        call_ensures(join_location, (&base, without.0), other.0),
        call_ensures(join_location, (&base, without.1), other.1),
    ensures
        r.0@ == other.0@,
        r.1@ == other.0@,
        r.2@ == other.1@,
{
    reveal_strlit("//");
    reveal_strlit("/.");
    reveal_strlit("/..");
    reveal_strlit("/");
    reveal_strlit(".");
    reveal_strlit("..");
    let none = Seq::<char>::empty();
    let h = heads(before);
    lemma_end(before, "."@, tail);
    lemma_end(before + "/"@ + part, ".."@, tail);
    lemma_end(none, ".."@, tail);
    lemma_heads_more(before, part);
    lemma_undone(h, part);
    lemma_plain_end(before, tail);
    lemma_plain_end(none, tail);
    assert(h.push("."@).drop_last() =~= h);
    assert(heads(none).push(".."@).drop_last() =~= heads(none));
    assert("."@.len() != ".."@.len());
    let paths = (
        before + "/"@ + "."@ + tail,
        before + "/"@ + part + "/"@ + ".."@ + tail,
        none + "/"@ + ".."@ + tail,
        before + "/"@ + tail,
        none + "/"@ + tail,
    );
    assert(with.0@ =~= "//"@ + authority + paths.0);
    assert(with.1@ =~= "//"@ + authority + paths.1);
    assert(with.2@ =~= "//"@ + authority + paths.2);
    assert(without.0@ =~= "//"@ + authority + paths.3);
    assert(without.1@ =~= "//"@ + authority + paths.4);
    lemma_named(authority, paths.0);
    lemma_named(authority, paths.1);
    lemma_named(authority, paths.2);
    lemma_named(authority, paths.3);
    lemma_named(authority, paths.4);
}

// ---------------------------------------------------------------------------
// What the laws rest on
// ---------------------------------------------------------------------------

/// What comes up to `c` in a text that goes on from one without `c`.
proof fn lemma_up_to(a: Seq<char>, b: Seq<char>, c: char)
    requires
        !a.contains(c),
    ensures
        up_to(a + b, c) == a + up_to(b, c),
{
    let s = a + b;
    lemma_position(b, c);
    assert forall|j: int| 0 <= j < a.len() implies #[trigger] s[j] != c by {
        assert(a.contains(a[j]));
    }
    match position(b, c) {
        Some(i) => {
            assert forall|j: int| 0 <= j < a.len() + i implies #[trigger] s[j] != c by {
                if j >= a.len() {
                    assert(s[j] == b[j - a.len()]);
                }
            }
            lemma_position_at(s, c, a.len() + i);
            assert(s.take(a.len() + i as int) =~= a + b.take(i as int));
        },
        None => {
            assert forall|j: int| 0 <= j < s.len() implies #[trigger] s[j] != c by {
                if j >= a.len() {
                    assert(s[j] == b[j - a.len()]);
                }
            }
            assert(!s.contains(c));
            lemma_position_none(s, c);
        },
    }
}

/// What starts with `c` has nothing up to it, and neither has an empty text.
proof fn lemma_up_to_none(b: Seq<char>, c: char)
    requires
        b.len() > 0 ==> b[0] == c,
    ensures
        up_to(b, c) == Seq::<char>::empty(),
{
    if b.len() > 0 {
        lemma_position_at(b, c, 0);
    } else {
        lemma_position(b, c);
    }
    assert(up_to(b, c) =~= Seq::<char>::empty());
}

/// The leading path of a text that goes on from one with neither a query nor a fragment.
proof fn lemma_leading(a: Seq<char>, b: Seq<char>)
    requires
        forall|i: int| 0 <= i < a.len() ==> #[trigger] a[i] != '?' && a[i] != '#',
    ensures
        leading_path(a + b) == a + leading_path(b),
        is_tail(b) ==> leading_path(b) == Seq::<char>::empty(),
        is_tail(b) ==> leading_path(a + b) == a,
{
    assert(!a.contains('#') && !a.contains('?'));
    lemma_up_to(a, b, '#');
    lemma_up_to(a, up_to(b, '#'), '?');
    if is_tail(b) {
        if b.len() > 0 && b[0] == '?' {
            lemma_position(b, '#');
            lemma_up_to_none(up_to(b, '#'), '?');
        } else {
            lemma_up_to_none(b, '#');
            lemma_up_to_none(up_to(b, '#'), '?');
        }
        assert(a + leading_path(b) =~= a);
    }
}

/// What a `Location` with two leading slashes names.
proof fn lemma_named(a: Seq<char>, p: Seq<char>)
    requires
        one_part(a),
        p.len() > 0 ==> p[0] == '/' || p[0] == '?' || p[0] == '#',
    ensures
        named_authority("//"@ + a + p) == a,
        named_path("//"@ + a + p) == p,
{
    reveal_strlit("//");
    let l = "//"@ + a + p;
    assert(l.skip(2) =~= a + p);
    assert(!a.contains('/'));
    lemma_leading(a, p);
    let q = leading_path(p);
    lemma_position(p, '#');
    lemma_position(up_to(p, '#'), '?');
    assert(q.len() > 0 ==> q[0] == p[0]);
    if p.len() > 0 && p[0] != '/' {
        assert(is_tail(p));
    }
    lemma_up_to_none(q, '/');
    lemma_up_to(a, q, '/');
    assert(a + Seq::<char>::empty() =~= a);
    assert((a + p).skip(a.len() as int) =~= p);
}

/// The path and the query of a base.
proof fn lemma_goes_on(
    u: Uri,
    front: Seq<char>,
    path: Seq<char>,
    query: Seq<char>,
    end: Seq<char>,
)
    requires
        goes_on(u, front, path, query, end),
    ensures
        u@.path_and_query() == path + query,
        u@.path() == path,
{
    let rest = u@.rest();
    assert(u@.prefix_len() == front.len());
    assert(rest =~= path + query + end);
    let pq = path + query;
    if end.len() > 0 && end[0] != '#' {
        assert(rest =~= end);
        assert(u@.path_and_query() =~= Seq::<char>::empty());
        assert(pq =~= Seq::<char>::empty());
    } else {
        assert(!pq.contains('#')) by {
            assert forall|i: int| 0 <= i < pq.len() implies #[trigger] pq[i] != '#' by {
                if i >= path.len() {
                    assert(pq[i] == query[i - path.len()]);
                }
            }
        }
        if rest.len() > 0 {
            assert(rest[0] == '/' || rest[0] == '?' || rest[0] == '#');
        }
        lemma_up_to(pq, end, '#');
        lemma_up_to_none(end, '#');
        assert(pq + Seq::<char>::empty() =~= pq);
    }
    assert(!path.contains('?'));
    lemma_up_to(path, query, '?');
    lemma_up_to_none(query, '?');
    assert(path + Seq::<char>::empty() =~= path);
}

/// The directory of a path.
proof fn lemma_directory(path: Seq<char>, dir: Seq<char>)
    requires
        is_directory(path, dir),
    ensures
        directory(path) == dir,
        path.len() > 0 && path[0] == '/' ==> dir[0] == '/',
        dir.len() > 0,
    decreases path.len(),
{
    reveal_strlit("/");
    lemma_last(path);
    if path.contains('/') {
        let i = last_position(path, '/')->0;
        let k = dir.len() - 1;
        assert(path[k] == dir[k]);
        assert(path[i as int] == '/');
        assert(dir =~= path.take(i as int + 1));
    }
}

proof fn lemma_last(s: Seq<char>)
    ensures
        last_position(s, '/') is Some <==> s.contains('/'),
        last_position(s, '/') matches Some(i) ==> i < s.len() && s[i as int] == '/' && (forall|
            j: int,
        |
            i < j < s.len() ==> s[j] != '/'),
    decreases s.len(),
{
    if s.len() > 0 {
        lemma_last(s.drop_last());
        let t = s.drop_last();
        assert(forall|j: int| 0 <= j < t.len() ==> t[j] == s[j]);
        if s.contains('/') && s.last() != '/' {
            let j = choose|j: int| 0 <= j < s.len() && s[j] == '/';
            assert(t[j] == '/');
        }
        if t.contains('/') {
            let j = choose|j: int| 0 <= j < t.len() && t[j] == '/';
            assert(s[j] == '/');
        }
    }
}

/// The segments of a path that is empty or starts with `/`.
spec fn heads(h: Seq<char>) -> Seq<Seq<char>> {
    if h.len() == 0 {
        Seq::empty()
    } else {
        segments_of(h)
    }
}

/// The pieces of a text that goes on after a separator.
proof fn lemma_pieces_after(a: Seq<char>, b: Seq<char>)
    ensures
        pieces(a + "/"@ + b, '/') == pieces(a, '/') + pieces(b, '/'),
    decreases a.len(),
{
    reveal_strlit("/");
    assert("/"@ =~= seq!['/']);
    lemma_position(a, '/');
    match position(a, '/') {
        None => {
            assert(!a.contains('/'));
            lemma_pieces_cons(a, '/', b);
            lemma_pieces_single(a, '/');
        },
        Some(i) => {
            let first = a.take(i as int);
            let rest = a.skip(i as int + 1);
            lemma_pieces_after(rest, b);
            assert(!first.contains('/'));
            lemma_pieces_cons(first, '/', rest);
            lemma_pieces_cons(first, '/', rest + "/"@ + b);
            assert(a =~= first + seq!['/'] + rest);
            assert(a + "/"@ + b =~= first + seq!['/'] + (rest + "/"@ + b));
            assert(pieces(a + "/"@ + b, '/') =~= pieces(a, '/') + pieces(b, '/'));
        },
    }
}

/// The segments of a path that goes on.
proof fn lemma_segments(h: Seq<char>, p: Seq<char>)
    requires
        is_path(h),
    ensures
        segments_of(h + "/"@ + p) == heads(h) + pieces(p, '/'),
        (h + "/"@ + p).len() > 0,
{
    reveal_strlit("/");
    let s = h + "/"@ + p;
    if h.len() == 0 {
        assert(s.skip(1) =~= p);
        assert(heads(h) + pieces(p, '/') =~= pieces(p, '/'));
    } else {
        assert(s.skip(1) =~= h.skip(1) + "/"@ + p);
        lemma_pieces_after(h.skip(1), p);
    }
}

/// A path with one segment more.
proof fn lemma_heads_more(h: Seq<char>, part: Seq<char>)
    requires
        is_path(h),
        one_part(part),
    ensures
        heads(h + "/"@ + part) == heads(h).push(part),
        is_path(h + "/"@ + part),
{
    reveal_strlit("/");
    lemma_segments(h, part);
    assert(!part.contains('/'));
    lemma_pieces_single(part, '/');
    assert(heads(h) + seq![part] =~= heads(h).push(part));
    let s = h + "/"@ + part;
    assert forall|i: int| 0 <= i < s.len() implies #[trigger] s[i] != '?' && s[i] != '#' by {
        if i < h.len() {
            assert(s[i] == h[i]);
        } else if i > h.len() {
            assert(s[i] == part[i - h.len() - 1]);
        }
    }
}

/// A part and two dots after it come to nothing.
proof fn lemma_undone(h: Seq<Seq<char>>, part: Seq<char>)
    requires
        !dots(part),
    ensures
        settled_segments(h.push(part).push(".."@)) == settled_segments(h),
{
    let one = h.push(part);
    assert(one.drop_last() =~= h);
    assert(one.push(".."@).drop_last() =~= one);
    assert(settled_segments(one) == settled_segments(h).push(part));
    assert(settled_segments(h).push(part).drop_last() =~= settled_segments(h));
}

/// What is left of segments depends on what was left of those in front.
proof fn lemma_same_segments(a: Seq<Seq<char>>, b: Seq<Seq<char>>, more: Seq<Seq<char>>)
    requires
        settled_segments(a) == settled_segments(b),
    ensures
        settled_segments(a + more) == settled_segments(b + more),
    decreases more.len(),
{
    if more.len() == 0 {
        assert(a + more =~= a);
        assert(b + more =~= b);
    } else {
        let less = more.drop_last();
        lemma_same_segments(a, b, less);
        assert((a + more).drop_last() =~= a + less);
        assert((b + more).drop_last() =~= b + less);
        assert((a + more).last() == more.last());
        assert((b + more).last() == more.last());
    }
}

/// Two ways into the same path, with what is left of either the same.
proof fn lemma_settled(a: Seq<char>, b: Seq<char>, after: Seq<char>)
    requires
        a.len() > 0,
        b.len() > 0,
        forall|i: int| 0 <= i < a.len() ==> #[trigger] a[i] != '?' && a[i] != '#',
        forall|i: int| 0 <= i < b.len() ==> #[trigger] b[i] != '?' && b[i] != '#',
        settled_segments(segments_of(a + leading_path(after))) == settled_segments(
            segments_of(b + leading_path(after)),
        ),
        segments_of(a + leading_path(after)).last() == segments_of(b + leading_path(after)).last(),
    ensures
        settled(a + after) == settled(b + after),
{
    let p = leading_path(after);
    lemma_leading(a, after);
    lemma_leading(b, after);
    lemma_position(after, '#');
    lemma_position(up_to(after, '#'), '?');
    assert(p.len() <= after.len());
    assert((a + after).skip((a + p).len() as int) =~= after.skip(p.len() as int));
    assert((b + after).skip((b + p).len() as int) =~= after.skip(p.len() as int));
    assert(kept_segments(a + p) == kept_segments(b + p));
}

/// A path that ends in dots.
proof fn lemma_end(h: Seq<char>, last: Seq<char>, tail: Seq<char>)
    requires
        is_path(h),
        dots(last),
        is_tail(tail),
    ensures
        settled(h + "/"@ + last + tail) == "/"@ + crate::text::joined(
            settled_segments(heads(h).push(last)).push(Seq::empty()),
            "/"@,
        ) + tail,
{
    reveal_strlit(".");
    reveal_strlit("..");
    let s = h + "/"@ + last;
    assert(one_part(last));
    lemma_heads_more(h, last);
    lemma_leading(s, tail);
    assert((s + tail).skip(s.len() as int) =~= tail);
    assert(heads(h).push(last).last() == last);
}

/// A path that ends in `/`.
proof fn lemma_plain_end(h: Seq<char>, tail: Seq<char>)
    requires
        is_path(h),
        is_tail(tail),
    ensures
        settled(h + "/"@ + tail) == "/"@ + crate::text::joined(
            settled_segments(heads(h)).push(Seq::empty()),
            "/"@,
        ) + tail,
{
    reveal_strlit(".");
    reveal_strlit("..");
    let none = Seq::<char>::empty();
    let s = h + "/"@ + none;
    lemma_heads_more(h, none);
    assert(s =~= h + "/"@);
    lemma_leading(s, tail);
    assert((s + tail).skip(s.len() as int) =~= tail);
    assert(heads(h).push(none).last() == none);
    assert(heads(h).push(none).drop_last() =~= heads(h));
    assert(none.len() != "."@.len() && none.len() != ".."@.len());
}

/// A path without dots that stand alone has no segment of dots.
proof fn lemma_no_dots(path: Seq<char>)
    requires
        path.len() > 0,
        is_path(path),
        !has_dots(path),
    ensures
        forall|i: int| 0 <= i < segments_of(path).len() ==> !dots(#[trigger] segments_of(path)[i]),
    decreases path.len(),
{
    reveal_strlit(".");
    reveal_strlit("..");
    let s = path.skip(1);
    lemma_position(s, '/');
    match position(s, '/') {
        None => {
            if dots(s) {
                assert(path[1] == s[0]);
                if s.len() == 2 {
                    assert(path[2] == s[1]);
                }
                assert(dots_at(path, 0));
            }
            assert(segments_of(path) =~= seq![s]);
        },
        Some(i) => {
            let first = s.take(i as int);
            if dots(first) {
                assert(first.len() > 0);
                assert(path[1] == s[0] && s[0] == first[0]);
                assert(path[i as int + 1] == s[i as int]);
                if first.len() == 2 {
                    assert(path[2] == s[1] && s[1] == first[1]);
                }
                assert(dots_at(path, 0));
            }
            let rest = path.skip(i as int + 1);
            assert(rest[0] == s[i as int]);
            assert(is_path(rest)) by {
                assert(forall|j: int| 0 <= j < rest.len() ==> rest[j] == path[j + i as int + 1]);
            }
            assert(!has_dots(rest)) by {
                if has_dots(rest) {
                    let j = choose|j: int| #[trigger] dots_at(rest, j);
                    assert(dots_at(path, j + i as int + 1));
                }
            }
            lemma_no_dots(rest);
            assert(rest.skip(1) =~= s.skip(i as int + 1));
            assert(segments_of(path) =~= seq![first] + segments_of(rest));
        },
    }
}

} // verus!
