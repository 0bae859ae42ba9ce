//! Static files: entity tags, conditional and range requests, MIME types and safe paths.
//!
//! [`ServeDir`] and [`ServeFile`] decide; finding files and reading them is left to the caller,
//! who hands in what was found as plain values.

use bytes::Bytes;
use http::HeaderMap;
use std::path::Component::{CurDir, Normal, ParentDir, Prefix, RootDir};
use std::path::Prefix::{DeviceNS, Disk, Verbatim, VerbatimDisk, VerbatimUNC, UNC};
use std::path::{Path, PathBuf};
use vstd::prelude::*;
use vstd::slice::slice_subrange;
use vstd::utf8::encode_utf8;

use crate::encoding::{sha256, sha256_digest};
use crate::error::{ErrorKind, OxiHttpError};
use crate::headers::{
    get_str, has_room, header_entries, header_str, known_name, lemma_known_names,
    lemma_plain_concat, lemma_plain_decimal, lemma_plain_value, no_entries, plain, set_text,
    valid_value, visible_text, with_header,
};
use crate::http_date::{
    day_number, format_http_date, http_date, http_date_text, law_date_roundtrip,
    lemma_date_text_plain, parse_http_date,
};
use crate::http_types::{Method, Reply, ReplyView};
use crate::octets::bytes_from_vec;
use crate::text::{
    chars_of, decimal, find, hexadecimal, is_text, lemma_pieces_single, lemma_position, number_of,
    opt_chars, pad_zeros, parse_number, pieces, position, same_text, slice_texts, split, string_of,
    to_decimal, to_hexadecimal, trim, trimmed, zero_padded,
};

verus! {

// ---------------------------------------------------------------------------
// Entity tags
// ---------------------------------------------------------------------------

/// A byte as two digits in base sixteen.
pub open spec fn hex_byte(b: u8) -> Seq<char> {
    zero_padded(hexadecimal(b as nat), 2)
}

/// Bytes in base sixteen, two digits each.
pub open spec fn hex_text(data: Seq<u8>) -> Seq<char>
    decreases data.len(),
{
    if data.len() == 0 {
        Seq::empty()
    } else {
        hex_text(data.drop_last()) + hex_byte(data.last())
    }
}

/// The entity tag of a file: the first 16 bytes of its SHA-256 digest in base sixteen, in quotes.
pub open spec fn etag_of(data: Seq<u8>) -> Seq<char> {
    seq!['"'] + hex_text(sha256_digest(data).take(16)) + seq!['"']
}

/// What the text of a byte in base sixteen looks like.
proof fn lemma_hex_byte(b: u8)
    ensures
        hex_byte(b).len() == 2,
        plain(hex_byte(b)),
{
    reveal_with_fuel(hexadecimal, 2);
    let h = hexadecimal(b as nat);
    assert(h.len() <= 2 && plain(h));
    assert(plain(hex_byte(b)));
}

/// What the text of some bytes in base sixteen looks like.
proof fn lemma_hex_text(data: Seq<u8>)
    ensures
        hex_text(data).len() == 2 * data.len(),
        plain(hex_text(data)),
    decreases data.len(),
{
    if data.len() > 0 {
        lemma_hex_text(data.drop_last());
        lemma_hex_byte(data.last());
        lemma_plain_concat(hex_text(data.drop_last()), hex_byte(data.last()));
    }
}

/// Computes the entity tag of a file.
pub fn compute_etag(data: &[u8]) -> (r: String)
    ensures
        r@ == etag_of(data@),
        r@.len() == 34,
        plain(r@),
{
    let hash = sha256(data);
    let ghost first = hash@.take(16);
    let mut out = String::new();
    out.push('"');
    let mut i: usize = 0;
    while i < 16
        invariant
            i <= 16,
            hash@.len() == 32,
            first == hash@.take(16),
            out@ == seq!['"'] + hex_text(first.take(i as int)),
        decreases 16 - i,
    {
        let t = pad_zeros(to_hexadecimal(hash[i] as u64), 2);
        out.append(t.as_str());
        proof {
            assert(first.take(i + 1).drop_last() =~= first.take(i as int));
            assert(out@ =~= seq!['"'] + hex_text(first.take(i + 1)));
        }
        i += 1;
    }
    out.push('"');
    proof {
        assert(first.take(16) =~= first);
        lemma_hex_text(first);
        assert(out@ =~= etag_of(data@));
        lemma_plain_concat(seq!['"'], hex_text(first));
        lemma_plain_concat(seq!['"'] + hex_text(first), seq!['"']);
    }
    out
}

/// Whether an `If-None-Match` names the tag: it is `*`, or one of its entries is the tag.
pub open spec fn names_etag(if_none_match: Seq<char>, etag: Seq<char>) -> bool {
    let t = trimmed(if_none_match);
    let list = pieces(t, ',');
    t == "*"@ || exists|i: int| 0 <= i < list.len() && trimmed(#[trigger] list[i]) == etag
}

/// Whether an `If-None-Match` names the tag.
pub fn etag_matches(if_none_match: &str, etag: &str) -> (r: bool)
    ensures
        r == names_etag(if_none_match@, etag@),
{
    let chars = chars_of(if_none_match);
    let t = trim(chars.as_slice());
    if is_text(t, "*") {
        return true;
    }
    let list = split(t, ',');
    let ghost all = pieces(t@, ',');
    assert(slice_texts(list@).len() == list@.len());
    let mut i: usize = 0;
    while i < list.len()
        invariant
            i <= list@.len(),
            all == slice_texts(list@),
            all == pieces(t@, ','),
            t@ == trimmed(if_none_match@),
            forall|j: int| 0 <= j < i ==> trimmed(#[trigger] all[j]) != etag@,
        decreases list@.len() - i,
    {
        let e = trim(list[i]);
        assert(all[i as int] == list@[i as int]@);
        if is_text(e, etag) {
            return true;
        }
        i += 1;
    }
    false
}

// ---------------------------------------------------------------------------
// Modification times
// ---------------------------------------------------------------------------

/// When a file was last modified, as far as it is known.
#[derive(Debug, Clone, Copy, PartialEq, Eq, Structural)]
pub enum Modified {
    /// It is not known.
    Unknown,
    /// Before the start of 1970.
    BeforeEpoch,
    /// So many whole seconds after the start of 1970.
    At(u64),
}

/// Whether a file that was modified at the given second changed after the HTTP date; where the
/// date cannot be read, it is taken to have.
pub open spec fn changed_since(secs: u64, date: Seq<char>) -> bool {
    match http_date(date) {
        Some(t) => secs > t,
        None => true,
    }
}

/// Whether a file changed after the HTTP date.
///
/// A date that cannot be read counts as earlier, so that the whole file is served.
pub fn is_modified_since(mtime_secs: u64, ims: &str) -> (r: bool)
    ensures
        r == changed_since(mtime_secs, ims@),
{
    match parse_http_date(ims) {
        Some(t) => mtime_secs > t,
        None => true,
    }
}

// ---------------------------------------------------------------------------
// Ranges
// ---------------------------------------------------------------------------

/// Why a range is refused.
#[derive(Debug, Clone, Copy, PartialEq, Eq, Structural)]
pub enum RangeError {
    /// More than one range is asked for.
    MultiRange,
    /// The range is malformed, or not within the file.
    Invalid,
}

/// A position in a file: a numeral that fits `usize`.
pub open spec fn offset(s: Seq<char>) -> Option<nat> {
    number_of(s, usize::MAX as nat)
}

/// `a - b`, but no less than zero.
pub open spec fn minus(a: nat, b: nat) -> nat {
    if a >= b {
        (a - b) as nat
    } else {
        0
    }
}

/// The first and the last position that a range names in a file of the given length, where its
/// numbers can be read.
pub open spec fn range_bounds(start: Seq<char>, end: Seq<char>, len: nat) -> Option<(nat, nat)> {
    if start.len() == 0 {
        match offset(end) {
            Some(n) => if n == 0 {
                None
            } else {
                Some((minus(len, n), minus(len, 1)))
            },
            None => None,
        }
    } else {
        match (
            offset(start),
            if end.len() == 0 {
                Some(minus(len, 1))
            } else {
                offset(end)
            },
        ) {
            (Some(s), Some(e)) => Some((s, e)),
            _ => None,
        }
    }
}

/// What a `Range` header asks of a file: the first and the last position.
///
/// `bytes=2-5` asks for the positions 2 to 5, `bytes=2-` for all from 2 on, and `bytes=-2` for the
/// last two.
pub open spec fn single_range(range: Seq<char>, len: nat) -> Result<(nat, nat), RangeError> {
    let r = trimmed(range);
    if r.len() < 6 || r.take(6) != "bytes="@ {
        Err(RangeError::Invalid)
    } else if r.skip(6).contains(',') {
        Err(RangeError::MultiRange)
    } else {
        let ask = r.skip(6);
        match position(ask, '-') {
            None => Err(RangeError::Invalid),
            Some(i) => match range_bounds(ask.take(i as int), ask.skip(i as int + 1), len) {
                Some((s, e)) => if s <= e < len {
                    Ok((s, e))
                } else {
                    Err(RangeError::Invalid)
                },
                None => Err(RangeError::Invalid),
            },
        }
    }
}

/// Reads a position in a file.
fn parse_offset(s: &[char]) -> (r: Option<usize>)
    ensures
        offset(s@) == match r {
            Some(v) => Some(v as nat),
            None => None,
        },
{
    match parse_number(s, usize::MAX as u64) {
        Some(v) => Some(v as usize),
        None => None,
    }
}

/// Reads a `Range` header that asks for one range; gives its first and its last position.
pub fn parse_single_range(range: &str, file_len: usize) -> (r: Result<(usize, usize), RangeError>)
    ensures
        single_range(range@, file_len as nat) == match r {
            Ok((s, e)) => Ok((s as nat, e as nat)),
            Err(e) => Err(e),
        },
        r matches Ok((s, e)) ==> s <= e < file_len,
{
    proof {
        reveal_strlit("bytes=");
    }
    let chars = chars_of(range);
    let t = trim(chars.as_slice());
    let n: usize = t.len();
    if n < 6 {
        return Err(RangeError::Invalid);
    }
    let unit = slice_subrange(t, 0, 6);
    assert(unit@ =~= t@.take(6));
    if !is_text(unit, "bytes=") {
        return Err(RangeError::Invalid);
    }
    let rest = slice_subrange(t, 6, n);
    assert(rest@ =~= t@.skip(6));
    proof {
        lemma_position(rest@, ',');
    }
    if find(rest, ',').is_some() {
        assert(rest@.contains(','));
        return Err(RangeError::MultiRange);
    }
    assert(!rest@.contains(','));
    let m: usize = rest.len();
    let (start_str, end_str) = match find(rest, '-') {
        None => return Err(RangeError::Invalid),
        Some(i) => {
            let a = slice_subrange(rest, 0, i);
            let b = slice_subrange(rest, i + 1, m);
            assert(a@ =~= rest@.take(i as int));
            assert(b@ =~= rest@.skip(i + 1));
            (a, b)
        },
    };
    let last: usize = if file_len > 0 {
        file_len - 1
    } else {
        0
    };
    let (start, end): (usize, usize) = if start_str.len() == 0 {
        match parse_offset(end_str) {
            None => return Err(RangeError::Invalid),
            Some(suffix) => {
                if suffix == 0 {
                    return Err(RangeError::Invalid);
                }
                (if file_len >= suffix {
                    file_len - suffix
                } else {
                    0
                }, last)
            },
        }
    } else {
        let start: usize = match parse_offset(start_str) {
            None => return Err(RangeError::Invalid),
            Some(v) => v,
        };
        let end: usize = if end_str.len() == 0 {
            last
        } else {
            match parse_offset(end_str) {
                None => return Err(RangeError::Invalid),
                Some(v) => v,
            }
        };
        (start, end)
    };
    if file_len == 0 || start >= file_len || end >= file_len || start > end {
        return Err(RangeError::Invalid);
    }
    Ok((start, end))
}

// ---------------------------------------------------------------------------
// Paths
// ---------------------------------------------------------------------------

/// `std::path::Path`, whose inside is not seen here.
#[verifier::external_type_specification]
#[verifier::external_body]
pub struct ExPath(std::path::Path);

/// `std::path::PathBuf`, whose inside is not seen here.
#[verifier::external_type_specification]
#[verifier::external_body]
pub struct ExPathBuf(std::path::PathBuf);

/// A component of a path. Prefixes are found on Windows only; a drive is given by its letter.
#[derive(Debug, Clone)]
pub enum PathPart {
    /// `..`
    Parent,
    /// `.`
    Current,
    /// `/`
    Root,
    /// A name, by its bytes.
    Named(Vec<u8>),
    /// `\\?\name`
    Raw(Vec<u8>),
    /// `\\?\UNC\server\share`
    RawShare(Vec<u8>, Vec<u8>),
    /// `\\?\C:`
    RawDrive(u8),
    /// `\\.\name`
    Device(Vec<u8>),
    /// `\\server\share`
    Share(Vec<u8>, Vec<u8>),
    /// `C:`
    Drive(u8),
}

/// What a component of a path says.
#[verifier::ext_equal]
pub enum PartView {
    Parent,
    Current,
    Root,
    Named(Seq<u8>),
    Raw(Seq<u8>),
    RawShare(Seq<u8>, Seq<u8>),
    RawDrive(u8),
    Device(Seq<u8>),
    Share(Seq<u8>, Seq<u8>),
    Drive(u8),
}

impl View for PathPart {
    type V = PartView;

    open spec fn view(&self) -> PartView {
        match *self {
            PathPart::Parent => PartView::Parent,
            PathPart::Current => PartView::Current,
            PathPart::Root => PartView::Root,
            PathPart::Named(b) => PartView::Named(b@),
            PathPart::Raw(b) => PartView::Raw(b@),
            PathPart::RawShare(a, b) => PartView::RawShare(a@, b@),
            PathPart::RawDrive(d) => PartView::RawDrive(d),
            PathPart::Device(b) => PartView::Device(b@),
            PathPart::Share(a, b) => PartView::Share(a@, b@),
            PathPart::Drive(d) => PartView::Drive(d),
        }
    }
}

/// What each component says.
pub open spec fn part_views(parts: Seq<PathPart>) -> Seq<PartView> {
    parts.map_values(|p: PathPart| p@)
}

/// The components that a path holds, in order.
pub uninterp spec fn path_parts(p: &std::path::Path) -> Seq<PartView>;

/// `Path::components` yields the components of a path in order; a prefix is told by its
/// `PrefixComponent::kind`.
#[verifier::external_body]
fn components(p: &Path) -> (r: Vec<PathPart>)
    ensures
        part_views(r@) == path_parts(p),
{
    p.components().map(|c| match c {
        ParentDir => PathPart::Parent,
        CurDir => PathPart::Current,
        RootDir => PathPart::Root,
        Normal(a) => PathPart::Named(a.as_encoded_bytes().to_vec()),
        Prefix(x) => match x.kind() {
            Verbatim(a) => PathPart::Raw(a.as_encoded_bytes().to_vec()),
            VerbatimUNC(a, b) => PathPart::RawShare(a.as_encoded_bytes().to_vec(), b.as_encoded_bytes().to_vec()),
            VerbatimDisk(d) => PathPart::RawDrive(d),
            DeviceNS(a) => PathPart::Device(a.as_encoded_bytes().to_vec()),
            UNC(a, b) => PathPart::Share(a.as_encoded_bytes().to_vec(), b.as_encoded_bytes().to_vec()),
            Disk(d) => PathPart::Drive(d),
        },
    }).collect()
}

/// What is left of a path once every `.` is left out and every `..` has taken away the component
/// before it.
pub open spec fn normalised(parts: Seq<PartView>) -> Seq<PartView>
    decreases parts.len(),
{
    if parts.len() == 0 {
        Seq::empty()
    } else {
        let before = normalised(parts.drop_last());
        match parts.last() {
            PartView::Parent => if before.len() == 0 {
                before
            } else {
                before.drop_last()
            },
            PartView::Current => before,
            step => before.push(step),
        }
    }
}

/// Whether what is left of a path starts with what is left of the root.
pub open spec fn within(root: Seq<PartView>, candidate: Seq<PartView>) -> bool {
    let r = normalised(root);
    let c = normalised(candidate);
    r.len() <= c.len() && c.take(r.len() as int) == r
}

/// What each component says.
pub open spec fn ref_views(v: Seq<&PathPart>) -> Seq<PartView> {
    v.map_values(|p: &PathPart| p@)
}

/// Leaves out every `.` and lets every `..` take away the component before it.
fn normalize<'a>(parts: &'a Vec<PathPart>) -> (r: Vec<&'a PathPart>)
    ensures
        ref_views(r@) == normalised(part_views(parts@)),
{
    let ghost all = part_views(parts@);
    let mut out: Vec<&'a PathPart> = Vec::new();
    assert(ref_views(out@) =~= normalised(all.take(0)));
    let mut i: usize = 0;
    while i < parts.len()
        invariant
            i <= parts@.len(),
            all == part_views(parts@),
            ref_views(out@) == normalised(all.take(i as int)),
        decreases parts@.len() - i,
    {
        let part = &parts[i];
        proof {
            assert(all.take(i + 1).drop_last() =~= all.take(i as int));
            assert(all.take(i + 1).last() == part@);
        }
        let ghost before = out@;
        match part {
            PathPart::Parent => {
                if out.len() > 0 {
                    out.pop();
                    assert(ref_views(out@) =~= ref_views(before).drop_last());
                }
            },
            PathPart::Current => {},
            _ => {
                out.push(part);
                assert(ref_views(out@) =~= ref_views(before).push(part@));
            },
        }
        i += 1;
    }
    assert(all.take(i as int) =~= all);
    out
}

/// Whether two names have the same bytes.
fn same_bytes(a: &Vec<u8>, b: &Vec<u8>) -> (r: bool)
    ensures
        r == (a@ == b@),
{
    if a.len() != b.len() {
        return false;
    }
    let mut i: usize = 0;
    while i < a.len()
        invariant
            i <= a@.len(),
            a@.len() == b@.len(),
            forall|j: int| 0 <= j < i ==> a@[j] == b@[j],
        decreases a@.len() - i,
    {
        if a[i] != b[i] {
            return false;
        }
        i += 1;
    }
    assert(a@ =~= b@);
    true
}

/// Whether two components say the same.
fn same_part(a: &PathPart, b: &PathPart) -> (r: bool)
    ensures
        r == (a@ == b@),
{
    match (a, b) {
        (PathPart::Parent, PathPart::Parent) => true,
        (PathPart::Current, PathPart::Current) => true,
        (PathPart::Root, PathPart::Root) => true,
        (PathPart::Named(x), PathPart::Named(y)) => same_bytes(x, y),
        (PathPart::Raw(x), PathPart::Raw(y)) => same_bytes(x, y),
        (PathPart::RawShare(w, x), PathPart::RawShare(y, z)) => same_bytes(w, y) && same_bytes(x, z),
        (PathPart::RawDrive(x), PathPart::RawDrive(y)) => *x == *y,
        (PathPart::Device(x), PathPart::Device(y)) => same_bytes(x, y),
        (PathPart::Share(w, x), PathPart::Share(y, z)) => same_bytes(w, y) && same_bytes(x, z),
        (PathPart::Drive(x), PathPart::Drive(y)) => *x == *y,
        _ => false,
    }
}

/// Whether what is left of a path, given by its components, starts with what is left of the root.
pub fn is_within(root: &Vec<PathPart>, candidate: &Vec<PathPart>) -> (r: bool)
    ensures
        r == within(part_views(root@), part_views(candidate@)),
{
    let a = normalize(root);
    let b = normalize(candidate);
    let ghost av = ref_views(a@);
    let ghost bv = ref_views(b@);
    if b.len() < a.len() {
        return false;
    }
    let mut i: usize = 0;
    while i < a.len()
        invariant
            i <= a@.len() <= b@.len(),
            av == ref_views(a@),
            bv == ref_views(b@),
            av == normalised(part_views(root@)),
            bv == normalised(part_views(candidate@)),
            forall|j: int| 0 <= j < i ==> av[j] == bv[j],
        decreases a@.len() - i,
    {
        if !same_part(a[i], b[i]) {
            assert(av[i as int] != bv[i as int]);
            assert(bv.take(av.len() as int)[i as int] == bv[i as int]);
            return false;
        }
        assert(av[i as int] == bv[i as int]);
        i += 1;
    }
    assert(bv.take(av.len() as int) =~= av);
    true
}

/// Whether `candidate` lies safely inside `root`.
///
/// Both paths are normalised component by component; neither has to exist.
pub fn is_path_safe(root: &Path, candidate: &Path) -> (r: bool)
    ensures
        r == within(path_parts(root), path_parts(candidate)),
{
    let a = components(root);
    let b = components(candidate);
    is_within(&a, &b)
}

/// A path below a root that never climbs further up than it went down stays inside: whatever
/// follows the root, what is left of the root is there as long as each `..` finds a component after
/// it.
pub proof fn law_descent_stays_inside(root: Seq<PartView>, rest: Seq<PartView>)
    requires
        forall|n: int| 0 <= n <= rest.len() ==> depth(#[trigger] rest.take(n)) >= 0,
    ensures
        within(root, root + rest),
        normalised(root + rest).len() == normalised(root).len() + depth(rest),
    decreases rest.len(),
{
    let r = normalised(root);
    assert(rest.take(rest.len() as int) =~= rest);
    if rest.len() == 0 {
        assert(root + rest =~= root);
        assert(r.take(r.len() as int) =~= r);
    } else {
        let less = rest.drop_last();
        assert forall|n: int| 0 <= n <= less.len() implies depth(#[trigger] less.take(n)) >= 0 by {
            assert(less.take(n) =~= rest.take(n));
        }
        law_descent_stays_inside(root, less);
        assert((root + rest).drop_last() =~= root + less);
        let c = normalised(root + rest);
        let before = normalised(root + less);
        assert(c.take(r.len() as int) =~= before.take(r.len() as int));
    }
}

/// How many steps deeper a row of components leads, where each `..` leads one up.
pub open spec fn depth(parts: Seq<PartView>) -> int
    decreases parts.len(),
{
    if parts.len() == 0 {
        0
    } else {
        depth(parts.drop_last()) + match parts.last() {
            PartView::Parent => -1int,
            PartView::Current => 0int,
            _ => 1int,
        }
    }
}

/// Whether every component leads on: none is `.` or `..`.
pub open spec fn descends(parts: Seq<PartView>) -> bool {
    forall|i: int|
        0 <= i < parts.len() ==> (#[trigger] parts[i]) !is Parent && parts[i] !is Current
}

/// `..`, so many times.
pub open spec fn climb(times: nat) -> Seq<PartView> {
    Seq::new(times, |i: int| PartView::Parent)
}

/// A path that climbs out of its root is inside only where it comes back by the very components
/// that it left.
pub proof fn law_climbing_out(root: Seq<PartView>, times: nat, back: Seq<PartView>)
    requires
        descends(root),
        descends(back),
    ensures
        ({
            let left = if times <= root.len() {
                times
            } else {
                root.len()
            };
            within(root, root + climb(times) + back) <==> back.len() >= left && back.take(
                left as int,
            ) == root.skip(root.len() - left)
        }),
{
    let left = if times <= root.len() {
        times
    } else {
        root.len()
    };
    let kept = root.take(root.len() - left);
    let c = kept + back;
    lemma_descent(Seq::empty(), root);
    assert(Seq::<PartView>::empty() + root =~= root);
    assert(normalised(root) =~= root);
    lemma_climb(root, times);
    lemma_descent(root + climb(times), back);
    assert(normalised(root + climb(times) + back) =~= c);
    if back.len() >= left {
        let n = root.len() as int;
        let k = n - left;
        assert(c.take(n) =~= kept + back.take(left as int));
        assert(root =~= kept + root.skip(k));
        if c.take(n) == root {
            assert(back.take(left as int) =~= c.take(n).skip(k));
        }
    }
}

/// Components that lead on are added to what is there.
proof fn lemma_descent(parts: Seq<PartView>, more: Seq<PartView>)
    requires
        descends(more),
    ensures
        normalised(parts + more) == normalised(parts) + more,
    decreases more.len(),
{
    let all = parts + more;
    if more.len() == 0 {
        assert(all =~= parts);
        assert(normalised(parts) + more =~= normalised(parts));
    } else {
        lemma_descent(parts, more.drop_last());
        assert(all.drop_last() =~= parts + more.drop_last());
        assert(all.last() == more[more.len() - 1]);
        assert(normalised(all) =~= normalised(parts) + more);
    }
}

/// Each `..` takes away a component, as long as there is one.
proof fn lemma_climb(parts: Seq<PartView>, times: nat)
    ensures
        ({
            let n = normalised(parts);
            normalised(parts + climb(times)) == n.take(
                if times <= n.len() {
                    n.len() - times
                } else {
                    0
                },
            )
        }),
    decreases times,
{
    let n = normalised(parts);
    let all = parts + climb(times);
    if times == 0 {
        assert(all =~= parts);
        assert(n.take(n.len() as int) =~= n);
    } else {
        lemma_climb(parts, (times - 1) as nat);
        assert(all.drop_last() =~= parts + climb((times - 1) as nat));
        assert(all.last() == PartView::Parent);
        assert(normalised(all) =~= n.take(
            if times <= n.len() {
                n.len() - times
            } else {
                0
            },
        ));
    }
}

// ---------------------------------------------------------------------------
// Responses
// ---------------------------------------------------------------------------

/// How a request for a file is answered.
#[derive(Debug, Clone, Copy, PartialEq, Eq, Structural)]
pub enum Answer {
    /// The client has the file already (304).
    NotModified,
    /// A part of the file, from its first to its last position (206).
    Partial(usize, usize),
    /// The range that was asked for cannot be served (416).
    Unsatisfiable,
    /// The whole file (200).
    Whole,
}

/// Whether the request names the tag, or a date since which the file has not changed.
pub open spec fn fresh(m: HeaderMap, etag: Seq<char>, mtime: Modified) -> bool {
    ||| header_str(m, "if-none-match"@) matches Some(v) && names_etag(v, etag)
    ||| header_str(m, "if-modified-since"@) matches Some(v) && match mtime {
        Modified::Unknown => false,
        Modified::BeforeEpoch => !changed_since(0, v),
        Modified::At(t) => !changed_since(t, v),
    }
}

/// How a request with the headers `m` for a file is answered.
///
/// A client that has the file already is told so, whatever range it asks for.
pub open spec fn answer_for(m: HeaderMap, etag: Seq<char>, len: nat, mtime: Modified) -> Answer {
    if fresh(m, etag, mtime) {
        Answer::NotModified
    } else {
        match header_str(m, "range"@) {
            None => Answer::Whole,
            Some(range) => match single_range(range, len) {
                Ok((s, e)) => Answer::Partial(s as usize, e as usize),
                Err(_) => Answer::Unsatisfiable,
            },
        }
    }
}

/// Decides how a request for a file is answered.
fn decide(headers: &HeaderMap, etag: &str, len: usize, mtime: Modified) -> (r: Answer)
    ensures
        r == answer_for(*headers, etag@, len as nat, mtime),
        r matches Answer::Partial(s, e) ==> s <= e < len,
{
    if let Some(v) = get_str(headers, "if-none-match") {
        if etag_matches(v, etag) {
            return Answer::NotModified;
        }
    }
    if let Some(v) = get_str(headers, "if-modified-since") {
        let unchanged = match mtime {
            Modified::Unknown => false,
            Modified::BeforeEpoch => !is_modified_since(0, v),
            Modified::At(t) => !is_modified_since(t, v),
        };
        if unchanged {
            return Answer::NotModified;
        }
    }
    match get_str(headers, "range") {
        None => Answer::Whole,
        Some(range) => match parse_single_range(range, len) {
            Ok((s, e)) => Answer::Partial(s, e),
            Err(_) => Answer::Unsatisfiable,
        },
    }
}

/// The status code of an answer.
pub open spec fn answer_status(a: Answer) -> u16 {
    match a {
        Answer::NotModified => 304,
        Answer::Partial(_, _) => 206,
        Answer::Unsatisfiable => 416,
        Answer::Whole => 200,
    }
}

/// `bytes 2-5/13`
pub open spec fn content_range(first: nat, last: nat, len: nat) -> Seq<char> {
    "bytes "@ + decimal(first) + "-"@ + decimal(last) + "/"@ + decimal(len)
}

/// `bytes */13`
pub open spec fn content_range_unsatisfied(len: nat) -> Seq<char> {
    "bytes */"@ + decimal(len)
}

/// The headers of an answer, without `Cache-Control`.
pub open spec fn answer_headers(
    a: Answer,
    etag: Seq<char>,
    len: nat,
    mime: Seq<char>,
    mtime: Modified,
) -> Map<Seq<char>, Seq<Seq<u8>>> {
    match a {
        Answer::NotModified => with_header(no_entries(), "etag"@, etag),
        Answer::Unsatisfiable => with_header(
            no_entries(),
            "content-range"@,
            content_range_unsatisfied(len),
        ),
        Answer::Partial(s, e) => with_header(
            with_header(
                with_header(
                    with_header(no_entries(), "content-type"@, mime),
                    "content-range"@,
                    content_range(s as nat, e as nat, len),
                ),
                "content-length"@,
                decimal((e - s + 1) as nat),
            ),
            "etag"@,
            etag,
        ),
        Answer::Whole => {
            let base = with_header(
                with_header(
                    with_header(no_entries(), "content-type"@, mime),
                    "content-length"@,
                    decimal(len),
                ),
                "etag"@,
                etag,
            );
            match mtime {
                Modified::At(t) => with_header(base, "last-modified"@, http_date_text(t)),
                _ => base,
            }
        },
    }
}

/// The body of an answer; a HEAD request gets none.
pub open spec fn answer_body(a: Answer, head: bool, data: Seq<u8>) -> Seq<u8> {
    match a {
        Answer::Partial(s, e) if !head => data.subrange(s as int, e + 1),
        Answer::Whole if !head => data,
        _ => Seq::empty(),
    }
}

/// The headers with `Cache-Control`, where there is one that can be a header's value.
pub open spec fn with_cache(
    entries: Map<Seq<char>, Seq<Seq<u8>>>,
    cache_control: Option<Seq<char>>,
) -> Map<Seq<char>, Seq<Seq<u8>>> {
    match cache_control {
        Some(v) => if valid_value(encode_utf8(v)) {
            with_header(entries, "cache-control"@, v)
        } else {
            entries
        },
        None => entries,
    }
}

/// Whether there is no `Cache-Control`, or one that can be a header's value.
pub open spec fn cache_ok(cache_control: Option<Seq<char>>) -> bool {
    cache_control matches Some(v) ==> valid_value(encode_utf8(v))
}

/// The failure to put a response together.
pub open spec fn unbuildable<T>() -> Result<T, (ErrorKind, Seq<char>)> {
    Err((ErrorKind::Http, "failed to parse header value"@))
}

/// The response to a request for a file with the given MIME type.
///
/// Every response has the `Cache-Control` that is configured. Where the file or a part of it is
/// served, a `Cache-Control` or a MIME type that cannot be a header's value is an error; other
/// responses go without such a `Cache-Control`.
pub open spec fn file_response(
    head: bool,
    m: HeaderMap,
    data: Seq<u8>,
    mtime: Modified,
    mime: Seq<char>,
    cache_control: Option<Seq<char>>,
) -> Result<ReplyView, (ErrorKind, Seq<char>)> {
    let etag = etag_of(data);
    let a = answer_for(m, etag, data.len(), mtime);
    if (a is Partial || a is Whole) && !(cache_ok(cache_control) && valid_value(
        encode_utf8(mime),
    )) {
        unbuildable()
    } else {
        Ok(
            ReplyView {
                status: answer_status(a),
                headers: with_cache(
                    answer_headers(a, etag, data.len(), mime, mtime),
                    cache_control,
                ),
                body: answer_body(a, head, data),
            },
        )
    }
}

/// The error for a response that cannot be put together.
fn unbuildable_error() -> (r: OxiHttpError)
    ensures
        r@ == (ErrorKind::Http, "failed to parse header value"@),
{
    OxiHttpError::Http("failed to parse header value".to_owned())
}

/// Adds the `Cache-Control`, where there is one; `false`, and nothing done, where it cannot be a
/// header's value.
fn add_cache(m: &mut HeaderMap, cache_control: &Option<String>) -> (r: bool)
    requires
        has_room(*old(m), 1),
    ensures
        r == cache_ok(opt_chars(*cache_control)),
        header_entries(*final(m)) == with_cache(
            header_entries(*old(m)),
            opt_chars(*cache_control),
        ),
{
    proof {
        lemma_known_names();
    }
    match cache_control {
        None => true,
        Some(v) => set_text(m, "cache-control", v.as_str()),
    }
}

/// Writes `bytes 2-5/13`.
fn content_range_text(first: usize, last: usize, len: usize) -> (r: String)
    ensures
        r@ == content_range(first as nat, last as nat, len as nat),
        plain(r@),
{
    let mut out = "bytes ".to_owned();
    out.append(to_decimal(first as u64).as_str());
    out.append("-");
    out.append(to_decimal(last as u64).as_str());
    out.append("/");
    out.append(to_decimal(len as u64).as_str());
    proof {
        reveal_strlit("bytes ");
        reveal_strlit("-");
        reveal_strlit("/");
        lemma_plain_decimal(first as nat, 0);
        lemma_plain_decimal(last as nat, 0);
        lemma_plain_decimal(len as nat, 0);
        let a = "bytes "@ + decimal(first as nat);
        lemma_plain_concat("bytes "@, decimal(first as nat));
        lemma_plain_concat(a, "-"@);
        lemma_plain_concat(a + "-"@, decimal(last as nat));
        lemma_plain_concat(a + "-"@ + decimal(last as nat), "/"@);
        lemma_plain_concat(a + "-"@ + decimal(last as nat) + "/"@, decimal(len as nat));
    }
    out
}

/// Writes `bytes */13`.
fn content_range_unsatisfied_text(len: usize) -> (r: String)
    ensures
        r@ == content_range_unsatisfied(len as nat),
        plain(r@),
{
    let mut out = "bytes */".to_owned();
    out.append(to_decimal(len as u64).as_str());
    proof {
        reveal_strlit("bytes */");
        lemma_plain_decimal(len as nat, 0);
        lemma_plain_concat("bytes */"@, decimal(len as nat));
    }
    out
}

/// Sets a header to a text that is known to be plain.
fn set_plain(m: &mut HeaderMap, name: &'static str, text: &str)
    requires
        has_room(*old(m), 1),
        known_name(name@),
        plain(text@),
    ensures
        header_entries(*final(m)) == with_header(header_entries(*old(m)), name@, text@),
{
    proof {
        lemma_plain_value(text@);
    }
    set_text(m, name, text);
}

/// Answers a request for a file whose MIME type is known.
///
/// `head` says whether the request is a HEAD request.
pub fn file_reply(
    head: bool,
    headers: &HeaderMap,
    data: Vec<u8>,
    mtime: Modified,
    mime: &str,
    cache_control: &Option<String>,
) -> (r: Result<Reply, OxiHttpError>)
    ensures
        match r {
            Ok(f) => file_response(
                head,
                *headers,
                data@,
                mtime,
                mime@,
                opt_chars(*cache_control),
            ) == Ok::<ReplyView, (ErrorKind, Seq<char>)>(f@),
            Err(e) => file_response(
                head,
                *headers,
                data@,
                mtime,
                mime@,
                opt_chars(*cache_control),
            ) == Err::<ReplyView, (ErrorKind, Seq<char>)>(e@),
        },
{
    let etag = compute_etag(data.as_slice());
    let len: usize = data.len();
    let answer = decide(headers, etag.as_str(), len, mtime);
    proof {
        lemma_known_names();
        lemma_plain_decimal(len as nat, 0);
    }
    match answer {
        Answer::NotModified => {
            let mut reply = Reply::empty(304);
            set_plain(&mut reply.headers, "etag", etag.as_str());
            add_cache(&mut reply.headers, cache_control);
            Ok(reply)
        },
        Answer::Unsatisfiable => {
            let mut reply = Reply::empty(416);
            let range = content_range_unsatisfied_text(len);
            set_plain(&mut reply.headers, "content-range", range.as_str());
            add_cache(&mut reply.headers, cache_control);
            Ok(reply)
        },
        Answer::Partial(s, e) => {
            let part = slice_subrange(data.as_slice(), s, e + 1);
            assert(part@ =~= data@.subrange(s as int, e + 1));
            let body = if head {
                Bytes::new()
            } else {
                Bytes::copy_from_slice(part)
            };
            let mut reply = Reply::new(206, body);
            if !set_text(&mut reply.headers, "content-type", mime) {
                return Err(unbuildable_error());
            }
            let range = content_range_text(s, e, len);
            set_plain(&mut reply.headers, "content-range", range.as_str());
            proof {
                lemma_plain_decimal((e - s + 1) as nat, 0);
            }
            let n = to_decimal(part.len() as u64);
            set_plain(&mut reply.headers, "content-length", n.as_str());
            set_plain(&mut reply.headers, "etag", etag.as_str());
            if !add_cache(&mut reply.headers, cache_control) {
                return Err(unbuildable_error());
            }
            Ok(reply)
        },
        Answer::Whole => {
            let body = if head {
                Bytes::new()
            } else {
                bytes_from_vec(data)
            };
            let mut reply = Reply::new(200, body);
            if !set_text(&mut reply.headers, "content-type", mime) {
                return Err(unbuildable_error());
            }
            let n = to_decimal(len as u64);
            set_plain(&mut reply.headers, "content-length", n.as_str());
            set_plain(&mut reply.headers, "etag", etag.as_str());
            if let Modified::At(t) = mtime {
                let date = format_http_date(t);
                proof {
                    lemma_date_text_plain(t);
                }
                set_plain(&mut reply.headers, "last-modified", date.as_str());
            }
            if !add_cache(&mut reply.headers, cache_control) {
                return Err(unbuildable_error());
            }
            Ok(reply)
        },
    }
}

// ---------------------------------------------------------------------------
// MIME types
// ---------------------------------------------------------------------------

/// The MIME type that `mime_guess` knows for a file extension.
pub uninterp spec fn guessed_mime(ext: Seq<char>) -> Seq<char>;

/// `mime_guess::from_ext` looks the extension up in its table; `first_or_octet_stream` takes the
/// first type that it lists, and `application/octet-stream` where it lists none, as for a file
/// without an extension. The types of its table are visible ASCII and spaces.
#[verifier::external_body]
fn guess_mime(ext: &str) -> (r: String)
    ensures
        r@ == guessed_mime(ext@),
        plain(r@),
        ext@.len() == 0 ==> r@ == "application/octet-stream"@,
{
    mime_guess::from_ext(ext).first_or_octet_stream().to_string()
}

/// The MIME types by extension that were set: the last one set for an extension counts.
pub open spec fn overrides_of(list: Seq<(String, String)>) -> Map<Seq<char>, Seq<char>>
    decreases list.len(),
{
    if list.len() == 0 {
        Map::empty()
    } else {
        overrides_of(list.drop_last()).insert(list.last().0@, list.last().1@)
    }
}

/// Finds the MIME type that was set for an extension.
fn find_override<'a>(list: &'a Vec<(String, String)>, ext: &str) -> (r: Option<&'a str>)
    ensures
        match r {
            Some(t) => overrides_of(list@).contains_key(ext@) && t@ == overrides_of(list@)[ext@],
            None => !overrides_of(list@).contains_key(ext@),
        },
{
    let mut n: usize = list.len();
    assert(list@.take(n as int) =~= list@);
    while n > 0
        invariant
            n <= list@.len(),
            overrides_of(list@).contains_key(ext@) == overrides_of(
                list@.take(n as int),
            ).contains_key(ext@),
            overrides_of(list@)[ext@] == overrides_of(list@.take(n as int))[ext@],
        decreases n,
    {
        let entry = &list[n - 1];
        assert(list@.take(n as int).drop_last() =~= list@.take(n - 1));
        if same_text(entry.0.as_str(), ext) {
            return Some(entry.1.as_str());
        }
        n -= 1;
    }
    None
}

// ---------------------------------------------------------------------------
// Directories
// ---------------------------------------------------------------------------

/// A file that was found and read.
#[derive(Debug, Clone)]
pub struct ServedFile {
    /// The extension of its name, without the dot; empty where it has none.
    pub extension: String,
    /// What it holds.
    pub data: Vec<u8>,
    /// When it was last modified.
    pub modified: Modified,
}

/// What a request for a path comes to before any file is looked for.
#[derive(Debug)]
pub enum Located {
    /// It is answered without a file.
    Refused(Reply),
    /// It is for this path, relative to the root.
    File(String),
}

/// Which file is served.
#[derive(Debug, Clone, Copy, PartialEq, Eq, Structural)]
pub enum Choice {
    /// The one that was asked for.
    Requested,
    /// The fallback.
    Fallback,
    /// None.
    Missing,
}

/// A response without a body, with the `Cache-Control` that is configured where that can be a
/// header's value.
pub open spec fn refusal(status: u16, cache_control: Option<Seq<char>>) -> ReplyView {
    ReplyView { status, headers: with_cache(no_entries(), cache_control), body: Seq::empty() }
}

/// Builds a response without a body.
fn refuse(status: u16, cache_control: &Option<String>) -> (r: Reply)
    ensures
        r@ == refusal(status, opt_chars(*cache_control)),
{
    let mut reply = Reply::empty(status);
    add_cache(&mut reply.headers, cache_control);
    reply
}

/// Whether files are served for the method.
pub open spec fn reads(m: Method) -> bool {
    m@ == "GET"@ || m@ == "HEAD"@
}

/// Whether files are served for the method.
fn is_read(m: &Method) -> (r: bool)
    ensures
        r == reads(*m),
{
    m.is_named("GET") || m.is_named("HEAD")
}

/// A path without the slashes that it starts with.
pub open spec fn without_slashes(s: Seq<char>) -> Seq<char>
    decreases s.len(),
{
    if s.len() > 0 && s[0] == '/' {
        without_slashes(s.skip(1))
    } else {
        s
    }
}

/// Leaves out the slashes that a path starts with.
fn strip_slashes<'a>(s: &'a [char]) -> (r: &'a [char])
    ensures
        r@ == without_slashes(s@),
{
    let mut i: usize = 0;
    assert(s@.skip(0) =~= s@);
    while i < s.len() && s[i] == '/'
        invariant
            i <= s@.len(),
            without_slashes(s@) == without_slashes(s@.skip(i as int)),
        decreases s@.len() - i,
    {
        assert(s@.skip(i as int).skip(1) =~= s@.skip(i + 1));
        i += 1;
    }
    let n: usize = s.len();
    let r = slice_subrange(s, i, n);
    assert(r@ =~= s@.skip(i as int));
    r
}

/// Serves the files of a directory.
pub struct ServeDir {
    root: PathBuf,
    index: Option<String>,
    fallback: Option<PathBuf>,
    cache_control: Option<String>,
    mime_overrides: Vec<(String, String)>,
}

/// How a directory is served.
pub struct DirView {
    pub root: PathBuf,
    pub index: Option<Seq<char>>,
    pub fallback: Option<PathBuf>,
    pub cache_control: Option<Seq<char>>,
    pub mime_overrides: Map<Seq<char>, Seq<char>>,
}

impl View for ServeDir {
    type V = DirView;

    closed spec fn view(&self) -> DirView {
        DirView {
            root: self.root,
            index: opt_chars(self.index),
            fallback: self.fallback,
            cache_control: opt_chars(self.cache_control),
            mime_overrides: overrides_of(self.mime_overrides@),
        }
    }
}

impl DirView {
    /// The path relative to the root that a request is for, or the status with which it is
    /// refused.
    pub open spec fn target(self, method: Method, path: Seq<char>) -> Result<Seq<char>, u16> {
        let rel = without_slashes(path);
        if !reads(method) {
            Err(405)
        } else if rel.len() > 0 {
            Ok(rel)
        } else {
            match self.index {
                Some(index) => Ok(index),
                None => Err(404),
            }
        }
    }

    /// The MIME type of a file: the one that is set for its extension, or else the usual one.
    pub open spec fn mime(self, ext: Seq<char>) -> Seq<char> {
        if self.mime_overrides.contains_key(ext) {
            self.mime_overrides[ext]
        } else {
            guessed_mime(ext)
        }
    }

    /// Which file is served.
    pub open spec fn choice(self, requested_is_file: bool, fallback_is_file: bool) -> Choice {
        if requested_is_file {
            Choice::Requested
        } else if self.fallback is Some && fallback_is_file {
            Choice::Fallback
        } else {
            Choice::Missing
        }
    }

    /// The response with a file that was found.
    pub open spec fn response(self, method: Method, file: ServedFile, m: HeaderMap) -> Result<
        ReplyView,
        (ErrorKind, Seq<char>),
    > {
        if !reads(method) {
            Ok(refusal(405, self.cache_control))
        } else {
            file_response(
                method@ == "HEAD"@,
                m,
                file.data@,
                file.modified,
                self.mime(file.extension@),
                self.cache_control,
            )
        }
    }
}

impl ServeDir {
    /// Serves the files below `root`.
    pub fn new(root: PathBuf) -> (r: Self)
        ensures
            r@ == (DirView {
                root,
                index: None,
                fallback: None,
                cache_control: None,
                mime_overrides: Map::empty(),
            }),
    {
        ServeDir {
            root,
            index: None,
            fallback: None,
            cache_control: None,
            mime_overrides: Vec::new(),
        }
    }

    /// Sets the file that is served for the root itself, such as `index.html`.
    pub fn with_index(self, name: &str) -> (r: Self)
        ensures
            r@ == (DirView { index: Some(name@), ..self@ }),
    {
        ServeDir { index: Some(name.to_owned()), ..self }
    }

    /// Sets the file, relative to the root, that is served where the one asked for is missing.
    pub fn with_fallback(self, path: PathBuf) -> (r: Self)
        ensures
            r@ == (DirView { fallback: Some(path), ..self@ }),
    {
        ServeDir { fallback: Some(path), ..self }
    }

    /// Sets the `Cache-Control` of all responses. With one that cannot be a header's value no file
    /// is served, and other responses go without it.
    pub fn with_cache_control(self, value: &str) -> (r: Self)
        ensures
            r@ == (DirView { cache_control: Some(value@), ..self@ }),
    {
        ServeDir { cache_control: Some(value.to_owned()), ..self }
    }

    /// Sets the MIME type for a file extension (without the dot).
    pub fn add_mime_override(self, ext: &str, mime: &str) -> (r: Self)
        ensures
            r@ == (DirView {
                mime_overrides: self@.mime_overrides.insert(ext@, mime@),
                ..self@
            }),
    {
        let mut list = self.mime_overrides;
        let ghost before = list@;
        list.push((ext.to_owned(), mime.to_owned()));
        assert(list@.drop_last() =~= before);
        ServeDir { mime_overrides: list, ..self }
    }

    /// The directory.
    pub fn root(&self) -> (r: &PathBuf)
        ensures
            *r == self@.root,
    {
        &self.root
    }

    /// The fallback, relative to the root.
    pub fn fallback(&self) -> (r: Option<&PathBuf>)
        ensures
            match r {
                Some(p) => self@.fallback == Some(*p),
                None => self@.fallback is None,
            },
    {
        self.fallback.as_ref()
    }

    /// Says which path, relative to the root, a request is for.
    ///
    /// Methods other than GET and HEAD are not allowed (405); the root itself needs an index file
    /// (404).
    pub fn locate(&self, method: &Method, path: &str) -> (r: Located)
        ensures
            match self@.target(*method, path@) {
                Ok(rel) => r matches Located::File(p) && p@ == rel,
                Err(status) => r matches Located::Refused(f) && f@ == refusal(
                    status,
                    self@.cache_control,
                ),
            },
    {
        if !is_read(method) {
            return Located::Refused(refuse(405, &self.cache_control));
        }
        let chars = chars_of(path);
        let rel = strip_slashes(chars.as_slice());
        if rel.len() > 0 {
            return Located::File(string_of(rel));
        }
        match &self.index {
            Some(index) => Located::File(index.clone()),
            None => Located::Refused(refuse(404, &self.cache_control)),
        }
    }

    /// Refuses a path that is not inside the root (403); `None` for one that is.
    pub fn guard(&self, abs_root: &Path, joined: &Path) -> (r: Option<Reply>)
        ensures
            match r {
                None => within(path_parts(abs_root), path_parts(joined)),
                Some(f) => !within(path_parts(abs_root), path_parts(joined)) && f@ == refusal(
                    403,
                    self@.cache_control,
                ),
            },
    {
        if is_path_safe(abs_root, joined) {
            None
        } else {
            Some(refuse(403, &self.cache_control))
        }
    }

    /// Says which file is served, given whether the requested path and the fallback are files.
    pub fn choose_file(&self, requested_is_file: bool, fallback_is_file: bool) -> (r: Choice)
        ensures
            r == self@.choice(requested_is_file, fallback_is_file),
    {
        if requested_is_file {
            Choice::Requested
        } else if self.fallback.is_some() && fallback_is_file {
            Choice::Fallback
        } else {
            Choice::Missing
        }
    }

    /// The response where there is no file to serve (404).
    pub fn not_found(&self) -> (r: Reply)
        ensures
            r@ == refusal(404, self@.cache_control),
    {
        refuse(404, &self.cache_control)
    }

    /// Serves a file that was found.
    ///
    /// Only GET and HEAD are allowed; other methods get 405.
    pub fn serve(&self, method: &Method, file: ServedFile, req_headers: &HeaderMap) -> (r: Result<
        Reply,
        OxiHttpError,
    >)
        ensures
            self@.response(*method, file, *req_headers) == match r {
                Ok(f) => Ok(f@),
                Err(e) => Err(e@),
            },
            cache_ok(self@.cache_control) && !self@.mime_overrides.contains_key(file.extension@)
                ==> r is Ok,
    {
        if !is_read(method) {
            return Ok(refuse(405, &self.cache_control));
        }
        let mime = match find_override(&self.mime_overrides, file.extension.as_str()) {
            Some(t) => t.to_owned(),
            None => {
                let t = guess_mime(file.extension.as_str());
                proof {
                    lemma_plain_value(t@);
                }
                t
            },
        };
        let head = method.is_named("HEAD");
        file_reply(head, req_headers, file.data, file.modified, mime.as_str(), &self.cache_control)
    }
}

// ---------------------------------------------------------------------------
// Single files
// ---------------------------------------------------------------------------

/// Serves one file.
pub struct ServeFile {
    path: PathBuf,
    cache_control: Option<String>,
    mime_override: Option<String>,
}

/// How a file is served.
pub struct FileView {
    pub path: PathBuf,
    pub cache_control: Option<Seq<char>>,
    pub mime_override: Option<Seq<char>>,
}

impl View for ServeFile {
    type V = FileView;

    closed spec fn view(&self) -> FileView {
        FileView {
            path: self.path,
            cache_control: opt_chars(self.cache_control),
            mime_override: opt_chars(self.mime_override),
        }
    }
}

impl FileView {
    /// The response with the file.
    pub open spec fn response(self, method: Method, file: ServedFile, m: HeaderMap) -> Result<
        ReplyView,
        (ErrorKind, Seq<char>),
    > {
        if !reads(method) {
            Ok(refusal(405, self.cache_control))
        } else {
            file_response(
                method@ == "HEAD"@,
                m,
                file.data@,
                file.modified,
                match self.mime_override {
                    Some(t) => t,
                    None => guessed_mime(file.extension@),
                },
                self.cache_control,
            )
        }
    }
}

impl ServeFile {
    /// Serves the file at `path`.
    pub fn new(path: PathBuf) -> (r: Self)
        ensures
            r@ == (FileView { path, cache_control: None, mime_override: None }),
    {
        ServeFile { path, cache_control: None, mime_override: None }
    }

    /// Sets the `Cache-Control` of all responses. With one that cannot be a header's value no file
    /// is served, and other responses go without it.
    pub fn with_cache_control(self, value: &str) -> (r: Self)
        ensures
            r@ == (FileView { cache_control: Some(value@), ..self@ }),
    {
        ServeFile { cache_control: Some(value.to_owned()), ..self }
    }

    /// Sets the MIME type.
    pub fn with_mime(self, mime: &str) -> (r: Self)
        ensures
            r@ == (FileView { mime_override: Some(mime@), ..self@ }),
    {
        ServeFile { mime_override: Some(mime.to_owned()), ..self }
    }

    /// The path of the file.
    pub fn path(&self) -> (r: &PathBuf)
        ensures
            *r == self@.path,
    {
        &self.path
    }

    /// Whether the file is to be read for the method; refuses other methods with 405.
    pub fn check_method(&self, method: &Method) -> (r: Option<Reply>)
        ensures
            match r {
                None => reads(*method),
                Some(f) => !reads(*method) && f@ == refusal(405, self@.cache_control),
            },
    {
        if is_read(method) {
            None
        } else {
            Some(refuse(405, &self.cache_control))
        }
    }

    /// Serves the file, given what was read of it.
    ///
    /// Only GET and HEAD are allowed; other methods get 405.
    pub fn serve(&self, method: &Method, file: ServedFile, req_headers: &HeaderMap) -> (r: Result<
        Reply,
        OxiHttpError,
    >)
        ensures
            self@.response(*method, file, *req_headers) == match r {
                Ok(f) => Ok(f@),
                Err(e) => Err(e@),
            },
            cache_ok(self@.cache_control) && self@.mime_override is None ==> r is Ok,
    {
        if !is_read(method) {
            return Ok(refuse(405, &self.cache_control));
        }
        let mime = match &self.mime_override {
            Some(t) => t.clone(),
            None => {
                let t = guess_mime(file.extension.as_str());
                proof {
                    lemma_plain_value(t@);
                }
                t
            },
        };
        let head = method.is_named("HEAD");
        file_reply(head, req_headers, file.data, file.modified, mime.as_str(), &self.cache_control)
    }
}

// ---------------------------------------------------------------------------
// Laws
// ---------------------------------------------------------------------------

/// The digits of a byte in base sixteen are neither commas nor white space.
proof fn lemma_hex_digits(data: Seq<u8>)
    ensures
        forall|i: int| 0 <= i < hex_text(data).len() ==> hex_digit(#[trigger] hex_text(data)[i]),
    decreases data.len(),
{
    if data.len() > 0 {
        lemma_hex_digits(data.drop_last());
        let a = hex_text(data.drop_last());
        let b = hex_byte(data.last());
        reveal_with_fuel(hexadecimal, 2);
        assert(forall|i: int| 0 <= i < b.len() ==> hex_digit(#[trigger] b[i]));
        let t = hex_text(data);
        assert forall|i: int| 0 <= i < t.len() implies hex_digit(#[trigger] t[i]) by {
            if i < a.len() {
                assert(t[i] == a[i]);
            } else {
                assert(t[i] == b[i - a.len()]);
            }
        }
    }
}

/// A digit in base sixteen, in small letters.
pub open spec fn hex_digit(c: char) -> bool {
    '0' <= c <= '9' || 'a' <= c <= 'f'
}

/// A tag names itself.
proof fn lemma_tag_names_itself(data: Seq<u8>)
    ensures
        names_etag(etag_of(data), etag_of(data)),
{
    let t = etag_of(data);
    let h = hex_text(sha256_digest(data).take(16));
    lemma_hex_digits(sha256_digest(data).take(16));
    assert(t[0] == '"' && t.last() == '"');
    assert(trimmed(t) == t);
    assert(!t.contains(',')) by {
        assert forall|i: int| 0 <= i < t.len() implies t[i] != ',' by {
            if 0 < i < t.len() - 1 {
                assert(t[i] == h[i - 1]);
            }
        }
    }
    lemma_pieces_single(t, ',');
    assert(pieces(t, ',')[0] == t);
}

/// The headers with texts of their own that a response has keep apart.
proof fn lemma_header_names()
    ensures
        "etag"@ != "cache-control"@,
        "last-modified"@ != "cache-control"@,
        "etag"@ != "last-modified"@,
        "etag"@ != "content-range"@,
        "content-type"@ != "last-modified"@,
        "content-range"@ != "last-modified"@,
        "content-length"@ != "last-modified"@,
{
    reveal_strlit("etag");
    reveal_strlit("cache-control");
    reveal_strlit("last-modified");
    reveal_strlit("content-range");
    reveal_strlit("content-type");
    reveal_strlit("content-length");
    assert("last-modified"@[0] != "cache-control"@[0]);
    assert("content-range"@[0] != "last-modified"@[0]);
}

/// A client that comes back with the tag of an earlier response is told that the file has not
/// changed, as long as the file is the same.
pub proof fn law_etag_revalidates(
    first: (bool, HeaderMap, Modified),
    second: (bool, HeaderMap, Modified),
    data: Seq<u8>,
    mime: Seq<char>,
    cache_control: Option<Seq<char>>,
)
    requires
        ({
            let r = file_response(first.0, first.1, data, first.2, mime, cache_control);
            &&& r is Ok
            &&& r->Ok_0.headers.contains_key("etag"@)
            &&& header_str(second.1, "if-none-match"@) == visible_text(
                r->Ok_0.headers["etag"@][0],
            )
        }),
    ensures
        file_response(second.0, second.1, data, second.2, mime, cache_control) == Ok::<
            ReplyView,
            (ErrorKind, Seq<char>),
        >(
            ReplyView {
                status: 304,
                headers: with_cache(
                    with_header(no_entries(), "etag"@, etag_of(data)),
                    cache_control,
                ),
                body: Seq::empty(),
            },
        ),
{
    let etag = etag_of(data);
    let a = answer_for(first.1, etag, data.len(), first.2);
    let h = answer_headers(a, etag, data.len(), mime, first.2);
    lemma_header_names();
    assert(with_cache(h, cache_control)["etag"@] == h["etag"@]);
    assert(with_cache(h, cache_control).contains_key("etag"@) == h.contains_key("etag"@));
    assert(h["etag"@] == seq![encode_utf8(etag)]);
    assert(plain(etag)) by {
        let digits = hex_text(sha256_digest(data).take(16));
        lemma_hex_text(sha256_digest(data).take(16));
        lemma_plain_concat(seq!['"'], digits);
        lemma_plain_concat(seq!['"'] + digits, seq!['"']);
    }
    lemma_plain_value(etag);
    lemma_tag_names_itself(data);
}

/// A client that comes back with the date of an earlier response is told that the file has not
/// changed, as long as it was not modified again. The date is one up to the end of the year
/// 4294967295.
pub proof fn law_last_modified_revalidates(
    first: (bool, HeaderMap, Seq<u8>),
    second: (bool, HeaderMap, Seq<u8>),
    secs: u64,
    mime: Seq<char>,
    cache_control: Option<Seq<char>>,
)
    requires
        ({
            let r = file_response(
                first.0,
                first.1,
                first.2,
                Modified::At(secs),
                mime,
                cache_control,
            );
            &&& r is Ok
            &&& r->Ok_0.headers.contains_key("last-modified"@)
            &&& header_str(second.1, "if-modified-since"@) == visible_text(
                r->Ok_0.headers["last-modified"@][0],
            )
        }),
        secs < day_number(4294967296, 1, 1) * 86400,
    ensures
        file_response(
            second.0,
            second.1,
            second.2,
            Modified::At(secs),
            mime,
            cache_control,
        ) == Ok::<ReplyView, (ErrorKind, Seq<char>)>(
            ReplyView {
                status: 304,
                headers: with_cache(
                    with_header(no_entries(), "etag"@, etag_of(second.2)),
                    cache_control,
                ),
                body: Seq::empty(),
            },
        ),
{
    let etag = etag_of(first.2);
    let mtime = Modified::At(secs);
    let a = answer_for(first.1, etag, first.2.len(), mtime);
    let h = answer_headers(a, etag, first.2.len(), mime, mtime);
    lemma_header_names();
    assert(with_cache(h, cache_control)["last-modified"@] == h["last-modified"@]);
    assert(with_cache(h, cache_control).contains_key("last-modified"@) == h.contains_key(
        "last-modified"@,
    ));
    assert(h["last-modified"@] == seq![encode_utf8(http_date_text(secs))]);
    lemma_date_text_plain(secs);
    lemma_plain_value(http_date_text(secs));
    law_date_roundtrip(secs);
}

/// A HEAD request gets the status and the headers of the GET request, without the body.
pub proof fn law_head_mirrors_get(
    m: HeaderMap,
    data: Seq<u8>,
    mtime: Modified,
    mime: Seq<char>,
    cache_control: Option<Seq<char>>,
)
    ensures
        ({
            let get = file_response(false, m, data, mtime, mime, cache_control);
            let head = file_response(true, m, data, mtime, mime, cache_control);
            match get {
                Ok(g) => head == Ok::<ReplyView, (ErrorKind, Seq<char>)>(
                    ReplyView { body: Seq::empty(), ..g },
                ),
                Err(e) => head == Err::<ReplyView, (ErrorKind, Seq<char>)>(e),
            }
        }),
{
}

/// The part of a file that is served has the length that its headers announce, and is that part.
pub proof fn law_part_is_served(range: Seq<char>, data: Seq<u8>)
    requires
        data.len() <= usize::MAX,
        single_range(range, data.len()) is Ok,
    ensures
        ({
            let (s, e) = single_range(range, data.len())->Ok_0;
            let body = answer_body(Answer::Partial(s as usize, e as usize), false, data);
            &&& s <= e < data.len()
            &&& body.len() == e - s + 1
            &&& forall|i: int| 0 <= i < body.len() ==> body[i] == data[s + i]
        }),
{
}

} // verus!
