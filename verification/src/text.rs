//! Text as sequences of characters: trimming, splitting, numerals and letter case.
//!
//! The specification functions work on `Seq<char>`; the executable ones work on slices of
//! characters, so that a piece of a text is a subslice and nothing is copied while parsing.

use vstd::prelude::*;
use vstd::slice::slice_subrange;

verus! {

// ---------------------------------------------------------------------------
// Characters
// ---------------------------------------------------------------------------

/// The Unicode property `White_Space`.
pub open spec fn white(c: char) -> bool {
    let u = c as u32;
    ||| 0x09 <= u <= 0x0d
    ||| u == 0x20
    ||| u == 0x85
    ||| u == 0xa0
    ||| u == 0x1680
    ||| 0x2000 <= u <= 0x200a
    ||| u == 0x2028
    ||| u == 0x2029
    ||| u == 0x202f
    ||| u == 0x205f
    ||| u == 0x3000
}

/// Whether `c` has the Unicode property `White_Space`.
pub fn is_white(c: char) -> (r: bool)
    ensures
        r == white(c),
{
    let u: u32 = c as u32;
    (0x09 <= u && u <= 0x0d) || u == 0x20 || u == 0x85 || u == 0xa0 || u == 0x1680 || (0x2000 <= u
        && u <= 0x200a) || u == 0x2028 || u == 0x2029 || u == 0x202f || u == 0x205f || u == 0x3000
}

/// Whether `c` is one of the ten ASCII digits.
pub open spec fn digit(c: char) -> bool {
    '0' <= c <= '9'
}

/// The value of an ASCII digit.
pub open spec fn digit_value(c: char) -> nat {
    (c as u32 - '0' as u32) as nat
}

/// The character for a value below sixteen, in lower case.
pub open spec fn digit_char(d: nat) -> char {
    if d < 10 {
        (d + 48) as u8 as char
    } else {
        (d + 87) as u8 as char
    }
}

/// An ASCII capital becomes its small letter; every other character stays.
pub open spec fn lower_char(c: char) -> char {
    if 'A' <= c <= 'Z' {
        (c as u8 + 32) as u8 as char
    } else {
        c
    }
}

/// `lower_char` of every character.
pub open spec fn lower(s: Seq<char>) -> Seq<char> {
    s.map_values(|c: char| lower_char(c))
}

/// Turns an ASCII capital into its small letter.
pub fn to_lower_char(c: char) -> (r: char)
    ensures
        r == lower_char(c),
{
    if 'A' <= c && c <= 'Z' {
        (c as u8 + 32) as char
    } else {
        c
    }
}

// ---------------------------------------------------------------------------
// Whole texts
// ---------------------------------------------------------------------------

/// `String::push` appends one character.
pub assume_specification[ String::push ](s: &mut String, c: char)
    ensures
        final(s)@ == old(s)@.push(c),
;

/// The characters of `s`, in order.
pub fn chars_of(s: &str) -> (r: Vec<char>)
    ensures
        r@ == s@,
{
    let mut v: Vec<char> = Vec::new();
    for c in it: s.chars()
        invariant
            it.seq() == s@,
            v@ == s@.take(it.index() as int),
    {
        v.push(c);
    }
    v
}

/// Appends `s` to `out`.
pub fn push_chars(out: &mut String, s: &[char])
    ensures
        final(out)@ == old(out)@ + s@,
{
    let mut i: usize = 0;
    while i < s.len()
        invariant
            i <= s@.len(),
            out@ == old(out)@ + s@.take(i as int),
        decreases s@.len() - i,
    {
        out.push(s[i]);
        i += 1;
        assert(s@.take(i as int) == s@.take(i - 1).push(s@[i - 1]));
    }
    assert(s@.take(i as int) == s@);
}

/// The text with the characters of `s`.
pub fn string_of(s: &[char]) -> (r: String)
    ensures
        r@ == s@,
{
    let mut out = String::new();
    push_chars(&mut out, s);
    out
}

/// Whether two texts have the same characters.
pub fn same(a: &[char], b: &[char]) -> (r: bool)
    ensures
        r == (a@ == b@),
{
    if a.len() != b.len() {
        return false;
    }
    let mut i: usize = 0;
    while i < a.len()
        invariant
            i <= a@.len(),
            a@.len() == b@.len(),
            a@.take(i as int) == b@.take(i as int),
        decreases a@.len() - i,
    {
        if a[i] != b[i] {
            assert(a@[i as int] != b@[i as int]);
            return false;
        }
        assert(a@.take(i + 1) == a@.take(i as int).push(a@[i as int]));
        assert(b@.take(i + 1) == b@.take(i as int).push(b@[i as int]));
        i += 1;
    }
    assert(a@.take(i as int) == a@);
    assert(b@.take(i as int) == b@);
    true
}

/// Whether the characters `a` are those of the text `b`.
pub fn is_text(a: &[char], b: &str) -> (r: bool)
    ensures
        r == (a@ == b@),
{
    let b = chars_of(b);
    same(a, b.as_slice())
}

/// Whether two texts have the same characters.
pub fn same_text(a: &str, b: &str) -> (r: bool)
    ensures
        r == (a@ == b@),
{
    let a = chars_of(a);
    is_text(a.as_slice(), b)
}

/// The text with every ASCII capital made small.
pub fn to_lower(s: &str) -> (r: String)
    ensures
        r@ == lower(s@),
{
    let s = chars_of(s);
    let mut out = String::new();
    let mut i: usize = 0;
    while i < s.len()
        invariant
            i <= s@.len(),
            out@ == lower(s@.take(i as int)),
        decreases s@.len() - i,
    {
        out.push(to_lower_char(s[i]));
        assert(lower(s@.take(i + 1)) == lower(s@.take(i as int)).push(lower_char(s@[i as int])));
        i += 1;
    }
    assert(s@.take(i as int) == s@);
    out
}

/// The texts of `list`, with `sep` between each two of them.
pub open spec fn joined(list: Seq<Seq<char>>, sep: Seq<char>) -> Seq<char>
    decreases list.len(),
{
    if list.len() == 0 {
        Seq::empty()
    } else if list.len() == 1 {
        list[0]
    } else {
        joined(list.drop_last(), sep) + sep + list.last()
    }
}

/// The characters of each text of `list`.
pub open spec fn string_texts(list: Seq<String>) -> Seq<Seq<char>> {
    list.map_values(|s: String| s@)
}

/// The characters of an optional text.
pub open spec fn opt_chars(s: Option<String>) -> Option<Seq<char>> {
    match s {
        Some(t) => Some(t@),
        None => None,
    }
}

/// Joins the texts of `list`, with `sep` between each two of them.
pub fn join(list: &Vec<String>, sep: &str) -> (r: String)
    ensures
        r@ == joined(string_texts(list@), sep@),
{
    let mut out = String::new();
    let mut i: usize = 0;
    let ghost all = string_texts(list@);
    while i < list.len()
        invariant
            i <= list@.len(),
            all == string_texts(list@),
            out@ == joined(all.take(i as int), sep@),
        decreases list@.len() - i,
    {
        if i > 0 {
            out.append(sep);
        }
        out.append(list[i].as_str());
        assert(all.take(i + 1).drop_last() == all.take(i as int));
        i += 1;
    }
    assert(all.take(i as int) == all);
    out
}

// ---------------------------------------------------------------------------
// Trimming
// ---------------------------------------------------------------------------

/// `s` without the white space that it starts with.
pub open spec fn trimmed_start(s: Seq<char>) -> Seq<char>
    decreases s.len(),
{
    if s.len() > 0 && white(s[0]) {
        trimmed_start(s.skip(1))
    } else {
        s
    }
}

/// `s` without the white space that it ends with.
pub open spec fn trimmed_end(s: Seq<char>) -> Seq<char>
    decreases s.len(),
{
    if s.len() > 0 && white(s.last()) {
        trimmed_end(s.drop_last())
    } else {
        s
    }
}

/// `s` without the white space at both ends.
pub open spec fn trimmed(s: Seq<char>) -> Seq<char> {
    trimmed_end(trimmed_start(s))
}

/// Leaves out the white space that `s` starts with.
pub fn trim_start<'a>(s: &'a [char]) -> (r: &'a [char])
    ensures
        r@ == trimmed_start(s@),
{
    let mut i: usize = 0;
    assert(s@.skip(0) == s@);
    while i < s.len() && is_white(s[i])
        invariant
            i <= s@.len(),
            trimmed_start(s@) == trimmed_start(s@.skip(i as int)),
        decreases s@.len() - i,
    {
        assert(s@.skip(i as int).skip(1) == s@.skip(i + 1));
        i += 1;
    }
    let r = slice_subrange(s, i, s.len());
    assert(r@ == s@.skip(i as int));
    r
}

/// Leaves out the white space at both ends of `s`.
pub fn trim<'a>(s: &'a [char]) -> (r: &'a [char])
    ensures
        r@ == trimmed(s@),
{
    let s = trim_start(s);
    let mut n: usize = s.len();
    assert(s@.take(n as int) == s@);
    while n > 0 && is_white(s[n - 1])
        invariant
            n <= s@.len(),
            trimmed_end(s@) == trimmed_end(s@.take(n as int)),
        decreases n,
    {
        assert(s@.take(n as int).drop_last() == s@.take(n - 1));
        n -= 1;
    }
    let r = slice_subrange(s, 0, n);
    assert(r@ == s@.take(n as int));
    r
}

// ---------------------------------------------------------------------------
// Searching and splitting
// ---------------------------------------------------------------------------

/// The position of the first `c` in `s`.
pub open spec fn position(s: Seq<char>, c: char) -> Option<nat>
    decreases s.len(),
{
    if s.len() == 0 {
        None
    } else if s[0] == c {
        Some(0)
    } else {
        match position(s.skip(1), c) {
            Some(i) => Some(i + 1),
            None => None,
        }
    }
}

/// The position of the last `c` in `s`.
pub open spec fn last_position(s: Seq<char>, c: char) -> Option<nat>
    decreases s.len(),
{
    if s.len() == 0 {
        None
    } else if s.last() == c {
        Some((s.len() - 1) as nat)
    } else {
        last_position(s.drop_last(), c)
    }
}

/// The position at which `pat` first occurs in `s`.
pub open spec fn position_of(s: Seq<char>, pat: Seq<char>) -> Option<nat>
    decreases s.len(),
{
    if s.len() < pat.len() {
        None
    } else if s.take(pat.len() as int) == pat {
        Some(0)
    } else if s.len() == 0 {
        None
    } else {
        match position_of(s.skip(1), pat) {
            Some(i) => Some(i + 1),
            None => None,
        }
    }
}

/// What `position` says about the characters of `s`.
pub proof fn lemma_position(s: Seq<char>, c: char)
    ensures
        position(s, c) matches Some(i) ==> i < s.len() && s[i as int] == c && forall|j: int|
            0 <= j < i ==> s[j] != c,
        position(s, c) is None ==> forall|j: int| 0 <= j < s.len() ==> s[j] != c,
    decreases s.len(),
{
    if s.len() > 0 && s[0] != c {
        lemma_position(s.skip(1), c);
        let t = s.skip(1);
        assert(forall|j: int| 0 < j < s.len() ==> s[j] == t[j - 1]);
    }
}

/// Where the first `c` of `s` stands.
pub proof fn lemma_position_at(s: Seq<char>, c: char, i: nat)
    requires
        i < s.len(),
        s[i as int] == c,
        forall|j: int| 0 <= j < i ==> s[j] != c,
    ensures
        position(s, c) == Some(i),
    decreases s.len(),
{
    if i > 0 {
        lemma_position_at(s.skip(1), c, (i - 1) as nat);
    }
}

/// A text without `c` has no position of `c`.
pub proof fn lemma_position_none(s: Seq<char>, c: char)
    requires
        forall|j: int| 0 <= j < s.len() ==> s[j] != c,
    ensures
        position(s, c) is None,
    decreases s.len(),
{
    if s.len() > 0 {
        lemma_position_none(s.skip(1), c);
    }
}

/// Finds the first `c` in `s`.
pub fn find(s: &[char], c: char) -> (r: Option<usize>)
    ensures
        r matches Some(i) ==> position(s@, c) == Some(i as nat) && i < s@.len(),
        r is None ==> position(s@, c) is None,
{
    let mut i: usize = 0;
    while i < s.len()
        invariant
            i <= s@.len(),
            forall|j: int| 0 <= j < i ==> s@[j] != c,
        decreases s@.len() - i,
    {
        if s[i] == c {
            proof {
                lemma_position_at(s@, c, i as nat);
            }
            return Some(i);
        }
        i += 1;
    }
    proof {
        lemma_position_none(s@, c);
    }
    None
}

/// Finds the last `c` in `s`.
pub fn rfind(s: &[char], c: char) -> (r: Option<usize>)
    ensures
        r matches Some(i) ==> last_position(s@, c) == Some(i as nat) && i < s@.len(),
        r is None ==> last_position(s@, c) is None,
{
    let mut n: usize = s.len();
    assert(s@.take(n as int) == s@);
    while n > 0
        invariant
            n <= s@.len(),
            last_position(s@, c) == last_position(s@.take(n as int), c),
        decreases n,
    {
        if s[n - 1] == c {
            return Some(n - 1);
        }
        assert(s@.take(n as int).drop_last() == s@.take(n - 1));
        n -= 1;
    }
    None
}

/// Finds the first occurrence of `pat` in `s`.
pub fn find_text(s: &[char], pat: &str) -> (r: Option<usize>)
    requires
        pat@.len() > 0,
    ensures
        r matches Some(i) ==> position_of(s@, pat@) == Some(i as nat) && i + pat@.len() <= s@.len(),
        r is None ==> position_of(s@, pat@) is None,
{
    let p = chars_of(pat);
    let mut i: usize = 0;
    assert(s@.skip(0) == s@);
    while i < s.len() && p.len() <= s.len() - i
        invariant
            i <= s@.len(),
            p@ == pat@,
            p@.len() > 0,
            position_of(s@.skip(i as int), p@) matches Some(k) ==> position_of(s@, p@) == Some(
                (i + k) as nat,
            ),
            position_of(s@.skip(i as int), p@) is None ==> position_of(s@, p@) is None,
        decreases s@.len() - i,
    {
        let w = slice_subrange(s, i, i + p.len());
        assert(w@ == s@.skip(i as int).take(p@.len() as int));
        if same(w, p.as_slice()) {
            return Some(i);
        }
        assert(s@.skip(i as int).skip(1) == s@.skip(i + 1));
        i += 1;
    }
    None
}

/// The pieces of `s` between the occurrences of `c`.
pub open spec fn pieces(s: Seq<char>, c: char) -> Seq<Seq<char>>
    decreases s.len(),
    via pieces_decreases
{
    match position(s, c) {
        None => seq![s],
        Some(i) => seq![s.take(i as int)] + pieces(s.skip(i as int + 1), c),
    }
}

#[via_fn]
proof fn pieces_decreases(s: Seq<char>, c: char) {
    lemma_position(s, c);
}

/// The pieces of a text without `c`.
pub proof fn lemma_pieces_single(s: Seq<char>, c: char)
    requires
        !s.contains(c),
    ensures
        pieces(s, c) == seq![s],
{
    lemma_position(s, c);
}

/// The pieces of a text without `c`, a `c` and a rest.
pub proof fn lemma_pieces_cons(s: Seq<char>, c: char, rest: Seq<char>)
    requires
        !s.contains(c),
    ensures
        pieces(s + seq![c] + rest, c) == seq![s] + pieces(rest, c),
{
    let t = s + seq![c] + rest;
    assert(forall|j: int| 0 <= j < s.len() ==> t[j] == s[j] && s.contains(s[j]));
    lemma_position_at(t, c, s.len());
    assert(t.take(s.len() as int) =~= s);
    assert(t.skip(s.len() as int + 1) =~= rest);
}

/// The pieces of a text are at least one, and none of them holds `c`.
pub proof fn lemma_pieces_parts(s: Seq<char>, c: char)
    ensures
        pieces(s, c).len() > 0,
        forall|i: int| 0 <= i < pieces(s, c).len() ==> !(#[trigger] pieces(s, c)[i]).contains(c),
    decreases s.len(),
{
    lemma_position(s, c);
    if let Some(i) = position(s, c) {
        let rest = s.skip(i as int + 1);
        lemma_pieces_parts(rest, c);
        assert forall|j: int| 0 <= j < pieces(s, c).len() implies !(#[trigger] pieces(
            s,
            c,
        )[j]).contains(c) by {
            if j > 0 {
                assert(pieces(s, c)[j] == pieces(rest, c)[j - 1]);
            }
        }
    }
}

/// A text put in front of others.
proof fn lemma_joined_cons(first: Seq<char>, list: Seq<Seq<char>>, sep: Seq<char>)
    requires
        list.len() > 0,
    ensures
        joined(seq![first] + list, sep) == first + sep + joined(list, sep),
    decreases list.len(),
{
    let all = seq![first] + list;
    if list.len() == 1 {
        assert(all.drop_last() =~= seq![first]);
        assert(joined(all.drop_last(), sep) == first);
    } else {
        lemma_joined_cons(first, list.drop_last(), sep);
        assert(all.drop_last() =~= seq![first] + list.drop_last());
        assert(joined(all, sep) =~= first + sep + joined(list, sep));
    }
}

/// The pieces of a text, joined again, are the text.
pub proof fn lemma_joined_pieces(s: Seq<char>, c: char)
    ensures
        joined(pieces(s, c), seq![c]) == s,
    decreases s.len(),
{
    lemma_position(s, c);
    if let Some(i) = position(s, c) {
        let rest = s.skip(i as int + 1);
        lemma_joined_pieces(rest, c);
        lemma_pieces_parts(rest, c);
        lemma_joined_cons(s.take(i as int), pieces(rest, c), seq![c]);
        assert(s.take(i as int) + seq![c] + rest =~= s);
    }
}

/// Texts that do not hold `c`, joined by it, are the pieces of what they are joined to.
pub proof fn lemma_pieces_joined(list: Seq<Seq<char>>, c: char)
    requires
        list.len() > 0,
        forall|i: int| 0 <= i < list.len() ==> !(#[trigger] list[i]).contains(c),
    ensures
        pieces(joined(list, seq![c]), c) == list,
    decreases list.len(),
{
    if list.len() == 1 {
        lemma_pieces_single(list[0], c);
        assert(list =~= seq![list[0]]);
    } else {
        let rest = list.skip(1);
        assert forall|i: int| 0 <= i < rest.len() implies !(#[trigger] rest[i]).contains(c) by {
            assert(rest[i] == list[i + 1]);
        }
        lemma_pieces_joined(rest, c);
        assert(list =~= seq![list[0]] + rest);
        lemma_joined_cons(list[0], rest, seq![c]);
        lemma_pieces_cons(list[0], c, joined(rest, seq![c]));
    }
}

/// The characters of each slice.
pub open spec fn slice_texts(v: Seq<&[char]>) -> Seq<Seq<char>> {
    v.map_values(|x: &[char]| x@)
}

proof fn lemma_slice_texts_push(v: Seq<&[char]>, x: &[char])
    ensures
        slice_texts(v.push(x)) == slice_texts(v).push(x@),
{
    assert(slice_texts(v.push(x)) =~= slice_texts(v).push(x@));
}

/// Splits `s` at every `c`.
pub fn split<'a>(s: &'a [char], c: char) -> (r: Vec<&'a [char]>)
    ensures
        slice_texts(r@) == pieces(s@, c),
        r@.len() > 0,
{
    let mut out: Vec<&'a [char]> = Vec::new();
    let mut rest: &'a [char] = s;
    assert(slice_texts(out@) =~= Seq::<Seq<char>>::empty());
    assert(slice_texts(out@) + pieces(rest@, c) =~= pieces(s@, c));
    loop
        invariant
            slice_texts(out@) + pieces(rest@, c) == pieces(s@, c),
        decreases rest@.len(),
    {
        match find(rest, c) {
            None => {
                proof {
                    lemma_slice_texts_push(out@, rest);
                    assert(pieces(rest@, c) == seq![rest@]);
                    assert(slice_texts(out@) + seq![rest@] =~= slice_texts(out@).push(rest@));
                }
                out.push(rest);
                return out;
            },
            Some(i) => {
                let n: usize = rest.len();
                let piece = slice_subrange(rest, 0, i);
                let next = slice_subrange(rest, i + 1, n);
                proof {
                    lemma_slice_texts_push(out@, piece);
                    assert(piece@ =~= rest@.take(i as int));
                    assert(next@ =~= rest@.skip(i + 1));
                    assert(pieces(rest@, c) == seq![piece@] + pieces(next@, c));
                    assert(slice_texts(out@) + (seq![piece@] + pieces(next@, c)) =~= slice_texts(
                        out@,
                    ).push(piece@) + pieces(next@, c));
                }
                out.push(piece);
                rest = next;
            },
        }
    }
}

/// How many characters `s` has before its first white space.
pub open spec fn word_len(s: Seq<char>) -> nat
    decreases s.len(),
{
    if s.len() == 0 || white(s[0]) {
        0
    } else {
        word_len(s.skip(1)) + 1
    }
}

/// A word is no longer than the text.
pub proof fn lemma_word_len(s: Seq<char>)
    ensures
        word_len(s) <= s.len(),
    decreases s.len(),
{
    if s.len() > 0 && !white(s[0]) {
        lemma_word_len(s.skip(1));
    }
}

proof fn lemma_trimmed_start_len(s: Seq<char>)
    ensures
        trimmed_start(s).len() <= s.len(),
        trimmed_start(s).len() > 0 ==> !white(trimmed_start(s)[0]),
    decreases s.len(),
{
    if s.len() > 0 && white(s[0]) {
        lemma_trimmed_start_len(s.skip(1));
    }
}

/// The words of `s`: its longest pieces without white space.
pub open spec fn words(s: Seq<char>) -> Seq<Seq<char>>
    decreases s.len(),
    via words_decreases
{
    let t = trimmed_start(s);
    if t.len() == 0 {
        Seq::empty()
    } else {
        seq![t.take(word_len(t) as int)] + words(t.skip(word_len(t) as int))
    }
}

#[via_fn]
proof fn words_decreases(s: Seq<char>) {
    lemma_trimmed_start_len(s);
    lemma_word_len(trimmed_start(s));
}

/// Whether no character of `s` is white space.
pub open spec fn no_white(s: Seq<char>) -> bool {
    forall|i: int| 0 <= i < s.len() ==> !white(#[trigger] s[i])
}

/// A text without white space is measured up to the white space that follows it.
proof fn lemma_word_len_of(w: Seq<char>, rest: Seq<char>)
    requires
        no_white(w),
        rest.len() == 0 || white(rest[0]),
    ensures
        word_len(w + rest) == w.len(),
    decreases w.len(),
{
    if w.len() > 0 {
        assert(w[0] == (w + rest)[0]);
        assert((w + rest).skip(1) =~= w.skip(1) + rest);
        assert(no_white(w.skip(1))) by {
            assert(forall|i: int| 0 <= i < w.len() - 1 ==> w.skip(1)[i] == w[i + 1]);
        }
        lemma_word_len_of(w.skip(1), rest);
    } else {
        assert(w + rest =~= rest);
    }
}

/// The words of a text that is one word.
pub proof fn lemma_words_single(w: Seq<char>)
    requires
        no_white(w),
        w.len() > 0,
    ensures
        words(w) == seq![w],
{
    lemma_word_len_of(w, Seq::empty());
    assert(w + Seq::<char>::empty() =~= w);
    assert(!white(w[0]));
    assert(trimmed_start(w) == w);
    assert(w.take(w.len() as int) =~= w);
    assert(w.skip(w.len() as int) =~= Seq::empty());
    assert(words(Seq::<char>::empty()) =~= Seq::empty());
    assert(words(w) =~= seq![w]);
}

/// The words of a word, a space and a rest.
pub proof fn lemma_words_cons(w: Seq<char>, rest: Seq<char>)
    requires
        no_white(w),
        w.len() > 0,
    ensures
        words(w + seq![' '] + rest) == seq![w] + words(rest),
{
    let s = w + seq![' '] + rest;
    let tail = seq![' '] + rest;
    assert(s =~= w + tail);
    lemma_word_len_of(w, tail);
    assert(!white(w[0]));
    assert(s[0] == w[0]);
    assert(trimmed_start(s) == s);
    assert(s.take(w.len() as int) =~= w);
    assert(s.skip(w.len() as int) =~= tail);
    assert(tail.skip(1) =~= rest);
    assert(trimmed_start(tail) == trimmed_start(rest));
    assert(words(tail) == words(rest));
}

/// Splits `s` into its words.
pub fn split_words<'a>(s: &'a [char]) -> (r: Vec<&'a [char]>)
    ensures
        slice_texts(r@) == words(s@),
{
    let mut out: Vec<&'a [char]> = Vec::new();
    let mut rest: &'a [char] = s;
    assert(slice_texts(out@) =~= Seq::<Seq<char>>::empty());
    assert(slice_texts(out@) + words(rest@) =~= words(s@));
    loop
        invariant
            slice_texts(out@) + words(rest@) == words(s@),
        decreases rest@.len(),
    {
        let t = trim_start(rest);
        proof {
            lemma_trimmed_start_len(rest@);
            lemma_word_len(t@);
        }
        if t.len() == 0 {
            assert(words(rest@) =~= Seq::empty());
            assert(slice_texts(out@) + Seq::<Seq<char>>::empty() =~= slice_texts(out@));
            return out;
        }
        let mut n: usize = 0;
        assert(t@.skip(0) == t@);
        while n < t.len() && !is_white(t[n])
            invariant
                n <= t@.len(),
                word_len(t@) == n + word_len(t@.skip(n as int)),
            decreases t@.len() - n,
        {
            assert(t@.skip(n as int).skip(1) == t@.skip(n + 1));
            n += 1;
        }
        let word = slice_subrange(t, 0, n);
        let next = slice_subrange(t, n, t.len());
        proof {
            assert(word_len(t@) == n);
            lemma_slice_texts_push(out@, word);
            assert(word@ =~= t@.take(n as int));
            assert(next@ =~= t@.skip(n as int));
            assert(words(rest@) == seq![word@] + words(next@));
            assert(slice_texts(out@) + (seq![word@] + words(next@)) =~= slice_texts(out@).push(
                word@,
            ) + words(next@));
        }
        out.push(word);
        rest = next;
    }
}

// ---------------------------------------------------------------------------
// Numerals
// ---------------------------------------------------------------------------

/// Whether every character is an ASCII digit.
pub open spec fn all_digits(s: Seq<char>) -> bool {
    forall|i: int| 0 <= i < s.len() ==> digit(#[trigger] s[i])
}

/// The number that a row of digits writes in base ten.
pub open spec fn value_of(s: Seq<char>) -> nat
    decreases s.len(),
{
    if s.len() == 0 {
        0
    } else {
        value_of(s.drop_last()) * 10 + digit_value(s.last())
    }
}

/// The number that `s` writes: digits after an optional plus sign, of a value up to `max`.
pub open spec fn number_of(s: Seq<char>, max: nat) -> Option<nat> {
    let d = if s.len() > 0 && s[0] == '+' {
        s.skip(1)
    } else {
        s
    };
    if d.len() > 0 && all_digits(d) && value_of(d) <= max {
        Some(value_of(d))
    } else {
        None
    }
}

proof fn lemma_value_grows(s: Seq<char>, n: int)
    requires
        0 <= n <= s.len(),
    ensures
        value_of(s.take(n)) <= value_of(s),
    decreases s.len(),
{
    if n < s.len() {
        lemma_value_grows(s.drop_last(), n);
        assert(s.drop_last().take(n) == s.take(n));
    } else {
        assert(s.take(n) == s);
    }
}

/// Reads a number up to `max`.
pub fn parse_number(s: &[char], max: u64) -> (r: Option<u64>)
    requires
        max >= 9,
    ensures
        r matches Some(v) ==> number_of(s@, max as nat) == Some(v as nat) && v <= max,
        r is None ==> number_of(s@, max as nat) is None,
{
    let d = if s.len() > 0 && s[0] == '+' {
        slice_subrange(s, 1, s.len())
    } else {
        s
    };
    assert(d@ == if s@.len() > 0 && s@[0] == '+' {
        s@.skip(1)
    } else {
        s@
    });
    if d.len() == 0 {
        return None;
    }
    let mut v: u64 = 0;
    let mut i: usize = 0;
    while i < d.len()
        invariant
            i <= d@.len(),
            d@ == if s@.len() > 0 && s@[0] == '+' {
                s@.skip(1)
            } else {
                s@
            },
            max >= 9,
            v <= max,
            v == value_of(d@.take(i as int)),
            forall|j: int| 0 <= j < i ==> digit(#[trigger] d@[j]),
        decreases d@.len() - i,
    {
        let c = d[i];
        if !('0' <= c && c <= '9') {
            assert(!digit(d@[i as int]));
            return None;
        }
        let x: u64 = (c as u32 - '0' as u32) as u64;
        proof {
            assert(d@.take(i + 1).drop_last() == d@.take(i as int));
            lemma_value_grows(d@, i + 1);
        }
        if v > (max - x) / 10 {
            return None;
        }
        v = v * 10 + x;
        i += 1;
    }
    assert(d@.take(i as int) == d@);
    Some(v)
}

/// The numeral of `n` in base ten.
pub open spec fn decimal(n: nat) -> Seq<char>
    decreases n,
{
    if n < 10 {
        seq![digit_char(n)]
    } else {
        decimal(n / 10).push(digit_char(n % 10))
    }
}

/// The numeral of `n` in base sixteen, in small letters.
pub open spec fn hexadecimal(n: nat) -> Seq<char>
    decreases n,
{
    if n < 16 {
        seq![digit_char(n)]
    } else {
        hexadecimal(n / 16).push(digit_char(n % 16))
    }
}

/// `s` with so many zeros in front that it has at least `width` characters.
pub open spec fn zero_padded(s: Seq<char>, width: nat) -> Seq<char> {
    if s.len() >= width {
        s
    } else {
        Seq::new((width - s.len()) as nat, |i: int| '0') + s
    }
}

/// Writing a number and reading the digits gives the number back.
pub proof fn lemma_decimal_value(n: nat)
    ensures
        decimal(n).len() > 0,
        all_digits(decimal(n)),
        value_of(decimal(n)) == n,
    decreases n,
{
    if n < 10 {
        assert(decimal(n).drop_last() =~= Seq::<char>::empty());
        assert(value_of(decimal(n)) == value_of(decimal(n).drop_last()) * 10 + digit_value(
            decimal(n).last(),
        ));
    } else {
        lemma_decimal_value(n / 10);
        assert(decimal(n).drop_last() =~= decimal(n / 10));
    }
}

/// Zeros in front of a row of digits change neither that it is one nor its value.
pub proof fn lemma_zero_padded_value(s: Seq<char>, width: nat)
    requires
        all_digits(s),
    ensures
        all_digits(zero_padded(s, width)),
        value_of(zero_padded(s, width)) == value_of(s),
        zero_padded(s, width).len() >= s.len(),
        zero_padded(s, width).len() >= width,
    decreases s.len(), width,
{
    let p = zero_padded(s, width);
    if s.len() >= width {
    } else if s.len() == 0 {
        lemma_zero_padded_value(s, (width - 1) as nat);
        assert(p.drop_last() =~= zero_padded(s, (width - 1) as nat));
        assert(p.last() == '0');
    } else {
        lemma_zero_padded_value(s.drop_last(), (width - 1) as nat);
        assert(p.drop_last() =~= zero_padded(s.drop_last(), (width - 1) as nat));
        assert(p.last() == s.last());
    }
}

/// The character for a value below sixteen.
fn to_digit_char(d: u8) -> (r: char)
    requires
        d < 16,
    ensures
        r == digit_char(d as nat),
{
    if d < 10 {
        (d + 48) as char
    } else {
        (d + 87) as char
    }
}

/// The numeral of `n` in base ten.
pub fn to_decimal(n: u64) -> (r: String)
    ensures
        r@ == decimal(n as nat),
    decreases n,
{
    if n < 10 {
        let mut out = String::new();
        out.push(to_digit_char(n as u8));
        assert(out@ =~= decimal(n as nat));
        out
    } else {
        let mut out = to_decimal(n / 10);
        out.push(to_digit_char((n % 10) as u8));
        out
    }
}

/// The numeral of a wide number in base ten.
pub fn to_decimal_wide(n: u128) -> (r: String)
    ensures
        r@ == decimal(n as nat),
    decreases n,
{
    if n <= u64::MAX as u128 {
        return to_decimal(n as u64);
    }
    let mut out = to_decimal_wide(n / 10);
    out.push(to_digit_char((n % 10) as u8));
    out
}

/// The numeral of `n` in base sixteen, in small letters.
pub fn to_hexadecimal(n: u64) -> (r: String)
    ensures
        r@ == hexadecimal(n as nat),
    decreases n,
{
    if n < 16 {
        let mut out = String::new();
        out.push(to_digit_char(n as u8));
        assert(out@ =~= hexadecimal(n as nat));
        out
    } else {
        let mut out = to_hexadecimal(n / 16);
        out.push(to_digit_char((n % 16) as u8));
        out
    }
}

/// Puts zeros in front of `s` until it has at least `width` characters.
pub fn pad_zeros(s: String, width: usize) -> (r: String)
    ensures
        r@ == zero_padded(s@, width as nat),
{
    let n: usize = s.as_str().unicode_len();
    if n >= width {
        return s;
    }
    let mut out = String::new();
    let mut i: usize = 0;
    while i < width - n
        invariant
            n < width,
            i <= width - n,
            out@ == Seq::new(i as nat, |k: int| '0'),
        decreases width - n - i,
    {
        out.push('0');
        i += 1;
        assert(out@ =~= Seq::new(i as nat, |k: int| '0'));
    }
    out.append(s.as_str());
    out
}

} // verus!
