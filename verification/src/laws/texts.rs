//! Texts: letters, white space, searching, splitting and numerals.

use vstd::prelude::*;

use crate::text::{
    all_digits, chars_of, decimal, digit, digit_value, find, find_text, hexadecimal, is_text,
    is_white, join, joined, last_position, lemma_joined_pieces, lemma_pieces_parts, lemma_position,
    lemma_words_single, no_white, number_of, pad_zeros, parse_number, pieces, position_of,
    push_chars, rfind, same, same_text, slice_texts, split, split_words, string_of, string_texts,
    to_decimal, to_decimal_wide, to_hexadecimal, to_lower, to_lower_char, trim, trim_start, trimmed,
    trimmed_end, trimmed_start, value_of, white, words,
};

verus! {

/// The ASCII capitals become the letters 32 places on; every other character stays.
pub proof fn law_to_lower(s: &str, r: String, c: char, small: char)
    requires
        call_ensures(to_lower, (s,), r),
        call_ensures(to_lower_char, (c,), small),
    ensures
        r@.len() == s@.len(),
        forall|i: int|
            0 <= i < s@.len() ==> (#[trigger] r@[i]) as u32 == if 0x41 <= s@[i] as u32 <= 0x5a {
                s@[i] as u32 + 32
            } else {
                s@[i] as u32 as int
            },
        small as u32 == if 0x41 <= c as u32 <= 0x5a {
            c as u32 + 32
        } else {
            c as u32 as int
        },
{
}

/// White space is what Unicode lists as such.
pub proof fn law_white(c: char, r: bool)
    requires
        call_ensures(is_white, (c,), r),
    ensures
        r <==> "\t\n\u{b}\u{c}\r \u{85}\u{a0}\u{1680}\u{2028}\u{2029}\u{202f}\u{205f}\u{3000}"@.contains(c)
            || 0x2000 <= c as u32 <= 0x200a,
{
    let list = "\t\n\u{b}\u{c}\r \u{85}\u{a0}\u{1680}\u{2028}\u{2029}\u{202f}\u{205f}\u{3000}"@;
    reveal_strlit(
        "\t\n\u{b}\u{c}\r \u{85}\u{a0}\u{1680}\u{2028}\u{2029}\u{202f}\u{205f}\u{3000}",
    );
    assert(list.len() == 14);
    assert(list[0] as u32 == 0x9 && list[1] as u32 == 0xa && list[2] as u32 == 0xb && list[3] as u32
        == 0xc && list[4] as u32 == 0xd && list[5] as u32 == 0x20 && list[6] as u32 == 0x85
        && list[7] as u32 == 0xa0 && list[8] as u32 == 0x1680 && list[9] as u32 == 0x2028
        && list[10] as u32 == 0x2029 && list[11] as u32 == 0x202f && list[12] as u32 == 0x205f
        && list[13] as u32 == 0x3000);
}

/// Taking a text apart and putting it together keep its characters, and texts are the same where
/// their characters are.
pub proof fn law_characters_kept(
    s: &str,
    t: &str,
    chars: Vec<char>,
    slice: &[char],
    text: String,
    other: &[char],
    equal: bool,
    matching: bool,
    alike: bool,
)
    requires
        call_ensures(same, (slice, other), alike),
        call_ensures(chars_of, (s,), chars),
        call_ensures(string_of, (slice,), text),
        call_ensures(same_text, (s, t), equal),
        call_ensures(is_text, (slice, t), matching),
    ensures
        chars@ == s@,
        text@ == slice@,
        equal <==> s@ == t@,
        matching <==> slice@ == t@,
        alike <==> slice@ == other@,
{
}

/// Appending puts the characters behind those that are there.
pub proof fn law_push_chars(out: &mut String, s: &[char])
    requires
        call_ensures(push_chars, (out, s), ()),
    ensures
        (*final(out))@ == (*old(out))@ + s@,
{
}

/// A list that is joined grows by the separator and the text that is added; the first text comes
/// without a separator.
pub proof fn law_join_grows(
    list: &Vec<String>,
    longer: &Vec<String>,
    sep: &str,
    r: String,
    s: String,
)
    requires
        call_ensures(join, (list, sep), r),
        call_ensures(join, (longer, sep), s),
        longer@.len() == list@.len() + 1,
        forall|i: int| 0 <= i < list@.len() ==> longer@[i]@ == (#[trigger] list@[i])@,
    ensures
        list@.len() == 0 ==> r@ == Seq::<char>::empty() && s@ == longer@[0]@,
        list@.len() > 0 ==> s@ == r@ + sep@ + longer@.last()@,
{
    let a = string_texts(list@);
    let b = string_texts(longer@);
    assert(b.drop_last() =~= a);
}

/// Trimming takes white space away, and all of it at both ends.
pub proof fn law_trim<'a>(s: &'a [char], r: &'a [char], front: &'a [char])
    requires
        call_ensures(trim, (s,), r),
        call_ensures(trim_start, (s,), front),
    ensures
        exists|a: int, b: int|
            #![trigger s@.subrange(a, b)]
            0 <= a <= b <= s@.len() && r@ == s@.subrange(a, b) && (forall|i: int|
                0 <= i < a ==> white(#[trigger] s@[i])) && (forall|i: int|
                b <= i < s@.len() ==> white(#[trigger] s@[i])),
        r@.len() > 0 ==> !white(r@[0]) && !white(r@.last()),
        front@.len() <= s@.len() && front@ == s@.skip(s@.len() - front@.len()),
        forall|i: int| 0 <= i < s@.len() - front@.len() ==> white(#[trigger] s@[i]),
        front@.len() > 0 ==> !white(front@[0]),
{
    lemma_trimmed_start(s@);
    let t = trimmed_start(s@);
    lemma_trimmed_end(t);
    let a = s@.len() - t.len();
    let b = a + trimmed(s@).len();
    assert(s@.subrange(a, b) =~= trimmed(s@));
    assert forall|i: int| b <= i < s@.len() implies white(#[trigger] s@[i]) by {
        assert(s@[i] == t[i - a]);
    }
}

proof fn lemma_trimmed_start(s: Seq<char>)
    ensures
        trimmed_start(s).len() <= s.len(),
        trimmed_start(s) == s.skip(s.len() - trimmed_start(s).len()),
        forall|i: int| 0 <= i < s.len() - trimmed_start(s).len() ==> white(#[trigger] s[i]),
        trimmed_start(s).len() > 0 ==> !white(trimmed_start(s)[0]),
    decreases s.len(),
{
    if s.len() > 0 && white(s[0]) {
        let t = s.skip(1);
        lemma_trimmed_start(t);
        assert(trimmed_start(s) =~= s.skip(s.len() - trimmed_start(s).len()));
        assert forall|i: int| 0 <= i < s.len() - trimmed_start(s).len() implies white(
            #[trigger] s[i],
        ) by {
            if i > 0 {
                assert(s[i] == t[i - 1]);
            }
        }
    } else {
        assert(s.skip(0) =~= s);
    }
}

proof fn lemma_trimmed_end(s: Seq<char>)
    ensures
        trimmed_end(s).len() <= s.len(),
        trimmed_end(s) == s.take(trimmed_end(s).len() as int),
        forall|i: int| trimmed_end(s).len() <= i < s.len() ==> white(#[trigger] s[i]),
        trimmed_end(s).len() > 0 ==> !white(trimmed_end(s).last()),
    decreases s.len(),
{
    if s.len() > 0 && white(s.last()) {
        let t = s.drop_last();
        lemma_trimmed_end(t);
        assert(trimmed_end(s) =~= s.take(trimmed_end(s).len() as int));
        assert forall|i: int| trimmed_end(s).len() <= i < s.len() implies white(
            #[trigger] s[i],
        ) by {
            if i < s.len() - 1 {
                assert(s[i] == t[i]);
            }
        }
    } else {
        assert(s.take(s.len() as int) =~= s);
    }
}

/// The first occurrence is one, and none comes before it; where none is found there is none.
pub proof fn law_find(s: &[char], c: char, r: Option<usize>)
    requires
        call_ensures(find, (s, c), r),
    ensures
        match r {
            Some(i) => i < s@.len() && s@[i as int] == c && forall|j: int|
                0 <= j < i ==> s@[j] != c,
            None => !s@.contains(c),
        },
{
    lemma_position(s@, c);
}

/// The last occurrence is one, and none comes after it; where none is found there is none.
pub proof fn law_rfind(s: &[char], c: char, r: Option<usize>)
    requires
        call_ensures(rfind, (s, c), r),
    ensures
        match r {
            Some(i) => i < s@.len() && s@[i as int] == c && forall|j: int|
                i < j < s@.len() ==> s@[j] != c,
            None => !s@.contains(c),
        },
{
    lemma_last(s@, c);
}

proof fn lemma_last(s: Seq<char>, c: char)
    ensures
        match last_position(s, c) {
            Some(i) => i < s.len() && s[i as int] == c && forall|j: int|
                i < j < s.len() ==> s[j] != c,
            None => !s.contains(c),
        },
    decreases s.len(),
{
    if s.len() > 0 && s.last() != c {
        let t = s.drop_last();
        lemma_last(t, c);
        assert(forall|j: int| 0 <= j < t.len() ==> s[j] == t[j]);
        if s.contains(c) {
            let j = choose|j: int| 0 <= j < s.len() && s[j] == c;
            assert(t[j] == c);
        }
    }
}

/// The first occurrence of a text is one, and none comes before it.
pub proof fn law_find_text(s: &[char], pat: &str, r: Option<usize>)
    requires
        call_ensures(find_text, (s, pat), r),
    ensures
        match r {
            Some(i) => i + pat@.len() <= s@.len() && s@.subrange(i as int, i + pat@.len()) == pat@
                && forall|j: int| 0 <= j < i ==> #[trigger] s@.subrange(j, j + pat@.len()) != pat@,
            None => forall|j: int|
                0 <= j && j + pat@.len() <= s@.len() ==> #[trigger] s@.subrange(j, j + pat@.len())
                    != pat@,
        },
{
    lemma_position_of(s@, pat@);
}

proof fn lemma_position_of(s: Seq<char>, pat: Seq<char>)
    ensures
        match position_of(s, pat) {
            Some(i) => i + pat.len() <= s.len() && s.subrange(i as int, i as int + pat.len()) == pat
                && forall|j: int| 0 <= j < i ==> #[trigger] s.subrange(j, j + pat.len()) != pat,
            None => forall|j: int|
                0 <= j && j + pat.len() <= s.len() ==> #[trigger] s.subrange(j, j + pat.len())
                    != pat,
        },
    decreases s.len(),
{
    let n = pat.len() as int;
    if s.len() >= n {
        assert(s.subrange(0, n) =~= s.take(n));
        if n == 0 {
            assert(s.take(0) =~= pat);
        }
        if s.take(n) != pat {
            let t = s.skip(1);
            lemma_position_of(t, pat);
            if let Some(k) = position_of(t, pat) {
                assert(s.subrange(k as int + 1, k as int + 1 + n) =~= t.subrange(k as int, k + n));
                assert forall|j: int| 0 <= j < k + 1 implies #[trigger] s.subrange(j, j + n)
                    != pat by {
                    if j > 0 {
                        assert(s.subrange(j, j + n) =~= t.subrange(j - 1, j - 1 + n));
                    }
                }
            } else {
                assert forall|j: int| 0 <= j && j + n <= s.len() implies #[trigger] s.subrange(
                    j,
                    j + n,
                ) != pat by {
                    if j > 0 {
                        assert(s.subrange(j, j + n) =~= t.subrange(j - 1, j - 1 + n));
                    }
                }
            }
        }
    }
}

/// The characters of each slice of a list.
pub open spec fn texts_of(v: Seq<&[char]>) -> Seq<Seq<char>> {
    Seq::new(v.len(), |i: int| v[i]@)
}

pub proof fn lemma_texts_of(v: Seq<&[char]>)
    ensures
        texts_of(v) == slice_texts(v),
{
    assert(texts_of(v) =~= slice_texts(v));
}

/// The pieces of a text do not hold the separator, and joined by it they are the text.
pub proof fn law_split<'a>(s: &'a [char], c: char, r: Vec<&'a [char]>)
    requires
        call_ensures(split, (s, c), r),
    ensures
        r@.len() > 0,
        forall|i: int| 0 <= i < r@.len() ==> !(#[trigger] r@[i])@.contains(c),
        joined(texts_of(r@), seq![c]) == s@,
{
    lemma_joined_pieces(s@, c);
    lemma_pieces_parts(s@, c);
    lemma_texts_of(r@);
    assert forall|i: int| 0 <= i < r@.len() implies !(#[trigger] r@[i])@.contains(c) by {
        assert(slice_texts(r@)[i] == r@[i]@);
        assert(!pieces(s@, c)[i].contains(c));
    }
}

/// A word by itself is the only one; one with white space and a rest behind it comes before the
/// words of the rest; white space in front changes nothing; and nothing holds no words.
pub proof fn law_split_words<'a>(
    word: Seq<char>,
    gap: char,
    rest: &'a [char],
    r: Vec<&'a [char]>,
    s: &'a [char],
    rs: Vec<&'a [char]>,
)
    requires
        call_ensures(split_words, (rest,), r),
        call_ensures(split_words, (s,), rs),
        no_white(word),
        white(gap),
    ensures
        s@.len() == 0 ==> rs@.len() == 0,
        word.len() > 0 && s@ == word ==> texts_of(rs@) == seq![word],
        word.len() > 0 && s@ == word + seq![gap] + rest@ ==> texts_of(rs@) == seq![word]
            + texts_of(r@),
        s@ == seq![gap] + rest@ ==> texts_of(rs@) == texts_of(r@),
{
    if word.len() > 0 {
        lemma_words_single(word);
        lemma_words_gap(word, gap, rest@);
    }
    let t = seq![gap] + rest@;
    assert(t.skip(1) =~= rest@);
    assert(trimmed_start(t) == trimmed_start(rest@));
    assert(words(t) == words(rest@));
    lemma_texts_of(r@);
    lemma_texts_of(rs@);
}

proof fn lemma_words_gap(word: Seq<char>, gap: char, rest: Seq<char>)
    requires
        word.len() > 0,
        no_white(word),
        white(gap),
    ensures
        words(word + seq![gap] + rest) == seq![word] + words(rest),
{
    let s = word + seq![gap] + rest;
    lemma_word_end(word, gap, rest);
    assert(!white(word[0]));
    assert(s[0] == word[0]);
    assert(trimmed_start(s) == s);
    assert(s.take(word.len() as int) =~= word);
    let t = s.skip(word.len() as int);
    assert(t =~= seq![gap] + rest);
    assert(t.skip(1) =~= rest);
    assert(trimmed_start(t) == trimmed_start(rest));
    assert(words(t) == words(rest));
}

proof fn lemma_word_end(word: Seq<char>, gap: char, rest: Seq<char>)
    requires
        no_white(word),
        white(gap),
    ensures
        crate::text::word_len(word + seq![gap] + rest) == word.len(),
    decreases word.len(),
{
    let s = word + seq![gap] + rest;
    if word.len() > 0 {
        let w = word.skip(1);
        assert(forall|i: int| 0 <= i < w.len() ==> w[i] == word[i + 1]);
        lemma_word_end(w, gap, rest);
        assert(s.skip(1) =~= w + seq![gap] + rest);
        assert(s[0] == word[0]);
        assert(!white(word[0]));
    }
}

/// A numeral grows by its last digit: ten times the number before it and the digit. One that
/// outgrows the limit is none, nor is one with anything but digits behind an optional plus sign.
pub proof fn law_parse_number(
    a: &[char],
    b: &[char],
    c: char,
    max: u64,
    ra: Option<u64>,
    rb: Option<u64>,
)
    requires
        call_ensures(parse_number, (a, max), ra),
        call_ensures(parse_number, (b, max), rb),
        b@ == a@.push(c),
    ensures
        ({
            let d = c as u32 - 48;
            let before: Option<int> = if a@.len() == 0 || a@ == seq!['+'] {
                Some(0)
            } else {
                match ra {
                    Some(n) => Some(n as int),
                    None => None,
                }
            };
            rb == if before is Some && 0 <= d <= 9 && 10 * before->0 + d <= max {
                Some((10 * before->0 + d) as u64)
            } else {
                None
            }
        }),
        a@.len() == 0 ==> ra is None,
        a@ == seq!['+'] ==> ra is None,
{
    let (x, y) = (unsigned(a@), unsigned(b@));
    if b@.len() > 1 {
        assert(y =~= x.push(c));
        assert(y.drop_last() =~= x);
        assert(y.last() == c);
    } else {
        assert(b@[0] == c);
        if c != '+' {
            assert(y.drop_last() =~= Seq::<char>::empty());
            assert(y.last() == c);
        }
    }
    assert(digit(c) <==> 0 <= c as u32 - 48 <= 9);
    if y.len() > 0 {
        assert(value_of(y) == value_of(y.drop_last()) * 10 + digit_value(c));
        if all_digits(y) {
            assert(digit(y[y.len() - 1]));
            assert forall|i: int| 0 <= i < x.len() implies digit(#[trigger] x[i]) by {
                if b@.len() > 1 {
                    assert(x[i] == y[i]);
                }
            }
        } else if all_digits(x) && digit(c) {
            assert forall|i: int| 0 <= i < y.len() implies digit(#[trigger] y[i]) by {
                if i < y.len() - 1 && b@.len() > 1 {
                    assert(y[i] == x[i]);
                }
            }
        }
    }
    if a@ == seq!['+'] {
        assert(x =~= Seq::<char>::empty());
    }
    if a@.len() == 1 && a@[0] == '+' {
        assert(a@ =~= seq!['+']);
    }
    assert(number_of(a@, max as nat) == if x.len() > 0 && all_digits(x) && value_of(x) <= max {
        Some(value_of(x))
    } else {
        None
    });
    assert(number_of(b@, max as nat) == if y.len() > 0 && all_digits(y) && value_of(y) <= max {
        Some(value_of(y))
    } else {
        None
    });
    if all_digits(y) && y.len() > 0 {
        assert(digit(y[y.len() - 1]));
    }
}

spec fn unsigned(s: Seq<char>) -> Seq<char> {
    if s.len() > 0 && s[0] == '+' {
        s.skip(1)
    } else {
        s
    }
}

/// A numeral ends with the last digit of its number, and before that is the numeral of a tenth of
/// it; a number below ten is its digit.
pub proof fn law_to_decimal(n: u64, r: String, q: String)
    requires
        call_ensures(to_decimal, (n,), r),
        call_ensures(to_decimal, ((n / 10) as u64,), q),
    ensures
        r@.len() > 0,
        r@.last() as u32 == 48 + n % 10,
        n < 10 ==> r@.len() == 1,
        n >= 10 ==> r@.drop_last() == q@,
{
    if n >= 10 {
        assert(decimal(n as nat).drop_last() =~= decimal(n as nat / 10));
    }
}

/// `law_to_decimal` for wide numbers.
pub proof fn law_to_decimal_wide(n: u128, r: String, q: String)
    requires
        call_ensures(to_decimal_wide, (n,), r),
        call_ensures(to_decimal_wide, ((n / 10) as u128,), q),
    ensures
        r@.len() > 0,
        r@.last() as u32 == 48 + n % 10,
        n < 10 ==> r@.len() == 1,
        n >= 10 ==> r@.drop_last() == q@,
{
    if n >= 10 {
        assert(decimal(n as nat).drop_last() =~= decimal(n as nat / 10));
    }
}

/// A numeral in base sixteen ends with its last digit, and before that is the numeral of a
/// sixteenth of its number; a number below sixteen is its digit.
pub proof fn law_to_hexadecimal(n: u64, r: String, q: String)
    requires
        call_ensures(to_hexadecimal, (n,), r),
        call_ensures(to_hexadecimal, ((n / 16) as u64,), q),
    ensures
        r@.len() > 0,
        r@.last() == "0123456789abcdef"@[(n % 16) as int],
        n < 16 ==> r@.len() == 1,
        n >= 16 ==> r@.drop_last() == q@,
{
    reveal_strlit("0123456789abcdef");
    if n >= 16 {
        assert(hexadecimal(n as nat).drop_last() =~= hexadecimal(n as nat / 16));
    }
}

/// Zeros are put in front, as many as are missing.
pub proof fn law_pad_zeros(s: String, width: usize, r: String)
    requires
        call_ensures(pad_zeros, (s, width), r),
    ensures
        s@.len() >= width ==> r@ == s@,
        s@.len() < width ==> r@.len() == width && r@.skip(width - s@.len()) == s@ && forall|i: int|
            0 <= i < width - s@.len() ==> #[trigger] r@[i] == '0',
{
    if s@.len() < width {
        assert(r@.skip(width - s@.len()) =~= s@);
    }
}

} // verus!
