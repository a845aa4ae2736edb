//! Reading text: characters, decimal numbers, and splitting at a separator.

use vstd::prelude::*;
use vstd::string::*;
use crate::search::{first_index, is_first, lemma_first_index_is, lemma_first_index_none};

verus! {

/// The characters of a string.
pub fn chars_of(s: &str) -> (chars: Vec<char>)
    ensures
        chars@ == s@,
{
    let n = s.unicode_len();
    let mut chars: Vec<char> = Vec::new();
    let mut i: usize = 0;
    while i < n
        invariant
            0 <= i <= n,
            n == s@.len(),
            chars@ == s@.take(i as int),
        decreases n - i,
    {
        chars.push(s.get_char(i));
        assert(s@.take(i + 1) =~= s@.take(i as int).push(s@[i as int]));
        i += 1;
    }
    assert(s@.take(n as int) =~= s@);
    chars
}

/// An ASCII decimal digit.
pub open spec fn is_digit(c: char) -> bool {
    '0' <= c && c <= '9'
}

/// The value of a decimal digit.
pub open spec fn digit_value(c: char) -> nat {
    (c as int - '0' as int) as nat
}

/// Every character is a decimal digit.
pub open spec fn all_digits(s: Seq<char>) -> bool {
    forall|i: int| 0 <= i < s.len() ==> is_digit(#[trigger] s[i])
}

/// The number a string of decimal digits denotes.
pub open spec fn decimal_value(s: Seq<char>) -> nat
    decreases s.len(),
{
    if s.len() == 0 {
        0
    } else {
        decimal_value(s.drop_last()) * 10 + digit_value(s.last())
    }
}

/// The number denoted by a nonempty string of decimal digits, if it is at
/// most `max`.
pub open spec fn unsigned_of(s: Seq<char>, max: nat) -> Option<nat> {
    if s.len() > 0 && all_digits(s) && decimal_value(s) <= max {
        Some(decimal_value(s))
    } else {
        None
    }
}

/// A prefix of a digit string denotes no more than the string.
pub proof fn lemma_decimal_prefix(s: Seq<char>, n: int)
    requires
        0 <= n <= s.len(),
    ensures
        decimal_value(s.take(n)) <= decimal_value(s),
    decreases s.len(),
{
    if n == s.len() {
        assert(s.take(n) =~= s);
    } else {
        lemma_decimal_prefix(s.drop_last(), n);
        assert(s.drop_last().take(n) =~= s.take(n));
    }
}

/// Reads the characters from `from` up to `to` as a decimal number of at
/// most `max`.
pub fn parse_unsigned(chars: &Vec<char>, from: usize, to: usize, max: u64) -> (r: Option<u64>)
    requires
        from <= to <= chars.len(),
        max <= 0xffff_ffff,
    ensures
        r == match unsigned_of(chars@.subrange(from as int, to as int), max as nat) {
            Some(v) => Some(v as u64),
            None => None,
        },
{
    let ghost s = chars@.subrange(from as int, to as int);
    if from == to {
        return None;
    }
    let mut value: u64 = 0;
    let mut i: usize = from;
    assert(s.take(0) =~= Seq::<char>::empty());
    while i < to
        invariant
            from <= i <= to <= chars.len(),
            s == chars@.subrange(from as int, to as int),
            max <= 0xffff_ffff,
            all_digits(s.take(i - from)),
            value == decimal_value(s.take(i - from)),
            value <= max,
        decreases to - i,
    {
        let c = chars[i];
        assert(s[i - from] == c);
        if !(c >= '0' && c <= '9') {
            return None;
        }
        let d = (c as u32 - '0' as u32) as u64;
        let next = value * 10 + d;
        proof {
            let head = s.take(i - from + 1);
            assert(head.drop_last() =~= s.take(i - from));
            assert(head.last() == c);
            assert(next == decimal_value(head));
            assert forall|j: int| 0 <= j < head.len() implies is_digit(#[trigger] head[j]) by {
                if j < i - from {
                    assert(head[j] == s.take(i - from)[j]);
                }
            }
            lemma_decimal_prefix(s, i - from + 1);
        }
        if next > max {
            return None;
        }
        value = next;
        i += 1;
    }
    assert(s.take(to - from) =~= s);
    Some(value)
}


/// The 32-bit signed number a string denotes: an optional sign, then
/// decimal digits, at least one; absent where the number does not fit.
pub open spec fn signed_of(s: Seq<char>) -> Option<int> {
    if s.len() > 0 && s[0] == '-' {
        match unsigned_of(s.skip(1), 0x8000_0000) {
            Some(v) => Some(-(v as int)),
            None => None,
        }
    } else if s.len() > 0 && s[0] == '+' {
        match unsigned_of(s.skip(1), 0x7fff_ffff) {
            Some(v) => Some(v as int),
            None => None,
        }
    } else {
        match unsigned_of(s, 0x7fff_ffff) {
            Some(v) => Some(v as int),
            None => None,
        }
    }
}

/// Reads the characters from `from` up to `to` as a 32-bit signed number.
pub fn parse_signed(chars: &Vec<char>, from: usize, to: usize) -> (r: Option<i32>)
    requires
        from <= to <= chars.len(),
    ensures
        r == match signed_of(chars@.subrange(from as int, to as int)) {
            Some(v) => Some(v as i32),
            None => None,
        },
        signed_of(chars@.subrange(from as int, to as int)) matches Some(v) ==> -0x8000_0000 <= v
            <= 0x7fff_ffff,
{
    let ghost s = chars@.subrange(from as int, to as int);
    if from < to && chars[from] == '-' {
        assert(s[0] == chars@[from as int]);
        assert(s.skip(1) =~= chars@.subrange(from + 1, to as int));
        match parse_unsigned(chars, from + 1, to, 0x8000_0000) {
            Some(v) => {
                if v == 0x8000_0000 {
                    Some(i32::MIN)
                } else {
                    Some(-(v as i32))
                }
            },
            None => None,
        }
    } else if from < to && chars[from] == '+' {
        assert(s[0] == chars@[from as int]);
        assert(s.skip(1) =~= chars@.subrange(from + 1, to as int));
        match parse_unsigned(chars, from + 1, to, 0x7fff_ffff) {
            Some(v) => Some(v as i32),
            None => None,
        }
    } else {
        if from < to {
            assert(s[0] == chars@[from as int]);
        }
        match parse_unsigned(chars, from, to, 0x7fff_ffff) {
            Some(v) => Some(v as i32),
            None => None,
        }
    }
}

/// The characters equal to `c`.
pub open spec fn is_char(c: char) -> spec_fn(char) -> bool {
    |x: char| x == c
}

/// The pieces of a string between the occurrences of a separator. A string
/// with `n` separators has `n + 1` pieces, some of which may be empty.
pub open spec fn split_at_each(s: Seq<char>, sep: char) -> Seq<Seq<char>>
    decreases s.len(),
{
    match first_index(s, is_char(sep)) {
        Some(i) => if 0 <= i < s.len() {
            seq![s.take(i)] + split_at_each(s.skip(i + 1), sep)
        } else {
            seq![s]
        },
        None => seq![s],
    }
}

/// The pieces of `chars` that the bounds mark.
pub open spec fn pieces(chars: Seq<char>, bounds: Seq<(usize, usize)>) -> Seq<Seq<char>> {
    Seq::new(bounds.len(), |k: int| chars.subrange(bounds[k].0 as int, bounds[k].1 as int))
}

/// Splits at each occurrence of the separator and answers with the bounds
/// of the pieces: where each starts and where it ends.
pub fn split(chars: &Vec<char>, sep: char) -> (bounds: Vec<(usize, usize)>)
    ensures
        forall|k: int|
            0 <= k < bounds@.len() ==> (#[trigger] bounds@[k]).0 <= bounds@[k].1 <= chars@.len(),
        pieces(chars@, bounds@) == split_at_each(chars@, sep),
        bounds@.len() >= 1,
{
    let ghost p = is_char(sep);
    let mut bounds: Vec<(usize, usize)> = Vec::new();
    let mut start: usize = 0;
    let mut i: usize = 0;
    assert(chars@.skip(0) =~= chars@);
    assert(pieces(chars@, bounds@) + split_at_each(chars@.skip(0), sep) =~= split_at_each(
        chars@,
        sep,
    ));
    while i < chars.len()
        invariant
            0 <= start <= i <= chars.len(),
            p == is_char(sep),
            forall|k: int|
                0 <= k < bounds@.len() ==> (#[trigger] bounds@[k]).0 <= bounds@[k].1 <= chars@.len(),
            forall|j: int| start <= j < i ==> !p(#[trigger] chars@[j]),
            pieces(chars@, bounds@) + split_at_each(chars@.skip(start as int), sep) == split_at_each(
                chars@,
                sep,
            ),
        decreases chars.len() - i,
    {
        if chars[i] == sep {
            proof {
                let rest = chars@.skip(start as int);
                assert forall|j: int| 0 <= j < i - start implies !p(#[trigger] rest[j]) by {
                    assert(rest[j] == chars@[start + j]);
                }
                assert(rest[i - start] == chars@[i as int]);
                assert(is_first(rest, p, i - start));
                lemma_first_index_is(rest, p, i - start);
                assert(rest.take(i - start) =~= chars@.subrange(start as int, i as int));
                assert(rest.skip(i - start + 1) =~= chars@.skip(i + 1));
                let ghost_bounds = bounds@.push((start, i));
                assert(pieces(chars@, ghost_bounds) =~= pieces(chars@, bounds@) + seq![
                    rest.take(i - start),
                ]);
                assert(pieces(chars@, ghost_bounds) + split_at_each(chars@.skip(i + 1), sep)
                    =~= pieces(chars@, bounds@) + split_at_each(rest, sep));
            }
            bounds.push((start, i));
            start = i + 1;
        }
        i += 1;
    }
    proof {
        let rest = chars@.skip(start as int);
        assert forall|j: int| 0 <= j < rest.len() implies !p(#[trigger] rest[j]) by {
            assert(rest[j] == chars@[start + j]);
        }
        lemma_first_index_none(rest, p);
        assert(rest =~= chars@.subrange(start as int, chars@.len() as int));
        let ghost_bounds = bounds@.push((start, chars.len()));
        assert(pieces(chars@, ghost_bounds) =~= pieces(chars@, bounds@) + seq![rest]);
    }
    bounds.push((start, chars.len()));
    bounds
}

/// Whether the characters from `from` up to `to` spell the word.
pub fn spells(chars: &Vec<char>, from: usize, to: usize, word: &str) -> (same: bool)
    requires
        from <= to <= chars.len(),
    ensures
        same == (chars@.subrange(from as int, to as int) == word@),
{
    let n = word.unicode_len();
    if to - from != n {
        return false;
    }
    let ghost s = chars@.subrange(from as int, to as int);
    let mut i: usize = 0;
    while i < n
        invariant
            0 <= i <= n,
            n == word@.len(),
            from + n == to,
            to <= chars.len(),
            s == chars@.subrange(from as int, to as int),
            forall|j: int| 0 <= j < i ==> s[j] == word@[j],
        decreases n - i,
    {
        if chars[from + i] != word.get_char(i) {
            assert(s[i as int] != word@[i as int]);
            return false;
        }
        assert(s[i as int] == chars@[from + i]);
        i += 1;
    }
    assert(s =~= word@);
    true
}


/// A character with ASCII lower-case letters turned into upper case.
pub open spec fn upper(c: char) -> char {
    if 'a' <= c && c <= 'z' {
        ((c as u32) - 32) as char
    } else {
        c
    }
}

/// The normal form of a country code: its ASCII letters in upper case. Two
/// codes are the same code when their normal forms are equal.
pub open spec fn normal(code: Seq<char>) -> Seq<char> {
    Seq::new(code.len(), |i: int| upper(code[i]))
}

/// Whether two characters are the same in normal form.
pub fn same_letter(a: char, b: char) -> (same: bool)
    ensures
        same == (upper(a) == upper(b)),
{
    let x: u32 = if a >= 'a' && a <= 'z' {
        a as u32 - 32
    } else {
        a as u32
    };
    let y: u32 = if b >= 'a' && b <= 'z' {
        b as u32 - 32
    } else {
        b as u32
    };
    assert(x == upper(a) as u32);
    assert(y == upper(b) as u32);
    x == y
}

/// Whether two codes are the same code: equal in normal form.
pub fn same_code(a: &String, b: &String) -> (same: bool)
    ensures
        same == (normal(a@) == normal(b@)),
{
    let x = chars_of(a.as_str());
    let y = chars_of(b.as_str());
    if x.len() != y.len() {
        assert(normal(a@).len() != normal(b@).len());
        return false;
    }
    let mut i: usize = 0;
    while i < x.len()
        invariant
            0 <= i <= x.len(),
            x.len() == y.len(),
            x@ == a@,
            y@ == b@,
            forall|j: int| 0 <= j < i ==> upper(x@[j]) == upper(y@[j]),
        decreases x.len() - i,
    {
        if !same_letter(x[i], y[i]) {
            assert(normal(a@)[i as int] != normal(b@)[i as int]);
            return false;
        }
        i += 1;
    }
    assert(normal(a@) =~= normal(b@));
    true
}


/// A text of exactly `n` ASCII letters, of either case.
pub open spec fn is_letters(text: Seq<char>, n: nat) -> bool {
    text.len() == n && forall|i: int|
        0 <= i < text.len() ==> (('a' <= #[trigger] text[i] && text[i] <= 'z') || ('A' <= text[i]
            && text[i] <= 'Z'))
}

/// Whether the text is made of exactly `n` ASCII letters.
pub fn has_letters(text: &String, n: usize) -> (ok: bool)
    ensures
        ok == is_letters(text@, n as nat),
{
    let chars = chars_of(text.as_str());
    if chars.len() != n {
        return false;
    }
    let mut i: usize = 0;
    while i < chars.len()
        invariant
            0 <= i <= chars.len(),
            chars@ == text@,
            chars.len() == n,
            forall|j: int|
                0 <= j < i ==> (('a' <= #[trigger] text@[j] && text@[j] <= 'z') || ('A' <= text@[j]
                    && text@[j] <= 'Z')),
        decreases chars.len() - i,
    {
        let c = chars[i];
        if !((c >= 'a' && c <= 'z') || (c >= 'A' && c <= 'Z')) {
            return false;
        }
        i += 1;
    }
    true
}

} // verus!
