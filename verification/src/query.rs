//! Reading the parameters of a query string.

use vstd::prelude::*;
use vstd::string::*;
use crate::search::{first_index, is_first, lemma_first_index_is, lemma_first_index_none};
use crate::text::{chars_of, parse_unsigned, pieces, split, split_at_each, unsigned_of};

verus! {

/// The pairs `key=value` for a key: what lies between two ampersands and
/// holds exactly one equals sign, with the key before it.
pub open spec fn is_pair_of(key: Seq<char>) -> spec_fn(Seq<char>) -> bool {
    |pair: Seq<char>|
        {
            let parts = split_at_each(pair, '=');
            parts.len() == 2 && parts[0] == key
        }
}

/// The value of a key in a query string: that of the first pair for the
/// key.
pub open spec fn query_value(query: Seq<char>, key: Seq<char>) -> Option<Seq<char>> {
    let pairs = split_at_each(query, '&');
    match first_index(pairs, is_pair_of(key)) {
        Some(i) => Some(split_at_each(pairs[i], '=')[1]),
        None => None,
    }
}

/// The 32-bit unsigned number a text denotes: an optional plus sign, then
/// decimal digits, at least one; absent where the number does not fit.
pub open spec fn u32_of(s: Seq<char>) -> Option<u32> {
    let digits = if s.len() > 0 && s[0] == '+' {
        s.skip(1)
    } else {
        s
    };
    match unsigned_of(digits, 0xffff_ffff) {
        Some(v) => Some(v as u32),
        None => None,
    }
}

/// The number that the query gives for a key.
pub open spec fn query_number(query: Seq<char>, key: Seq<char>) -> Option<u32> {
    match query_value(query, key) {
        Some(v) => u32_of(v),
        None => None,
    }
}

/// A copy of the characters from `from` up to `to`.
pub fn slice_of(chars: &Vec<char>, from: usize, to: usize) -> (part: Vec<char>)
    requires
        from <= to <= chars.len(),
    ensures
        part@ == chars@.subrange(from as int, to as int),
{
    let mut part: Vec<char> = Vec::new();
    let mut i: usize = from;
    while i < to
        invariant
            from <= i <= to <= chars.len(),
            part@ == chars@.subrange(from as int, i as int),
        decreases to - i,
    {
        part.push(chars[i]);
        assert(chars@.subrange(from as int, i + 1) =~= chars@.subrange(from as int, i as int).push(
            chars@[i as int],
        ));
        i += 1;
    }
    part
}

/// Finds the value of a key and answers with its bounds in the query.
pub fn find_value(query: &Vec<char>, key: &str) -> (found: Option<(usize, usize)>)
    ensures
        match found {
            Some((from, to)) => from <= to <= query@.len() && query_value(query@, key@) == Some(
                query@.subrange(from as int, to as int),
            ),
            None => query_value(query@, key@) is None,
        },
{
    let key_chars = chars_of(key);
    let bounds = split(query, '&');
    let ghost pairs = split_at_each(query@, '&');
    let ghost p = is_pair_of(key@);
    let mut i: usize = 0;
    while i < bounds.len()
        invariant
            0 <= i <= bounds.len(),
            key_chars@ == key@,
            p == is_pair_of(key@),
            pairs == split_at_each(query@, '&'),
            pairs == pieces(query@, bounds@),
            forall|k: int|
                0 <= k < bounds@.len() ==> (#[trigger] bounds@[k]).0 <= bounds@[k].1 <= query@.len(),
            forall|j: int| 0 <= j < i ==> !p(#[trigger] pairs[j]),
        decreases bounds.len() - i,
    {
        let b = bounds[i];
        let pair = slice_of(query, b.0, b.1);
        assert(pair@ == pairs[i as int]);
        let parts = split(&pair, '=');
        if parts.len() == 2 {
            let k = parts[0];
            let v = parts[1];
            let ghost kv = pieces(pair@, parts@);
            assert(kv[0] == pair@.subrange(k.0 as int, k.1 as int));
            assert(kv[1] == pair@.subrange(v.0 as int, v.1 as int));
            let name = slice_of(&pair, k.0, k.1);
            if same_chars(&name, &key_chars) {
                proof {
                    assert(p(pairs[i as int]));
                    assert(is_first(pairs, p, i as int));
                    lemma_first_index_is(pairs, p, i as int);
                    assert(pair@.subrange(v.0 as int, v.1 as int) =~= query@.subrange(
                        b.0 + v.0,
                        b.0 + v.1,
                    ));
                }
                return Some((b.0 + v.0, b.0 + v.1));
            }
        }
        i += 1;
    }
    proof {
        lemma_first_index_none(pairs, p);
    }
    None
}

/// Whether two lists of characters are the same.
pub fn same_chars(a: &Vec<char>, b: &Vec<char>) -> (same: bool)
    ensures
        same == (a@ == b@),
{
    if a.len() != b.len() {
        return false;
    }
    let mut i: usize = 0;
    while i < a.len()
        invariant
            0 <= i <= a.len(),
            a.len() == b.len(),
            forall|j: int| 0 <= j < i ==> a@[j] == b@[j],
        decreases a.len() - i,
    {
        if a[i] != b[i] {
            return false;
        }
        i += 1;
    }
    assert(a@ =~= b@);
    true
}

/// The text the query gives for a key.
pub fn text_param(query: &str, key: &str) -> (value: Option<String>)
    ensures
        match value {
            Some(v) => query_value(query@, key@) == Some(v@),
            None => query_value(query@, key@) is None,
        },
{
    let chars = chars_of(query);
    match find_value(&chars, key) {
        Some((from, to)) => Some(String::from_str(query.substring_char(from, to))),
        None => None,
    }
}

/// The number the query gives for a key.
pub fn number_param(query: &str, key: &str) -> (value: Option<u32>)
    ensures
        value == query_number(query@, key@),
{
    let chars = chars_of(query);
    match find_value(&chars, key) {
        Some((from, to)) => {
            let ghost v = chars@.subrange(from as int, to as int);
            let start = if from < to && chars[from] == '+' {
                assert(v[0] == chars@[from as int]);
                assert(v.skip(1) =~= chars@.subrange(from + 1, to as int));
                from + 1
            } else {
                if from < to {
                    assert(v[0] == chars@[from as int]);
                }
                from
            };
            match parse_unsigned(&chars, start, to, 0xffff_ffff) {
                Some(n) => Some(n as u32),
                None => None,
            }
        },
        None => None,
    }
}

} // verus!
