//! Words as byte strings: what it means for one to start with a marker or
//! to hold a number.

use vstd::prelude::*;
use crate::codec::copy_range;
use vstd::string::is_ascii;
use vstd::string::is_ascii_spec_bytes;
use vstd::string::StringSliceAdditionalSpecFns;

verus! {

/// The bytes of a text of ASCII characters, one byte for each.
pub open spec fn ascii(text: Seq<char>) -> Seq<u8> {
    Seq::new(text.len(), |i: int| text[i] as u8)
}

/// The words of a sentence as plain byte sequences.
pub open spec fn word_views(words: Seq<Vec<u8>>) -> Seq<Seq<u8>> {
    Seq::new(words.len(), |i: int| words[i]@)
}

/// Whether `word` begins with the bytes of `prefix`.
pub open spec fn has_prefix(word: Seq<u8>, prefix: Seq<u8>) -> bool {
    prefix.len() <= word.len() && word.subrange(0, prefix.len() as int) == prefix
}

/// Whether `word` begins with `prefix`.
pub fn starts_with(word: &[u8], prefix: &str) -> (r: bool)
    requires
        is_ascii(prefix),
    ensures
        r == has_prefix(word@, ascii(prefix@)),
{
    broadcast use is_ascii_spec_bytes;

    let p = prefix.as_bytes();
    assert(p@ =~= ascii(prefix@));
    if p.len() > word.len() {
        return false;
    }
    let mut i: usize = 0;
    while i < p.len()
        invariant
            i <= p@.len() <= word@.len(),
            p@ == ascii(prefix@),
            word@.subrange(0, i as int) == p@.subrange(0, i as int),
        decreases p@.len() - i,
    {
        if word[i] != p[i] {
            assert(word@.subrange(0, p@.len() as int)[i as int] != p@[i as int]);
            return false;
        }
        i += 1;
        assert(word@.subrange(0, i as int) =~= word@.subrange(0, i - 1).push(word@[i - 1]));
        assert(p@.subrange(0, i as int) =~= p@.subrange(0, i - 1).push(p@[i - 1]));
    }
    assert(p@.subrange(0, p@.len() as int) =~= p@);
    true
}

/// What follows `prefix` in `word`, where `word` begins with it.
pub open spec fn after_prefix(word: Seq<u8>, prefix: Seq<u8>) -> Option<Seq<u8>> {
    if has_prefix(word, prefix) {
        Some(word.skip(prefix.len() as int))
    } else {
        None
    }
}

/// The bytes that follow `prefix` in `word`, or `None` where `word` does
/// not begin with it.
pub fn strip_prefix(word: &[u8], prefix: &str) -> (r: Option<Vec<u8>>)
    requires
        is_ascii(prefix),
    ensures
        match r {
            Some(rest) => after_prefix(word@, ascii(prefix@)) == Some(rest@),
            None => after_prefix(word@, ascii(prefix@)).is_none(),
        },
{
    if starts_with(word, prefix) {
        let n = prefix.as_bytes().len();
        proof {
            is_ascii_spec_bytes(prefix);
            assert(ascii(prefix@).len() == n);
        }
        let rest = copy_range(word, n, word.len());
        assert(rest@ =~= word@.skip(n as int));
        Some(rest)
    } else {
        None
    }
}

/// Whether `word` is exactly `text`.
pub fn equals(word: &[u8], text: &str) -> (r: bool)
    requires
        is_ascii(text),
    ensures
        r == (word@ == ascii(text@)),
{
    let same_start = starts_with(word, text);
    let n = text.as_bytes().len();
    proof {
        is_ascii_spec_bytes(text);
        assert(text.spec_bytes().len() == ascii(text@).len());
        assert(word@.subrange(0, word@.len() as int) =~= word@);
    }
    same_start && word.len() == n
}

/// Whether two byte strings are the same.
pub fn bytes_equal(a: &[u8], b: &[u8]) -> (r: bool)
    ensures
        r == (a@ == b@),
{
    if a.len() != b.len() {
        return false;
    }
    let mut i: usize = 0;
    while i < a.len()
        invariant
            i <= a@.len(),
            a@.len() == b@.len(),
            forall|j: int| 0 <= j < i ==> a@[j] == b@[j],
        decreases a@.len() - i,
    {
        if a[i] != b[i] {
            return false;
        }
        i += 1;
    }
    assert(a@ =~= b@);
    true
}

/// The bytes of `text`.
pub fn bytes_of(text: &str) -> (r: Vec<u8>)
    requires
        is_ascii(text),
    ensures
        r@ == ascii(text@),
{
    broadcast use is_ascii_spec_bytes;

    let p = text.as_bytes();
    assert(p@ =~= ascii(text@));
    let mut r: Vec<u8> = Vec::new();
    let mut i: usize = 0;
    while i < p.len()
        invariant
            i <= p@.len(),
            r@ == p@.subrange(0, i as int),
        decreases p@.len() - i,
    {
        r.push(p[i]);
        i += 1;
        assert(r@ =~= p@.subrange(0, i as int));
    }
    assert(p@.subrange(0, p@.len() as int) =~= p@);
    r
}

/// Reading the decimal digits of `s` from `i` on, with `acc` the value of
/// those before: the number, or `None` at the first byte that is no digit
/// or once the number would pass 255.
pub open spec fn spec_digits(s: Seq<u8>, i: int, acc: nat) -> Option<u8>
    decreases s.len() - i,
{
    if i < 0 || i >= s.len() {
        Some(acc as u8)
    } else if s[i] < 48 || s[i] > 57 {
        None
    } else if acc * 10 + (s[i] - 48) > 255 {
        None
    } else {
        spec_digits(s, i + 1, (acc * 10 + (s[i] - 48)) as nat)
    }
}

/// The number from 0 to 255 that `s` holds in decimal digits, which a `+`
/// may precede; `None` for anything else, the empty word included.
pub open spec fn spec_parse_u8(s: Seq<u8>) -> Option<u8> {
    if s.len() == 0 {
        None
    } else if s[0] == 43 {
        if s.len() == 1 {
            None
        } else {
            spec_digits(s, 1, 0)
        }
    } else {
        spec_digits(s, 0, 0)
    }
}

/// Reads a number from 0 to 255 in decimal digits, which a `+` may
/// precede.
pub fn parse_u8(s: &[u8]) -> (r: Option<u8>)
    ensures
        r == spec_parse_u8(s@),
{
    if s.len() == 0 {
        return None;
    }
    let mut i: usize = 0;
    if s[0] == 43 {
        if s.len() == 1 {
            return None;
        }
        i = 1;
    }
    let mut acc: u32 = 0;
    while i < s.len()
        invariant
            i <= s@.len(),
            acc <= 255,
            spec_parse_u8(s@) == spec_digits(s@, i as int, acc as nat),
        decreases s@.len() - i,
    {
        let b: u8 = s[i];
        if b < 48 || b > 57 {
            return None;
        }
        let next: u32 = acc * 10 + (b - 48) as u32;
        if next > 255 {
            return None;
        }
        acc = next;
        i += 1;
    }
    Some(acc as u8)
}

} // verus!
