//! Hexadecimal strings to bytes.

use vstd::prelude::*;
use vstd::string::StrSliceExecFns;
use crate::errors::UnhexlifyError;

verus! {

/// The value of a hexadecimal digit, of either case; `None` for any other
/// character.
pub open spec fn hex_value(c: char) -> Option<u8> {
    let n = c as u32;
    if 48 <= n <= 57 {
        Some((n - 48) as u8)
    } else if 65 <= n <= 70 {
        Some((n - 55) as u8)
    } else if 97 <= n <= 102 {
        Some((n - 87) as u8)
    } else {
        None
    }
}

/// The bytes that a string of hexadecimal digits stands for: each pair of
/// digits is one byte, the first digit its upper half.
pub open spec fn hex_bytes(s: Seq<char>) -> Seq<u8> {
    Seq::new(
        s.len() / 2,
        |i: int| (16 * hex_value(s[2 * i]).unwrap() + hex_value(s[2 * i + 1]).unwrap()) as u8,
    )
}

/// The first character of `s`, from `i` on, that is no hexadecimal digit.
pub open spec fn first_invalid(s: Seq<char>, i: int) -> Option<char>
    decreases s.len() - i,
{
    if i < 0 || i >= s.len() {
        None
    } else if hex_value(s[i]).is_none() {
        Some(s[i])
    } else {
        first_invalid(s, i + 1)
    }
}

/// What decoding the hexadecimal string `s` gives. An empty string and one
/// with an odd number of characters are refused with that number;
/// otherwise the first character that is no digit is reported; and where
/// there is none, each pair of digits is one byte.
pub open spec fn spec_unhexlify(s: Seq<char>) -> Result<Seq<u8>, UnhexlifyError> {
    if s.len() == 0 || s.len() % 2 != 0 {
        Err(UnhexlifyError::OddCharacterCount(s.len() as usize))
    } else {
        match first_invalid(s, 0) {
            Some(c) => Err(UnhexlifyError::InvalidHexDigit(c)),
            None => Ok(hex_bytes(s)),
        }
    }
}

/// Bytes as characters, each byte the character of the same number.
pub open spec fn widen(bytes: Seq<u8>) -> Seq<char> {
    Seq::new(bytes.len(), |i: int| bytes[i] as char)
}

/// Whether a result of decoding is what `spec_unhexlify` says of `s`.
pub open spec fn unhexlify_result_is(r: Result<Vec<u8>, UnhexlifyError>, s: Seq<char>) -> bool {
    match r {
        Ok(bytes) => spec_unhexlify(s) == Ok::<Seq<u8>, UnhexlifyError>(bytes@),
        Err(e) => spec_unhexlify(s) == Err::<Seq<u8>, UnhexlifyError>(e),
    }
}

fn hex_digit(c: char) -> (r: Option<u8>)
    ensures
        r == hex_value(c),
        r.is_some() ==> r.unwrap() < 16,
{
    let n: u32 = c as u32;
    if 48 <= n && n <= 57 {
        Some((n - 48) as u8)
    } else if 65 <= n && n <= 70 {
        Some((n - 55) as u8)
    } else if 97 <= n && n <= 102 {
        Some((n - 87) as u8)
    } else {
        None
    }
}

/// Every character before `upto` is a digit, so the first that is none is
/// looked for from `upto` on.
proof fn lemma_first_invalid_skips(s: Seq<char>, upto: int)
    requires
        0 <= upto <= s.len(),
        forall|j: int| 0 <= j < upto ==> (#[trigger] hex_value(s[j])).is_some(),
    ensures
        first_invalid(s, 0) == first_invalid(s, upto),
    decreases upto,
{
    if upto > 0 {
        lemma_first_invalid_skips(s, upto - 1);
    }
}

/// Decodes a string of hexadecimal digits, two for each byte.
///
/// An empty string and one with an odd number of characters are refused
/// with that number. Otherwise the first character that is no digit is
/// reported, and where there is none the bytes are returned.
pub fn unhexlify(hexstr: &str) -> (r: Result<Vec<u8>, UnhexlifyError>)
    ensures
        unhexlify_result_is(r, hexstr@),
{
    let n: usize = hexstr.unicode_len();
    if n == 0 || n % 2 != 0 {
        return Err(UnhexlifyError::OddCharacterCount(n));
    }
    let mut result: Vec<u8> = Vec::new();
    let mut i: usize = 0;
    while i < n
        invariant
            n == hexstr@.len(),
            n % 2 == 0,
            i % 2 == 0,
            i <= n,
            result@.len() == i / 2,
            forall|j: int| 0 <= j < i ==> (#[trigger] hex_value(hexstr@[j])).is_some(),
            forall|j: int| 0 <= j < i / 2 ==> #[trigger] result@[j] == hex_bytes(hexstr@)[j],
        decreases n - i,
    {
        let hi = hexstr.get_char(i);
        let top: u8 = match hex_digit(hi) {
            Some(v) => v,
            None => {
                proof {
                    lemma_first_invalid_skips(hexstr@, i as int);
                }
                return Err(UnhexlifyError::InvalidHexDigit(hi));
            },
        };
        let lo = hexstr.get_char(i + 1);
        let bottom: u8 = match hex_digit(lo) {
            Some(v) => v,
            None => {
                proof {
                    lemma_first_invalid_skips(hexstr@, i + 1);
                }
                return Err(UnhexlifyError::InvalidHexDigit(lo));
            },
        };
        result.push(16 * top + bottom);
        i += 2;
    }
    proof {
        lemma_first_invalid_skips(hexstr@, n as int);
        assert(result@ =~= hex_bytes(hexstr@));
    }
    Ok(result)
}

/// Decodes hexadecimal digits held as bytes, each byte read as the
/// character of the same number: what `unhexlify` does on a string.
pub fn unhexlify_bytes(hex: &[u8]) -> (r: Result<Vec<u8>, UnhexlifyError>)
    ensures
        unhexlify_result_is(r, widen(hex@)),
{
    let ghost s = widen(hex@);
    let n: usize = hex.len();
    if n == 0 || n % 2 != 0 {
        return Err(UnhexlifyError::OddCharacterCount(n));
    }
    let mut result: Vec<u8> = Vec::new();
    let mut i: usize = 0;
    while i < n
        invariant
            s == widen(hex@),
            n == hex@.len(),
            n % 2 == 0,
            i % 2 == 0,
            i <= n,
            result@.len() == i / 2,
            forall|j: int| 0 <= j < i ==> (#[trigger] hex_value(s[j])).is_some(),
            forall|j: int| 0 <= j < i / 2 ==> #[trigger] result@[j] == hex_bytes(s)[j],
        decreases n - i,
    {
        let hi: char = hex[i] as char;
        let top: u8 = match hex_digit(hi) {
            Some(v) => v,
            None => {
                proof {
                    lemma_first_invalid_skips(s, i as int);
                }
                return Err(UnhexlifyError::InvalidHexDigit(hi));
            },
        };
        let lo: char = hex[i + 1] as char;
        let bottom: u8 = match hex_digit(lo) {
            Some(v) => v,
            None => {
                proof {
                    lemma_first_invalid_skips(s, i + 1);
                }
                return Err(UnhexlifyError::InvalidHexDigit(lo));
            },
        };
        result.push(16 * top + bottom);
        i += 2;
    }
    proof {
        lemma_first_invalid_skips(s, n as int);
        assert(result@ =~= hex_bytes(s));
    }
    Ok(result)
}

} // verus!
