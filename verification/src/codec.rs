//! The framing of one word: a length prefix of one to five bytes, then the
//! word's bytes.
//!
//! The prefix is big-endian and its first byte tells its size:
//!
//! | first byte | prefix bytes | lengths              |
//! |------------|--------------|----------------------|
//! | `0xxxxxxx` | 1            | 0 ..= 0x7F           |
//! | `10xxxxxx` | 2            | 0x80 ..= 0x3FFF      |
//! | `110xxxxx` | 3            | 0x4000 ..= 0x1FFFFF  |
//! | `1110xxxx` | 4            | 0x200000 ..= 0xFFFFFFF |
//! | `11110xxx` | 5            | up to 0xFFFFFFFF     |

use vstd::prelude::*;

verus! {

/// The largest length that a prefix can carry.
pub const MAX_WORD_LEN: usize = 0xFFFF_FFFF;

/// The number of prefix bytes that the length `n` is written with: the
/// fewest that can hold it.
pub open spec fn prefix_size(n: nat) -> nat {
    if n < 0x80 {
        1
    } else if n < 0x4000 {
        2
    } else if n < 0x20_0000 {
        3
    } else if n < 0x1000_0000 {
        4
    } else {
        5
    }
}

/// The prefix that the length `n` is written as.
pub open spec fn spec_encode_len(n: nat) -> Seq<u8> {
    if n < 0x80 {
        seq![n as u8]
    } else if n < 0x4000 {
        seq![(0x80 + n / 0x100) as u8, (n % 0x100) as u8]
    } else if n < 0x20_0000 {
        seq![(0xC0 + n / 0x1_0000) as u8, (n / 0x100 % 0x100) as u8, (n % 0x100) as u8]
    } else if n < 0x1000_0000 {
        seq![
            (0xE0 + n / 0x100_0000) as u8,
            (n / 0x1_0000 % 0x100) as u8,
            (n / 0x100 % 0x100) as u8,
            (n % 0x100) as u8,
        ]
    } else {
        seq![
            0xF0u8,
            (n / 0x100_0000 % 0x100) as u8,
            (n / 0x1_0000 % 0x100) as u8,
            (n / 0x100 % 0x100) as u8,
            (n % 0x100) as u8,
        ]
    }
}

/// The number of bytes of a prefix that starts with the byte `first`.
/// A first byte of `0xF8` or more stands alone and is read as its own value.
pub open spec fn spec_prefix_len(first: u8) -> nat {
    if first < 0x80 {
        1
    } else if first < 0xC0 {
        2
    } else if first < 0xE0 {
        3
    } else if first < 0xF0 {
        4
    } else if first < 0xF8 {
        5
    } else {
        1
    }
}

/// The length that the prefix at `pos` in `s` stands for, with the place
/// of the first byte behind it; `None` where `s` ends before the prefix
/// does.
pub open spec fn spec_decode_len(s: Seq<u8>, pos: int) -> Option<(nat, int)> {
    if pos < 0 || pos >= s.len() {
        None
    } else if pos + spec_prefix_len(s[pos]) > s.len() {
        None
    } else {
        let b = s[pos];
        if b < 0x80 {
            Some((b as nat, pos + 1))
        } else if b < 0xC0 {
            Some((((b - 0x80) * 0x100 + s[pos + 1]) as nat, pos + 2))
        } else if b < 0xE0 {
            Some((((b - 0xC0) * 0x1_0000 + s[pos + 1] * 0x100 + s[pos + 2]) as nat, pos + 3))
        } else if b < 0xF0 {
            Some(
                (
                    ((b - 0xE0) * 0x100_0000 + s[pos + 1] * 0x1_0000 + s[pos + 2] * 0x100 + s[pos
                        + 3]) as nat,
                    pos + 4,
                ),
            )
        } else if b < 0xF8 {
            Some(
                (
                    (s[pos + 1] * 0x100_0000 + s[pos + 2] * 0x1_0000 + s[pos + 3] * 0x100 + s[pos
                        + 4]) as nat,
                    pos + 5,
                ),
            )
        } else {
            Some((b as nat, pos + 1))
        }
    }
}

/// A word on the wire: the prefix of its length, then its bytes.
pub open spec fn spec_encode_word(w: Seq<u8>) -> Seq<u8> {
    spec_encode_len(w.len()) + w
}

/// The word that starts at `pos` in `s`, with the place of the first byte
/// behind it; `None` where `s` ends before the word does.
pub open spec fn spec_decode_word(s: Seq<u8>, pos: int) -> Option<(Seq<u8>, int)> {
    match spec_decode_len(s, pos) {
        None => None,
        Some((n, p)) => if p + n <= s.len() {
            Some((s.subrange(p, p + n), p + n))
        } else {
            None
        },
    }
}

/// The number of bytes of a prefix, told from its first byte.
pub fn prefix_len(first: u8) -> (r: usize)
    ensures
        r == spec_prefix_len(first),
        1 <= r <= 5,
{
    if first < 0x80 {
        1
    } else if first < 0xC0 {
        2
    } else if first < 0xE0 {
        3
    } else if first < 0xF0 {
        4
    } else if first < 0xF8 {
        5
    } else {
        1
    }
}

/// Appends the prefix of the length `len` to `out`, in the fewest bytes
/// that hold it.
pub fn encode_len(len: u32, out: &mut Vec<u8>)
    ensures
        final(out)@ == old(out)@ + spec_encode_len(len as nat),
        final(out)@.len() == old(out)@.len() + prefix_size(len as nat),
{
    if len < 0x80 {
        out.push(len as u8);
    } else if len < 0x4000 {
        out.push((0x80 + len / 0x100) as u8);
        out.push((len % 0x100) as u8);
    } else if len < 0x20_0000 {
        out.push((0xC0 + len / 0x1_0000) as u8);
        out.push((len / 0x100 % 0x100) as u8);
        out.push((len % 0x100) as u8);
    } else if len < 0x1000_0000 {
        out.push((0xE0 + len / 0x100_0000) as u8);
        out.push((len / 0x1_0000 % 0x100) as u8);
        out.push((len / 0x100 % 0x100) as u8);
        out.push((len % 0x100) as u8);
    } else {
        out.push(0xF0u8);
        out.push((len / 0x100_0000 % 0x100) as u8);
        out.push((len / 0x1_0000 % 0x100) as u8);
        out.push((len / 0x100 % 0x100) as u8);
        out.push((len % 0x100) as u8);
    }
    assert(out@ =~= old(out)@ + spec_encode_len(len as nat));
}

/// Reads the prefix at `pos` in `buf`: the length it stands for and the
/// place behind it, or `None` where `buf` ends before the prefix does.
pub fn decode_len(buf: &[u8], pos: usize) -> (r: Option<(u32, usize)>)
    ensures
        match r {
            Some((n, next)) => spec_decode_len(buf@, pos as int) == Some((n as nat, next as int)),
            None => spec_decode_len(buf@, pos as int).is_none(),
        },
{
    if pos >= buf.len() {
        return None;
    }
    let b: u8 = buf[pos];
    let size: usize = prefix_len(b);
    if size > buf.len() - pos {
        return None;
    }
    let first: u32 = b as u32;
    if b < 0x80 {
        Some((first, pos + 1))
    } else if b < 0xC0 {
        let b1: u32 = buf[pos + 1] as u32;
        Some(((first - 0x80) * 0x100 + b1, pos + 2))
    } else if b < 0xE0 {
        let b1: u32 = buf[pos + 1] as u32;
        let b2: u32 = buf[pos + 2] as u32;
        Some(((first - 0xC0) * 0x1_0000 + b1 * 0x100 + b2, pos + 3))
    } else if b < 0xF0 {
        let b1: u32 = buf[pos + 1] as u32;
        let b2: u32 = buf[pos + 2] as u32;
        let b3: u32 = buf[pos + 3] as u32;
        Some(((first - 0xE0) * 0x100_0000 + b1 * 0x1_0000 + b2 * 0x100 + b3, pos + 4))
    } else if b < 0xF8 {
        let b1: u32 = buf[pos + 1] as u32;
        let b2: u32 = buf[pos + 2] as u32;
        let b3: u32 = buf[pos + 3] as u32;
        let b4: u32 = buf[pos + 4] as u32;
        Some((b1 * 0x100_0000 + b2 * 0x1_0000 + b3 * 0x100 + b4, pos + 5))
    } else {
        Some((first, pos + 1))
    }
}

/// A copy of the bytes of `buf` from `from` up to `to`.
pub fn copy_range(buf: &[u8], from: usize, to: usize) -> (r: Vec<u8>)
    requires
        from <= to <= buf@.len(),
    ensures
        r@ == buf@.subrange(from as int, to as int),
{
    let mut r: Vec<u8> = Vec::new();
    let mut i: usize = from;
    while i < to
        invariant
            from <= i <= to <= buf@.len(),
            r@ == buf@.subrange(from as int, i as int),
        decreases to - i,
    {
        r.push(buf[i]);
        i += 1;
        assert(r@ =~= buf@.subrange(from as int, i as int));
    }
    r
}

/// Appends the bytes of `src` to `out`.
pub fn append_bytes(out: &mut Vec<u8>, src: &[u8])
    ensures
        final(out)@ == old(out)@ + src@,
{
    let mut i: usize = 0;
    while i < src.len()
        invariant
            i <= src@.len(),
            out@ == old(out)@ + src@.subrange(0, i as int),
        decreases src@.len() - i,
    {
        out.push(src[i]);
        i += 1;
        assert(out@ =~= old(out)@ + src@.subrange(0, i as int));
    }
    assert(src@.subrange(0, src@.len() as int) =~= src@);
}

/// Appends `word` as it goes over the wire to `out`: its length prefix,
/// then its bytes.
pub fn encode_word(word: &[u8], out: &mut Vec<u8>)
    requires
        word@.len() <= MAX_WORD_LEN,
    ensures
        final(out)@ == old(out)@ + spec_encode_word(word@),
{
    encode_len(word.len() as u32, out);
    append_bytes(out, word);
    assert(out@ =~= old(out)@ + spec_encode_word(word@));
}

/// Reads the word at `pos` in `buf`: its bytes and the place behind it, or
/// `None` where `buf` ends before the word does. A short buffer never
/// gives a shorter word.
pub fn decode_word(buf: &[u8], pos: usize) -> (r: Option<(Vec<u8>, usize)>)
    ensures
        match r {
            Some((w, next)) => spec_decode_word(buf@, pos as int) == Some((w@, next as int)),
            None => spec_decode_word(buf@, pos as int).is_none(),
        },
{
    match decode_len(buf, pos) {
        None => None,
        Some((n, p)) => {
            let n: usize = n as usize;
            if n > buf.len() - p {
                None
            } else {
                let w = copy_range(buf, p, p + n);
                Some((w, p + n))
            }
        },
    }
}

/// A length is read back from its own prefix, wherever the prefix stands
/// and whatever follows it.
pub proof fn lemma_len_round_trip(s: Seq<u8>, pos: int, n: nat)
    requires
        n <= 0xFFFF_FFFF,
        0 <= pos,
        pos + prefix_size(n) <= s.len(),
        s.subrange(pos, pos + prefix_size(n)) == spec_encode_len(n),
    ensures
        spec_decode_len(s, pos) == Some((n, (pos + prefix_size(n)) as int)),
        spec_encode_len(n).len() == prefix_size(n),
{
    let e = spec_encode_len(n);
    let k = prefix_size(n) as int;
    assert forall|i: int| 0 <= i < k implies s[pos + i] == e[i] by {
        assert(s.subrange(pos, pos + k)[i] == s[pos + i]);
    }
    assert(s[pos] == e[0]);
    if n >= 0x80 {
        assert(s[pos + 1] == e[1]);
    }
    if n >= 0x4000 {
        assert(s[pos + 2] == e[2]);
    }
    if n >= 0x20_0000 {
        assert(s[pos + 3] == e[3]);
    }
    if n >= 0x1000_0000 {
        assert(s[pos + 4] == e[4]);
    }
}

/// A word is read back, byte for byte, from its own encoding, wherever the
/// encoding stands and whatever follows it; and the encoding uses the
/// smallest prefix that holds the word's length.
pub proof fn lemma_word_round_trip(before: Seq<u8>, w: Seq<u8>, after: Seq<u8>)
    requires
        w.len() <= 0xFFFF_FFFF,
    ensures
        spec_encode_word(w).len() == prefix_size(w.len()) + w.len(),
        spec_decode_word(before + spec_encode_word(w) + after, before.len() as int) == Some(
            (w, (before.len() + prefix_size(w.len()) + w.len()) as int),
        ),
{
    let n = w.len();
    let k = prefix_size(n) as int;
    let s = before + spec_encode_word(w) + after;
    let pos = before.len() as int;
    assert(spec_encode_len(n).len() == k);
    assert(s.subrange(pos, pos + k) =~= spec_encode_len(n));
    lemma_len_round_trip(s, pos, n);
    assert(s.subrange(pos + k, pos + k + n) =~= w);
}

} // verus!
