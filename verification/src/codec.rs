//! The byte order of the on-disk records: every record is a row of 32-bit
//! words, each stored least significant byte first.

use vstd::prelude::*;

verus! {

/// The four bytes of `x`, least significant first.
pub open spec fn u32_le(x: u32) -> Seq<u8> {
    seq![
        (x % 256) as u8,
        ((x / 256) % 256) as u8,
        ((x / 65536) % 256) as u8,
        ((x / 16777216) % 256) as u8,
    ]
}

/// The word whose bytes, least significant first, are the first four of `s`.
pub open spec fn le_u32(s: Seq<u8>) -> u32 {
    (s[0] + s[1] * 256 + s[2] * 65536 + s[3] * 16777216) as u32
}

/// The bytes of a row of words.
pub open spec fn words_le(ws: Seq<u32>) -> Seq<u8> {
    Seq::new(4 * ws.len(), |k: int| u32_le(ws[k / 4])[k % 4])
}

/// Word `i` of a row of bytes.
pub open spec fn le_word(bytes: Seq<u8>, i: int) -> u32 {
    le_u32(bytes.subrange(4 * i, 4 * i + 4))
}

/// The first `n` words of a row of bytes.
pub open spec fn le_words(bytes: Seq<u8>, n: nat) -> Seq<u32> {
    Seq::new(n, |i: int| le_word(bytes, i))
}

/// A word is recovered from its bytes.
pub proof fn lemma_u32_round_trip(x: u32)
    ensures
        u32_le(x).len() == 4,
        le_u32(u32_le(x)) == x,
{
}

/// A row of words is recovered from its bytes.
pub proof fn lemma_words_round_trip(ws: Seq<u32>)
    ensures
        words_le(ws).len() == 4 * ws.len(),
        le_words(words_le(ws), ws.len()) == ws,
{
    assert forall|i: int| 0 <= i < ws.len() implies le_word(words_le(ws), i) == ws[i] by {
        let part = words_le(ws).subrange(4 * i, 4 * i + 4);
        assert(part =~= u32_le(ws[i])) by {
            assert forall|k: int| 0 <= k < 4 implies part[k] == u32_le(ws[i])[k] by {
                assert((4 * i + k) / 4 == i && (4 * i + k) % 4 == k);
            }
        }
        lemma_u32_round_trip(ws[i]);
    }
    assert(le_words(words_le(ws), ws.len()) =~= ws);
}

/// The words of a row of bytes depend on the bytes they cover alone.
pub proof fn lemma_le_words_cover(a: Seq<u8>, b: Seq<u8>, n: nat)
    requires
        4 * n <= a.len(),
        4 * n <= b.len(),
        a.subrange(0, 4 * (n as int)) == b.subrange(0, 4 * (n as int)),
    ensures
        le_words(a, n) == le_words(b, n),
{
    assert forall|i: int| 0 <= i < n implies le_word(a, i) == le_word(b, i) by {
        assert(a.subrange(4 * i, 4 * i + 4) =~= a.subrange(0, 4 * (n as int)).subrange(4 * i, 4 * i + 4));
        assert(b.subrange(4 * i, 4 * i + 4) =~= b.subrange(0, 4 * (n as int)).subrange(4 * i, 4 * i + 4));
    }
    assert(le_words(a, n) =~= le_words(b, n));
}

/// The bytes of a row of words.
pub fn encode_words(ws: &[u32]) -> (out: Vec<u8>)
    requires
        4 * ws@.len() <= usize::MAX,
    ensures
        out@ == words_le(ws@),
{
    let mut out: Vec<u8> = Vec::new();
    let mut i: usize = 0;
    while i < ws.len()
        invariant
            i <= ws@.len(),
            4 * ws@.len() <= usize::MAX,
            out@ == words_le(ws@.take(i as int)),
        decreases ws@.len() - i,
    {
        let x = ws[i];
        let ghost prev = out@;
        out.push((x % 256) as u8);
        out.push(((x / 256) % 256) as u8);
        out.push(((x / 65536) % 256) as u8);
        out.push(((x / 16777216) % 256) as u8);
        i = i + 1;
        proof {
            let now = words_le(ws@.take(i as int));
            assert(out@.len() == now.len());
            assert forall|k: int| 0 <= k < now.len() implies out@[k] == now[k] by {
                if k < 4 * (i - 1) {
                    assert(out@[k] == prev[k]);
                    assert(ws@.take(i as int)[k / 4] == ws@.take(i - 1)[k / 4]);
                } else {
                    assert(k / 4 == i - 1);
                    assert(ws@.take(i as int)[k / 4] == x);
                }
            }
            assert(out@ =~= now);
        }
    }
    assert(ws@.take(ws@.len() as int) =~= ws@);
    out
}

/// Word `i` of a row of bytes.
pub fn decode_word(bytes: &[u8], i: usize) -> (x: u32)
    requires
        4 * i + 4 <= bytes@.len(),
    ensures
        x == le_word(bytes@, i as int),
{
    let n = bytes.len();
    let b0 = bytes[4 * i] as u32;
    let b1 = bytes[4 * i + 1] as u32;
    let b2 = bytes[4 * i + 2] as u32;
    let b3 = bytes[4 * i + 3] as u32;
    b0 + b1 * 256 + b2 * 65536 + b3 * 16777216
}

} // verus!
