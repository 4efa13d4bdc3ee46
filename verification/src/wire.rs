//! Big-endian words, the unit every OSC field is built from.

use vstd::prelude::*;

verus! {

/// The four bytes of `w`, most significant first.
pub open spec fn word_bytes(w: u32) -> Seq<u8> {
    seq![
        ((w >> 24) & 0xff) as u8,
        ((w >> 16) & 0xff) as u8,
        ((w >> 8) & 0xff) as u8,
        (w & 0xff) as u8,
    ]
}

/// The word whose big-endian bytes are `b0 b1 b2 b3`.
pub open spec fn word_of(b0: u8, b1: u8, b2: u8, b3: u8) -> u32 {
    ((b0 as u32) << 24) | ((b1 as u32) << 16) | ((b2 as u32) << 8) | (b3 as u32)
}

/// Reading back the bytes of a word gives the word.
pub proof fn lemma_word_of_bytes(w: u32)
    ensures
        word_of(word_bytes(w)[0], word_bytes(w)[1], word_bytes(w)[2], word_bytes(w)[3]) == w,
{
    assert((((((w >> 24) & 0xff) as u8) as u32) << 24) | (((((w >> 16) & 0xff) as u8) as u32) << 16)
        | (((((w >> 8) & 0xff) as u8) as u32) << 8) | (((w & 0xff) as u8) as u32) == w)
        by (bit_vector);
}

/// Writing out the word read from four bytes gives those bytes.
pub proof fn lemma_bytes_of_word(b0: u8, b1: u8, b2: u8, b3: u8)
    ensures
        word_bytes(word_of(b0, b1, b2, b3)) == seq![b0, b1, b2, b3],
{
    let w: u32 = word_of(b0, b1, b2, b3);
    assert(((w >> 24) & 0xff) as u8 == b0 && ((w >> 16) & 0xff) as u8 == b1
        && ((w >> 8) & 0xff) as u8 == b2 && (w & 0xff) as u8 == b3) by (bit_vector)
        requires
            w == ((b0 as u32) << 24) | ((b1 as u32) << 16) | ((b2 as u32) << 8) | (b3 as u32),
    ;
    assert(word_bytes(w) =~= seq![b0, b1, b2, b3]);
}

/// Appends the big-endian bytes of `w` to `out`.
pub fn put_word(out: &mut Vec<u8>, w: u32)
    ensures
        final(out)@ == old(out)@ + word_bytes(w),
{
    out.push(((w >> 24) & 0xff) as u8);
    out.push(((w >> 16) & 0xff) as u8);
    out.push(((w >> 8) & 0xff) as u8);
    out.push((w & 0xff) as u8);
    assert(out@ =~= old(out)@ + word_bytes(w));
}

/// Reads the big-endian word that starts at `at`.
pub fn get_word(bytes: &[u8], at: usize) -> (w: u32)
    requires
        at + 4 <= bytes@.len(),
    ensures
        w == word_of(bytes@[at as int], bytes@[at + 1], bytes@[at + 2], bytes@[at + 3]),
{
    ((bytes[at] as u32) << 24) | ((bytes[at + 1] as u32) << 16) | ((bytes[at + 2] as u32) << 8) | (
    bytes[at + 3] as u32)
}

} // verus!
