use vstd::prelude::*;

verus! {

/// The 32-bit word that four bytes encode, least significant byte first.
pub open spec fn le_word_32(b: Seq<u8>) -> u32
    recommends
        b.len() == 4,
{
    (b[0] + b[1] * 0x100 + b[2] * 0x1_0000 + b[3] * 0x100_0000) as u32
}

/// The 64-bit word that eight bytes encode, least significant byte first.
pub open spec fn le_word_64(b: Seq<u8>) -> u64
    recommends
        b.len() == 8,
{
    (b[0] + b[1] * 0x100 + b[2] * 0x1_0000 + b[3] * 0x100_0000 + b[4] * 0x1_0000_0000 + b[5]
        * 0x100_0000_0000 + b[6] * 0x1_0000_0000_0000 + b[7] * 0x100_0000_0000_0000) as u64
}

/// The four bytes of a 32-bit word, least significant first.
pub open spec fn le_bytes_32(w: u32) -> Seq<u8> {
    seq![
        (w % 0x100) as u8,
        ((w / 0x100) % 0x100) as u8,
        ((w / 0x1_0000) % 0x100) as u8,
        ((w / 0x100_0000) % 0x100) as u8,
    ]
}

/// The eight bytes of a 64-bit word, least significant first.
pub open spec fn le_bytes_64(w: u64) -> Seq<u8> {
    seq![
        (w % 0x100) as u8,
        ((w / 0x100) % 0x100) as u8,
        ((w / 0x1_0000) % 0x100) as u8,
        ((w / 0x100_0000) % 0x100) as u8,
        ((w / 0x1_0000_0000) % 0x100) as u8,
        ((w / 0x100_0000_0000) % 0x100) as u8,
        ((w / 0x1_0000_0000_0000) % 0x100) as u8,
        ((w / 0x100_0000_0000_0000) % 0x100) as u8,
    ]
}

/// Splitting a 32-bit word back into bytes recovers the bytes it was
/// assembled from: the two conversions are mutually inverse.
pub proof fn lemma_le_bytes_32_of_word(b: Seq<u8>)
    requires
        b.len() == 4,
    ensures
        le_bytes_32(le_word_32(b)) == b,
{
    let b0 = b[0];
    let b1 = b[1];
    let b2 = b[2];
    let b3 = b[3];
    let w = le_word_32(b);
    assert(w == (b0 + b1 * 0x100 + b2 * 0x1_0000 + b3 * 0x100_0000) as u32);
    assert((b0 + b1 * 0x100 + b2 * 0x1_0000 + b3 * 0x100_0000) as u32 % 0x100 == b0)
        by (bit_vector);
    assert(((b0 + b1 * 0x100 + b2 * 0x1_0000 + b3 * 0x100_0000) as u32 / 0x100) % 0x100 == b1)
        by (bit_vector);
    assert(((b0 + b1 * 0x100 + b2 * 0x1_0000 + b3 * 0x100_0000) as u32 / 0x1_0000) % 0x100 == b2)
        by (bit_vector);
    assert(((b0 + b1 * 0x100 + b2 * 0x1_0000 + b3 * 0x100_0000) as u32 / 0x100_0000) % 0x100 == b3)
        by (bit_vector);
    assert(le_bytes_32(w) =~= b);
}

/// Splitting a 64-bit word back into bytes recovers the bytes it was
/// assembled from: the two conversions are mutually inverse.
pub proof fn lemma_le_bytes_64_of_word(b: Seq<u8>)
    requires
        b.len() == 8,
    ensures
        le_bytes_64(le_word_64(b)) == b,
{
    let b0 = b[0];
    let b1 = b[1];
    let b2 = b[2];
    let b3 = b[3];
    let b4 = b[4];
    let b5 = b[5];
    let b6 = b[6];
    let b7 = b[7];
    let w = le_word_64(b);
    assert(w == (b0 + b1 * 0x100 + b2 * 0x1_0000 + b3 * 0x100_0000 + b4 * 0x1_0000_0000 + b5
        * 0x100_0000_0000 + b6 * 0x1_0000_0000_0000 + b7 * 0x100_0000_0000_0000) as u64);
    assert((b0 + b1 * 0x100 + b2 * 0x1_0000 + b3 * 0x100_0000 + b4 * 0x1_0000_0000 + b5
        * 0x100_0000_0000 + b6 * 0x1_0000_0000_0000 + b7 * 0x100_0000_0000_0000) as u64 % 0x100
        == b0) by (bit_vector);
    assert(((b0 + b1 * 0x100 + b2 * 0x1_0000 + b3 * 0x100_0000 + b4 * 0x1_0000_0000 + b5
        * 0x100_0000_0000 + b6 * 0x1_0000_0000_0000 + b7 * 0x100_0000_0000_0000) as u64 / 0x100)
        % 0x100 == b1) by (bit_vector);
    assert(((b0 + b1 * 0x100 + b2 * 0x1_0000 + b3 * 0x100_0000 + b4 * 0x1_0000_0000 + b5
        * 0x100_0000_0000 + b6 * 0x1_0000_0000_0000 + b7 * 0x100_0000_0000_0000) as u64 / 0x1_0000)
        % 0x100 == b2) by (bit_vector);
    assert(((b0 + b1 * 0x100 + b2 * 0x1_0000 + b3 * 0x100_0000 + b4 * 0x1_0000_0000 + b5
        * 0x100_0000_0000 + b6 * 0x1_0000_0000_0000 + b7 * 0x100_0000_0000_0000) as u64
        / 0x100_0000) % 0x100 == b3) by (bit_vector);
    assert(((b0 + b1 * 0x100 + b2 * 0x1_0000 + b3 * 0x100_0000 + b4 * 0x1_0000_0000 + b5
        * 0x100_0000_0000 + b6 * 0x1_0000_0000_0000 + b7 * 0x100_0000_0000_0000) as u64
        / 0x1_0000_0000) % 0x100 == b4) by (bit_vector);
    assert(((b0 + b1 * 0x100 + b2 * 0x1_0000 + b3 * 0x100_0000 + b4 * 0x1_0000_0000 + b5
        * 0x100_0000_0000 + b6 * 0x1_0000_0000_0000 + b7 * 0x100_0000_0000_0000) as u64
        / 0x100_0000_0000) % 0x100 == b5) by (bit_vector);
    assert(((b0 + b1 * 0x100 + b2 * 0x1_0000 + b3 * 0x100_0000 + b4 * 0x1_0000_0000 + b5
        * 0x100_0000_0000 + b6 * 0x1_0000_0000_0000 + b7 * 0x100_0000_0000_0000) as u64
        / 0x1_0000_0000_0000) % 0x100 == b6) by (bit_vector);
    assert(((b0 + b1 * 0x100 + b2 * 0x1_0000 + b3 * 0x100_0000 + b4 * 0x1_0000_0000 + b5
        * 0x100_0000_0000 + b6 * 0x1_0000_0000_0000 + b7 * 0x100_0000_0000_0000) as u64
        / 0x100_0000_0000_0000) % 0x100 == b7) by (bit_vector);
    assert(le_bytes_64(w) =~= b);
}

/// Assembling the bytes of a 32-bit word recovers the word.
pub proof fn lemma_le_word_32_of_bytes(w: u32)
    ensures
        le_word_32(le_bytes_32(w)) == w,
{
    assert((w % 0x100) + ((w / 0x100) % 0x100) * 0x100 + ((w / 0x1_0000) % 0x100) * 0x1_0000 + ((w
        / 0x100_0000) % 0x100) * 0x100_0000 == w) by (bit_vector);
}

/// Assembling the bytes of a 64-bit word recovers the word.
pub proof fn lemma_le_word_64_of_bytes(w: u64)
    ensures
        le_word_64(le_bytes_64(w)) == w,
{
    assert((w % 0x100) + ((w / 0x100) % 0x100) * 0x100 + ((w / 0x1_0000) % 0x100) * 0x1_0000 + ((w
        / 0x100_0000) % 0x100) * 0x100_0000 + ((w / 0x1_0000_0000) % 0x100) * 0x1_0000_0000 + ((w
        / 0x100_0000_0000) % 0x100) * 0x100_0000_0000 + ((w / 0x1_0000_0000_0000) % 0x100)
        * 0x1_0000_0000_0000 + ((w / 0x100_0000_0000_0000) % 0x100) * 0x100_0000_0000_0000 == w)
        by (bit_vector);
}

/// Assemble a 32-bit word from four bytes, least significant first.
pub fn word_32_from_bytes(b0: u8, b1: u8, b2: u8, b3: u8) -> (w: u32)
    ensures
        w == le_word_32(seq![b0, b1, b2, b3]),
{
    b0 as u32 + b1 as u32 * 0x100 + b2 as u32 * 0x1_0000 + b3 as u32 * 0x100_0000
}

/// Assemble a 64-bit word from eight bytes, least significant first.
pub fn word_64_from_bytes(b0: u8, b1: u8, b2: u8, b3: u8, b4: u8, b5: u8, b6: u8, b7: u8) -> (w:
    u64)
    ensures
        w == le_word_64(seq![b0, b1, b2, b3, b4, b5, b6, b7]),
{
    b0 as u64 + b1 as u64 * 0x100 + b2 as u64 * 0x1_0000 + b3 as u64 * 0x100_0000 + b4 as u64
        * 0x1_0000_0000 + b5 as u64 * 0x100_0000_0000 + b6 as u64 * 0x1_0000_0000_0000 + b7 as u64
        * 0x100_0000_0000_0000
}

/// Extract byte `i` of a 32-bit word, least significant first.
pub fn byte_of_word_32(w: u32, i: usize) -> (b: u8)
    requires
        i < 4,
    ensures
        b == le_bytes_32(w)[i as int],
{
    if i == 0 {
        (w % 0x100) as u8
    } else if i == 1 {
        ((w / 0x100) % 0x100) as u8
    } else if i == 2 {
        ((w / 0x1_0000) % 0x100) as u8
    } else {
        ((w / 0x100_0000) % 0x100) as u8
    }
}

/// Extract byte `i` of a 64-bit word, least significant first.
pub fn byte_of_word_64(w: u64, i: usize) -> (b: u8)
    requires
        i < 8,
    ensures
        b == le_bytes_64(w)[i as int],
{
    if i == 0 {
        (w % 0x100) as u8
    } else if i == 1 {
        ((w / 0x100) % 0x100) as u8
    } else if i == 2 {
        ((w / 0x1_0000) % 0x100) as u8
    } else if i == 3 {
        ((w / 0x100_0000) % 0x100) as u8
    } else if i == 4 {
        ((w / 0x1_0000_0000) % 0x100) as u8
    } else if i == 5 {
        ((w / 0x100_0000_0000) % 0x100) as u8
    } else if i == 6 {
        ((w / 0x1_0000_0000_0000) % 0x100) as u8
    } else {
        ((w / 0x100_0000_0000_0000) % 0x100) as u8
    }
}

} // verus!
