//! The bytes of 32-bit words as the GPU receives them.
//!
//! Buffers are filled from CPU memory as it lies, so a word goes out in the
//! byte order of the machine: little-endian on every target the renderer
//! ships for, big-endian in principle.

use vstd::prelude::*;

verus! {

/// The four bytes of `x`, least significant first.
pub open spec fn le_bytes(x: u32) -> Seq<u8> {
    seq![(x % 256) as u8, ((x / 256) % 256) as u8, ((x / 65536) % 256) as u8, (x / 16777216) as u8]
}

/// The four bytes of `x`, most significant first.
pub open spec fn be_bytes(x: u32) -> Seq<u8> {
    seq![(x / 16777216) as u8, ((x / 65536) % 256) as u8, ((x / 256) % 256) as u8, (x % 256) as u8]
}

/// The words one after another, each in one byte order: least significant
/// byte first where `little` holds, most significant first otherwise.
pub open spec fn words_bytes(words: Seq<u32>, little: bool) -> Seq<u8>
    decreases words.len(),
{
    if words.len() == 0 {
        Seq::empty()
    } else {
        words_bytes(words.drop_last(), little) + if little {
            le_bytes(words.last())
        } else {
            be_bytes(words.last())
        }
    }
}

/// The words' bytes in the machine's byte order: one of the two orders, the
/// same for every word.
pub open spec fn native_bytes(words: Seq<u32>, bytes: Seq<u8>) -> bool {
    bytes == words_bytes(words, true) || bytes == words_bytes(words, false)
}

/// `bytemuck::cast_slice::<u32, u8>`, copied out: the memory of the words
/// read as bytes. It never fails for this pair of types (a `u8` has no
/// alignment to meet and four of them fill a word), and the bytes of each
/// word come in the machine's byte order, which the contract leaves open
/// between the two.
#[verifier::external_body]
pub(crate) fn cast_words(words: &[u32]) -> (r: Vec<u8>)
    ensures
        native_bytes(words@, r@),
{
    bytemuck::cast_slice::<u32, u8>(words).to_vec()
}

} // verus!
