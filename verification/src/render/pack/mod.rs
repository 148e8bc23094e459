//! Bit packing of texture slot / generation pairs into one GPU word.

use vstd::prelude::*;

pub mod shape_flags;

verus! {

/// Bits of a packed word that hold `slot + 1`: up to 4096 textures.
pub const SLOT_BITS: u32 = 12;

/// Mask of the slot bits; the remaining 20 bits hold the generation.
pub const SLOT_MASK: u32 = 0xFFF;

/// The packed word for `slot` and `generation`: `slot + 1` in the low
/// `SLOT_BITS` (so an all-zero word means "no texture"), the generation in
/// the bits above. Both parts are cut to their width.
pub open spec fn slot_gen_word(slot: int, generation: int) -> int {
    (generation % 0x10_0000) * 0x1000 + (slot + 1) % 0x1000
}

/// The `(slot, generation)` a packed word decodes to; a word whose slot bits
/// are zero decodes to slot `usize::MAX`.
pub open spec fn slot_gen_parts(packed: int) -> (int, int) {
    (
        if packed % 0x1000 == 0 {
            usize::MAX as int
        } else {
            packed % 0x1000 - 1
        },
        packed / 0x1000,
    )
}

pub fn pack_slot_gen(slot: usize, generation: u32) -> (r: u32)
    ensures
        r == slot_gen_word(slot as int, generation as int),
{
    let s32 = slot as u32;
    let lo = s32.wrapping_add(1) & SLOT_MASK;
    let r = (generation << SLOT_BITS) | lo;
    proof {
        let t = s32.wrapping_add(1);
        assert(lo == t % 0x1000) by (bit_vector)
            requires
                lo == t & 0xFFF,
        ;
        assert(s32 % 0x1000 == (slot % 0x1000) as u32) by (bit_vector)
            requires
                s32 == slot as u32,
        ;
        assert(r == (generation % 0x10_0000) * 0x1000 + lo) by (bit_vector)
            requires
                lo < 0x1000,
                r == (generation << 12) | lo,
        ;
        assert((s32 + 1) % 0x1000 == (slot + 1) % 0x1000) by {
            vstd::arithmetic::div_mod::lemma_add_mod_noop(s32 as int, 1, 0x1000);
            vstd::arithmetic::div_mod::lemma_add_mod_noop(slot as int, 1, 0x1000);
        }
    }
    r
}

pub fn unpack_slot_gen(packed: u32) -> (r: (usize, u32))
    ensures
        (r.0 as int, r.1 as int) == slot_gen_parts(packed as int),
{
    let slot_plus_one = packed & SLOT_MASK;
    let generation = packed >> SLOT_BITS;
    proof {
        assert(slot_plus_one == packed % 0x1000) by (bit_vector)
            requires
                slot_plus_one == packed & 0xFFF,
        ;
        assert(generation == packed / 0x1000) by (bit_vector)
            requires
                generation == packed >> 12,
        ;
    }
    ((slot_plus_one as usize).wrapping_sub(1), generation)
}

/// Unpacking a packed pair gives the pair back, for every slot that fits
/// the slot bits (`slot < SLOT_MASK`) and every generation that fits the
/// generation bits.
pub proof fn lemma_slot_gen_roundtrip(slot: int, generation: int)
    requires
        0 <= slot < 0xFFF,
        0 <= generation < 0x10_0000,
    ensures
        slot_gen_parts(slot_gen_word(slot, generation)) == (slot, generation),
{
    let p = slot_gen_word(slot, generation);
    assert(p == generation * 0x1000 + slot + 1);
    vstd::arithmetic::div_mod::lemma_fundamental_div_mod_converse(p, 0x1000, generation, slot + 1);
}

/// The shape word: corner radius in the low byte, border width in quarter
/// pixels in the next, shadow radius in the third, shape flags on top.
pub open spec fn shape_word(radius: u8, border_quarters: u8, shadow: u8, flags: u8) -> int {
    radius + border_quarters * 0x100 + shadow * 0x1_0000 + flags * 0x100_0000
}

/// Pack the quantised shape parameters (each already a byte) into one word.
pub fn pack_shape_bytes(radius: u8, border_quarters: u8, shadow: u8, flags: u8) -> (r: u32)
    ensures
        r == shape_word(radius, border_quarters, shadow, flags),
{
    let r = radius as u32 | ((border_quarters as u32) << 8) | ((shadow as u32) << 16) | ((flags as u32) << 24);
    assert(r == radius as u32 + (border_quarters as u32) * 0x100 + (shadow as u32) * 0x1_0000 + (flags as u32) * 0x100_0000) by (bit_vector)
        requires
            r == radius as u32 | ((border_quarters as u32) << 8) | ((shadow as u32) << 16) | ((flags as u32) << 24),
    ;
    r
}

/// The four bytes of a shape word: radius, border in quarter pixels,
/// shadow radius, flags.
pub fn unpack_shape_bytes(packed: u32) -> (r: (u8, u8, u8, u8))
    ensures
        shape_word(r.0, r.1, r.2, r.3) == packed,
{
    assert((packed & 0xFF) <= 0xFF && ((packed >> 8) & 0xFF) <= 0xFF && ((packed >> 16) & 0xFF) <= 0xFF && ((packed >> 24) & 0xFF) <= 0xFF) by (bit_vector);
    let a = (packed & 0xFF) as u8;
    let b = ((packed >> 8) & 0xFF) as u8;
    let c = ((packed >> 16) & 0xFF) as u8;
    let d = ((packed >> 24) & 0xFF) as u8;
    assert(packed == (packed & 0xFF) + ((packed >> 8) & 0xFF) * 0x100 + ((packed >> 16) & 0xFF) * 0x1_0000 + ((packed >> 24) & 0xFF) * 0x100_0000) by (bit_vector);
    (a, b, c, d)
}

/// Unpacking a packed shape word gives back the bytes it was packed from.
pub proof fn lemma_shape_roundtrip(radius: u8, border_quarters: u8, shadow: u8, flags: u8, a: u8, b: u8, c: u8, d: u8)
    requires
        shape_word(a, b, c, d) == shape_word(radius, border_quarters, shadow, flags),
    ensures
        a == radius && b == border_quarters && c == shadow && d == flags,
{
    assert(a == radius && b == border_quarters && c == shadow && d == flags) by (nonlinear_arith)
        requires
            a + b * 0x100 + c * 0x1_0000 + d * 0x100_0000 == radius + border_quarters * 0x100 + shadow * 0x1_0000 + flags * 0x100_0000,
            a < 0x100, b < 0x100, c < 0x100, d < 0x100,
            radius < 0x100, border_quarters < 0x100, shadow < 0x100, flags < 0x100,
    ;
}

} // verus!
