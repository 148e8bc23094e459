use ui::render::pack::{pack_slot_gen, unpack_slot_gen, SLOT_BITS, SLOT_MASK};

// The encoding stores (slot + 1) in the low SLOT_BITS and the generation in
// the upper bits; a fully-zero packed value means "no texture".

#[test]
fn pack_slot_gen_roundtrip_slot_zero() {
    let packed = pack_slot_gen(0, 0);
    assert_eq!(packed, 1, "slot 0 + gen 0 should encode as 1 (zero means unset)");
    let (slot, generation) = unpack_slot_gen(packed);
    assert_eq!((slot, generation), (0, 0));
}

#[test]
fn pack_slot_gen_roundtrip_named_slots() {
    for slot in [0, 1, 7, 255, 1000, SLOT_MASK as usize - 1] {
        for generation in [0u32, 1, 42, 1_000_000] {
            let packed = pack_slot_gen(slot, generation);
            let (s, g) = unpack_slot_gen(packed);
            assert_eq!((s, g), (slot, generation), "roundtrip failed for slot={slot} gen={generation}");
        }
    }
}

#[test]
fn pack_slot_gen_layout_is_low_slot_bits_for_slot() {
    // Generation bits should not leak into the slot portion.
    let packed = pack_slot_gen(5, 0xABCD);
    assert_eq!(packed & SLOT_MASK, 5 + 1);
    assert_eq!(packed >> SLOT_BITS, 0xABCD);
}

#[test]
fn pack_slot_gen_max_slot_fits_in_slot_bits() {
    let max_slot = (SLOT_MASK as usize) - 1;
    let packed = pack_slot_gen(max_slot, 0);
    let (s, _) = unpack_slot_gen(packed);
    assert_eq!(s, max_slot);
}

#[test]
fn texture_slot_gen_roundtrip_slot_zero() {
    let packed = pack_slot_gen(0, 0);
    assert_eq!(packed, 1, "slot 0 + gen 0 should encode as 1 (zero means unset)");
    let (slot, generation) = unpack_slot_gen(packed);
    assert_eq!((slot, generation), (0, 0));
}

#[test]
fn texture_slot_gen_roundtrip_named_slots() {
    for slot in [0, 1, 7, 255, 1000, SLOT_MASK as usize - 1] {
        for generation in [0u32, 1, 42, 1_000_000] {
            let packed = pack_slot_gen(slot, generation);
            let (s, g) = unpack_slot_gen(packed);
            assert_eq!((s, g), (slot, generation), "roundtrip failed for slot={slot} gen={generation}");
        }
    }
}

#[test]
fn texture_slot_gen_layout_is_low_slot_bits_for_slot() {
    let packed = pack_slot_gen(5, 0xABCD);
    assert_eq!(packed & SLOT_MASK, 5 + 1);
    assert_eq!(packed >> SLOT_BITS, 0xABCD);
}

#[test]
fn texture_slot_gen_max_slot_fits_in_slot_bits() {
    let max_slot = (SLOT_MASK as usize) - 1;
    let packed = pack_slot_gen(max_slot, 0);
    let (s, _) = unpack_slot_gen(packed);
    assert_eq!(s, max_slot);
}

#[test]
fn slot_gen_wide_generations_are_cut_to_twenty_bits() {
    let packed = pack_slot_gen(3, 0x12_3456);
    assert_eq!(packed, 0x2_3456 * 0x1000 + 4);
    assert_eq!(unpack_slot_gen(packed), (3, 0x2_3456));
}

#[test]
fn slot_gen_slot_wraps_in_slot_bits() {
    // Slot 4095 would need 4096 in the slot bits, which wraps to 0.
    let packed = pack_slot_gen(SLOT_MASK as usize, 1);
    assert_eq!(packed, 0x1000);
    assert_eq!(unpack_slot_gen(packed), (usize::MAX, 1));
}

#[test]
fn slot_gen_zero_word_decodes_to_no_slot() {
    assert_eq!(unpack_slot_gen(0), (usize::MAX, 0));
}
