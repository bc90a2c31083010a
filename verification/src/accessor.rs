use vstd::prelude::*;

verus! {

// Pure extraction / injection algebra over one fixed-width unsigned integer.
//
// A field is described by a `mask` (ones at the field's bit positions) and an
// `offset` (the right shift that aligns the field's least-significant bit to
// bit zero of the result).  The store is held in a `u64`; narrower storage
// widths simply leave the high bits unused.

/// Extraction: the bits selected by `mask`, shifted down by `offset`.
pub open spec fn get_bits_spec(bits: u64, mask: u64, offset: u64) -> u64 {
    (bits & mask) >> offset
}

/// Injection: clear the bits under `mask`, then place `value` (shifted up by
/// `offset` and truncated to the mask) into them.
pub open spec fn set_bits_spec(bits: u64, value: u64, mask: u64, offset: u64) -> u64 {
    (bits & !mask) | ((value << offset) & mask)
}

/// Extract a field: keep the bits under `mask`, then align the field's
/// least-significant bit to bit zero.  No sign extension takes place.
pub fn get_bits(bits: u64, mask: u64, offset: u64) -> (r: u64)
    requires
        offset < 64,
    ensures
        r == get_bits_spec(bits, mask, offset),
{
    (bits & mask) >> offset
}

/// Inject a field value: bits outside `mask` are preserved exactly, and the
/// bits of `value` beyond the field's width are silently truncated by the
/// final intersection with `mask`.
pub fn set_bits(bits: u64, value: u64, mask: u64, offset: u64) -> (r: u64)
    requires
        offset < 64,
    ensures
        r == set_bits_spec(bits, value, mask, offset),
        r & !mask == bits & !mask,
        r & mask == (value << offset) & mask,
{
    let r = (bits & !mask) | ((value << offset) & mask);
    proof {
        assert(((bits & !mask) | ((value << offset) & mask)) & !mask == bits & !mask)
            by (bit_vector);
        assert(((bits & !mask) | ((value << offset) & mask)) & mask == (value << offset) & mask)
            by (bit_vector);
    }
    r
}

/// Truncating round trip: reading a field back right after writing it yields
/// the written value, truncated to the field's width (`mask >> offset`).
pub proof fn lemma_get_set_roundtrip(bits: u64, value: u64, mask: u64, offset: u64)
    requires
        offset < 64,
    ensures
        get_bits_spec(set_bits_spec(bits, value, mask, offset), mask, offset)
            == value & (mask >> offset),
{
    assert(((((bits & !mask) | ((value << offset) & mask)) & mask) >> offset)
        == value & (mask >> offset)) by (bit_vector)
        requires
            offset < 64,
    ;
}

/// Writing the same field value twice is the same as writing it once.
pub proof fn lemma_set_idempotent(bits: u64, value: u64, mask: u64, offset: u64)
    requires
        offset < 64,
    ensures
        set_bits_spec(set_bits_spec(bits, value, mask, offset), value, mask, offset)
            == set_bits_spec(bits, value, mask, offset),
{
    assert(((((bits & !mask) | ((value << offset) & mask)) & !mask)
        | ((value << offset) & mask)) == ((bits & !mask) | ((value << offset) & mask)))
        by (bit_vector);
}

/// A write through a field mask that is disjoint from the fixed-bit mask
/// cannot disturb the fixed bits: whatever held of `bits & fixed_mask`
/// still holds after the write.
pub proof fn lemma_set_preserves_fixed(
    bits: u64,
    value: u64,
    mask: u64,
    offset: u64,
    fixed_mask: u64,
)
    requires
        offset < 64,
        mask & fixed_mask == 0,
    ensures
        set_bits_spec(bits, value, mask, offset) & fixed_mask == bits & fixed_mask,
{
    assert((((bits & !mask) | ((value << offset) & mask)) & fixed_mask) == bits & fixed_mask)
        by (bit_vector)
        requires
            mask & fixed_mask == 0,
    ;
}

} // verus!
