//! Layout units and scaling from font-design units.
//!
//! A font states its metrics (advances, ascent, descent) in design units
//! relative to `units_per_em`; the engine expresses every measure in
//! integer layout units. Scaling a design-unit value to a font size is
//! integer multiplication followed by flooring division.

use vstd::prelude::*;

verus! {

/// Largest `units_per_em` a well-formed typeface may declare.
pub const MAX_UNITS_PER_EM: u32 = 16384;

/// Largest font size, in layout units.
pub const MAX_FONT_SIZE: i64 = 65536;

/// Largest magnitude of a letter-spacing value, in layout units.
pub const MAX_LETTER_SPACING: i64 = 65536;

/// Largest paragraph text length, in code points.
pub const MAX_TEXT_LEN: usize = 0xFFFF_FFFF;

/// Largest layout width, in layout units.
pub const MAX_LAYOUT_WIDTH: i64 = 0x10_0000_0000;

/// Largest advance a measured cluster can take: four em at the largest
/// font size, plus the largest letter spacing.
pub const MAX_ADVANCE: i64 = 327680;

/// Largest ascent or descent a cluster or line can take: four em at the
/// largest font size.
pub const MAX_RISE: i64 = 262144;

/// A design-unit value expressed in layout units at the given font size.
pub open spec fn scaled(em_value: int, size: int, units_per_em: int) -> int {
    em_value * size / units_per_em
}

/// Scale a design-unit value to a font size.
pub fn scale_to_size(em_value: u32, size: i64, units_per_em: u32) -> (r: i64)
    requires
        1 <= units_per_em <= MAX_UNITS_PER_EM,
        em_value <= 4 * units_per_em,
        0 < size <= MAX_FONT_SIZE,
    ensures
        r == scaled(em_value as int, size as int, units_per_em as int),
        0 <= r <= 4 * size,
{
    proof {
        lemma_scaled_bounds(em_value as int, size as int, units_per_em as int);
        assert((em_value as int) * (size as int) <= 65536 * 65536) by (nonlinear_arith)
            requires
                em_value <= 65536,
                0 < size <= 65536,
        ;
    }
    (em_value as i64 * size) / (units_per_em as i64)
}

/// Bounds of the scaling formula: a design-unit value at most four em wide
/// scales to at most four times the font size.
pub proof fn lemma_scaled_bounds(em_value: int, size: int, units_per_em: int)
    requires
        1 <= units_per_em,
        0 <= em_value <= 4 * units_per_em,
        0 < size,
    ensures
        0 <= scaled(em_value, size, units_per_em) <= 4 * size,
{
    assert(0 <= em_value * size <= (4 * units_per_em) * size) by (nonlinear_arith)
        requires
            0 <= em_value <= 4 * units_per_em,
            0 < size,
    ;
    assert(em_value * size / units_per_em <= (4 * units_per_em) * size / units_per_em) by {
        vstd::arithmetic::div_mod::lemma_div_is_ordered(
            em_value * size,
            (4 * units_per_em) * size,
            units_per_em,
        );
    }
    assert((4 * units_per_em) * size / units_per_em == 4 * size) by {
        vstd::arithmetic::div_mod::lemma_div_multiples_vanish(4 * size, units_per_em);
        assert((4 * units_per_em) * size == units_per_em * (4 * size)) by (nonlinear_arith);
    }
    assert(0 <= em_value * size / units_per_em) by {
        vstd::arithmetic::div_mod::lemma_div_pos_is_pos(em_value * size, units_per_em);
    }
}

} // verus!
