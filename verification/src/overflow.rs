use vstd::prelude::*;

verus! {

/// The sum of two `i16`, held at the nearest bound where it does not fit.
pub open spec fn clamped_i16(sum: int) -> int {
    if sum > i16::MAX {
        i16::MAX as int
    } else if sum < i16::MIN {
        i16::MIN as int
    } else {
        sum
    }
}

/// `i16::saturating_add` gives the sum of its arguments where that is an
/// `i16`, and else the bound of `i16` that the sum went beyond.
pub assume_specification[ i16::saturating_add ](x: i16, y: i16) -> (r: i16)
    ensures
        r as int == clamped_i16(x + y),
;

/// `i16::saturating_sub` gives the difference of its arguments where that is
/// an `i16`, and else the bound of `i16` that the difference went beyond.
pub assume_specification[ i16::saturating_sub ](x: i16, y: i16) -> (r: i16)
    ensures
        r as int == clamped_i16(x - y),
;

/// `u8::overflowing_add` gives the sum of its arguments modulo 256, and
/// whether the sum was too large for a `u8`.
pub assume_specification[ u8::overflowing_add ](x: u8, y: u8) -> (r: (u8, bool))
    ensures
        r.0 as int == (x + y) % 256,
        r.1 == (x + y > u8::MAX),
;

/// `u8::overflowing_sub` gives the difference of its arguments modulo 256,
/// and whether the difference was below zero.
pub assume_specification[ u8::overflowing_sub ](x: u8, y: u8) -> (r: (u8, bool))
    ensures
        r.0 as int == (x - y) % 256,
        r.1 == (x < y),
;

/// `u16::overflowing_shl` shifts by the distance modulo 16, and says whether
/// the distance asked for was 16 or more.
pub assume_specification[ u16::overflowing_shl ](x: u16, distance: u32) -> (r: (u16, bool))
    ensures
        r.0 == x << (distance % 16),
        r.1 == (distance >= 16),
;

/// Checked arithmetic gives `Some` of the result where the type can hold
/// it, and `None` where it cannot: 10 + 20 fits in a `u8`, 100 + 200 does
/// not, and -128 / -1 does not fit in an `i8`.
pub fn checked() -> (results: (Option<u8>, Option<u8>, Option<i8>))
    ensures
        results == (Some(30u8), None::<u8>, None::<i8>),
{
    (10_u8.checked_add(20), 100_u8.checked_add(200), (-128_i8).checked_div(-1))
}

/// Wrapping arithmetic gives the result modulo the range of the type:
/// 100 * 200 fits in a `u16`; 500 * 500 is 250000, which wraps to 53392 in a
/// `u16` and to -12144 in an `i16`; a shift of a 16-bit value by 17 is a
/// shift by 1.
pub fn wrapping() -> (results: (u16, u16, i16, i16))
    ensures
        results == (20000u16, 53392u16, -12144i16, 10i16),
{
    let shifted = 5_i16.wrapping_shl(17);
    assert(shifted == 10) by {
        assert(17u32 % 16u32 == 1u32);
        assert(5i16 << 1u32 == 10i16) by (bit_vector);
    }
    (100_u16.wrapping_mul(200), 500_u16.wrapping_mul(500), 500_i16.wrapping_mul(500), shifted)
}

/// Saturating arithmetic gives the value of the type that is nearest to the
/// result: 32760 + 10 stops at 32767, and -32760 - 10 at -32768.
pub fn saturating() -> (results: (i16, i16))
    ensures
        results == (32767i16, -32768i16),
{
    (32760_i16.saturating_add(10), (-32760_i16).saturating_sub(10))
}

/// Overflowing arithmetic gives the wrapped result, and whether it
/// overflowed: 255 - 2 does not, 255 + 2 wraps to 1; a shift of a 16-bit
/// value by 17 is a shift by 1, of a distance too long.
pub fn overflowing() -> (results: ((u8, bool), (u8, bool), (u16, bool)))
    ensures
        results == ((253u8, false), (1u8, true), (10u16, true)),
{
    let shifted = 5_u16.overflowing_shl(17);
    assert(shifted.0 == 10) by {
        assert(17u32 % 16u32 == 1u32);
        assert(5u16 << 1u32 == 10u16) by (bit_vector);
    }
    (255_u8.overflowing_sub(2), 255_u8.overflowing_add(2), shifted)
}

} // verus!
