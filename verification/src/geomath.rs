//! Planar distance arithmetic over coordinate bit patterns.
//!
//! A coordinate travels as the bit pattern of its binary64 degree value.
//! For distance work the pattern is interpreted as a fixed-point count of
//! ten-millionths of a degree, truncated toward zero and clamped to one
//! full turn — an exact, documented planar approximation, so threshold
//! comparisons are deterministic and need no floating-point epsilon.

use vstd::prelude::*;

verus! {

/// Clamp bound for fixed-point coordinates: 360 degrees.
pub const COORD_CAP: i64 = 3_600_000_000;

/// The bit pattern encodes a finite value (exponent field not saturated).
pub open spec fn finite_bits(bits: u64) -> bool {
    ((bits >> 52) & 0x7FF) != 0x7FF
}

/// Fixed-point reading of a binary64 bit pattern: the encoded magnitude
/// times ten million, truncated toward zero, clamped to `COORD_CAP`.
pub open spec fn spec_coord_fixed(bits: u64) -> int {
    let sign: u64 = bits >> 63;
    let e: u64 = (bits >> 52) & 0x7FF;
    let frac: u64 = bits & 0xF_FFFF_FFFF_FFFF;
    let m: int = if e == 0 {
        frac as int
    } else {
        frac as int + 0x10_0000_0000_0000
    };
    let scaled: u128 = (m * 10_000_000) as u128;
    let mag: u128 = if e >= 1075 {
        COORD_CAP as u128
    } else {
        let shift: u128 = (1075 - e) as u128;
        if shift >= 100 {
            0u128
        } else {
            scaled >> shift
        }
    };
    let clamped: int = if mag > COORD_CAP as u128 {
        COORD_CAP as int
    } else {
        mag as int
    };
    if sign == 1u64 {
        -clamped
    } else {
        clamped
    }
}

/// Executable fixed-point reading; see `spec_coord_fixed`.
pub fn coord_fixed(bits: u64) -> (r: i64)
    ensures
        r as int == spec_coord_fixed(bits),
        -COORD_CAP <= r <= COORD_CAP,
{
    let sign: u64 = bits >> 63;
    let e: u64 = (bits >> 52) & 0x7FF;
    let frac: u64 = bits & 0xF_FFFF_FFFF_FFFF;
    assert(frac < 0x10_0000_0000_0000) by (bit_vector)
        requires
            frac == bits & 0xF_FFFF_FFFF_FFFF,
    ;
    let m: u64 = if e == 0 {
        frac
    } else {
        frac + 0x10_0000_0000_0000
    };
    assert((m as u128) * 10_000_000 <= 0x20_0000_0000_0000u128 * 10_000_000) by (nonlinear_arith)
        requires
            m as u128 <= 0x20_0000_0000_0000u128,
    ;
    let scaled: u128 = (m as u128) * 10_000_000;
    let mag: u128 = if e >= 1075 {
        COORD_CAP as u128
    } else {
        let shift: u128 = (1075 - e) as u128;
        if shift >= 100 {
            0u128
        } else {
            scaled >> shift
        }
    };
    let clamped: i64 = if mag > COORD_CAP as u128 {
        COORD_CAP
    } else {
        mag as i64
    };
    if sign == 1u64 {
        -clamped
    } else {
        clamped
    }
}

/// Squared planar distance between two points, in fixed-point units.
pub open spec fn sq_dist(a: (u64, u64), b: (u64, u64)) -> int {
    let dx: int = spec_coord_fixed(a.0) - spec_coord_fixed(b.0);
    let dy: int = spec_coord_fixed(a.1) - spec_coord_fixed(b.1);
    dx * dx + dy * dy
}

/// Executable squared planar distance.
pub fn sq_dist_exec(a: (u64, u64), b: (u64, u64)) -> (r: i128)
    ensures
        r as int == sq_dist(a, b),
        r >= 0,
{
    let ax = coord_fixed(a.0);
    let ay = coord_fixed(a.1);
    let bx = coord_fixed(b.0);
    let by = coord_fixed(b.1);
    let dx: i128 = ax as i128 - bx as i128;
    let dy: i128 = ay as i128 - by as i128;
    assert(dx * dx <= 7_200_000_000i128 * 7_200_000_000 && dx * dx >= 0) by (nonlinear_arith)
        requires
            -7_200_000_000i128 <= dx <= 7_200_000_000i128,
    ;
    assert(dy * dy <= 7_200_000_000i128 * 7_200_000_000 && dy * dy >= 0) by (nonlinear_arith)
        requires
            -7_200_000_000i128 <= dy <= 7_200_000_000i128,
    ;
    dx * dx + dy * dy
}

/// The two points lie within `d` fixed-point units of each other
/// (inclusive boundary: a candidate exactly at the threshold is within).
pub open spec fn within(a: (u64, u64), b: (u64, u64), d: i64) -> bool {
    sq_dist(a, b) <= d * d
}

/// Executable threshold test; the boundary is inclusive.
pub fn within_exec(a: (u64, u64), b: (u64, u64), d: i64) -> (r: bool)
    requires
        d >= 0,
    ensures
        r == within(a, b, d),
{
    let s = sq_dist_exec(a, b);
    let dd: i128 = d as i128;
    assert(dd * dd <= 0x8000_0000_0000_0000i128 * 0x8000_0000_0000_0000 && dd * dd >= 0)
        by (nonlinear_arith)
        requires
            0 <= dd <= 0x8000_0000_0000_0000i128,
    ;
    s <= dd * dd
}

} // verus!
