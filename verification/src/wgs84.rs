//! The WGS84 ellipsoid and the rectifying radius of the transverse Mercator series, in exact
//! integer arithmetic.
use vstd::prelude::*;

verus! {

/// WGS84 semi-major axis, metres.
pub const WGS84_SEMI_MAJOR_AXIS_M: u64 = 6378137;

/// WGS84 inverse flattening 298.257223563, times 10^9.
pub const WGS84_INV_FLATTENING_E9: u64 = 298257223563;

/// Third flattening n = f / (2 − f) as numerator over denominator:
/// with f = 10^9 / 298257223563, n = 10^9 / (2 · 298257223563 − 10^9).
pub open spec fn third_flattening() -> (int, int) {
    (1000000000, 2 * WGS84_INV_FLATTENING_E9 - 1000000000)
}

/// The rectifying radius A = a / (1 + n) · (1 + n²/4 + n⁴/64 + n⁶/256) of the Krüger series
/// to order n⁶, in nanometres, as numerator over denominator (n = N / D):
/// 10^9 · a · (256 D⁶ + 64 N² D⁴ + 4 N⁴ D² + N⁶) / (256 D⁵ (D + N)).
pub open spec fn rectifying_radius_fraction() -> (int, int) {
    let (n, d) = third_flattening();
    let a = 1000000000 * WGS84_SEMI_MAJOR_AXIS_M;
    (
        a * (256 * d * d * d * d * d * d + 64 * n * n * d * d * d * d + 4 * n * n * n * n * d * d
            + n * n * n * n * n * n),
        256 * d * d * d * d * d * (d + n),
    )
}

/// The rectifying radius of the WGS84 transverse Mercator series, in nanometres, rounded
/// down: the scale of the Krüger series (about 6 367 449.145 823 415 m).
pub fn rectifying_radius_nm() -> (r: u64)
    ensures
        r == rectifying_radius_fraction().0 / rectifying_radius_fraction().1,
{
    let d: u128 = 2 * (WGS84_INV_FLATTENING_E9 as u128) - 1000000000;
    assert(d == 595514447126);
    // n scaled by 10^18, then its powers scaled by 10^24
    let n18: u128 = 1000000000000000000000000000 / d;
    assert(n18 == 1679220386383704) by (nonlinear_arith)
        requires
            d == 595514447126,
            n18 as int == 1000000000000000000000000000int / (d as int),
    ;
    let n2: u128 = n18 * n18 / 1000000000000;
    assert(n2 == 2819781106046636154) by (nonlinear_arith)
        requires
            n18 == 1679220386383704,
            n2 as int == (n18 as int) * (n18 as int) / 1000000000000int,
    ;
    let n4: u128 = n2 * n2 / 1000000000000000000000000;
    assert(n4 == 7951165486017) by (nonlinear_arith)
        requires
            n2 == 2819781106046636154,
            n4 as int == (n2 as int) * (n2 as int) / 1000000000000000000000000int,
    ;
    let n6: u128 = n4 * n2 / 1000000000000000000000000;
    assert(n6 == 22420546) by (nonlinear_arith)
        requires
            n2 == 2819781106046636154,
            n4 == 7951165486017,
            n6 as int == (n4 as int) * (n2 as int) / 1000000000000000000000000int,
    ;
    let series: u128 = n2 / 4 + n4 / 64 + n6 / 256;
    assert(series == 704945400748707337);
    // a / (1 + n) = 10^9 a D / (D + N) nanometres, as quotient and remainder
    let a1: u128 = (WGS84_SEMI_MAJOR_AXIS_M as u128) * 1000000000 * d;
    let b1: u128 = d + 1000000000;
    let x: u128 = a1 / b1;
    assert(x == 6367444657122589) by (nonlinear_arith)
        requires
            a1 == 6378137 * 1000000000 * 595514447126int,
            b1 == 596514447126,
            x as int == (a1 as int) / (b1 as int),
    ;
    let rem: u128 = a1 - x * b1;
    let r: u128 = x + (rem * 1000000000000000000000000 / b1 + x * series)
        / 1000000000000000000000000;
    assert(r == 6367449145823415) by (nonlinear_arith)
        requires
            a1 == 6378137 * 1000000000 * 595514447126int,
            b1 == 596514447126,
            x == 6367444657122589,
            rem as int == (a1 as int) - (x as int) * (b1 as int),
            series == 704945400748707337,
            r as int == (x as int) + ((rem as int) * 1000000000000000000000000int / (b1 as int) + (x as int) * (series as int)) / 1000000000000000000000000int,
    ;
    assert(rectifying_radius_fraction().0 / rectifying_radius_fraction().1 == 6367449145823415)
        by (nonlinear_arith);
    r as u64
}

} // verus!
