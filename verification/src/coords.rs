//! Axial coordinates for pointy-top hexagonal cells, with exact conversion to
//! and from points of the plane.
//!
//! The planar conversion for a pointy-top cell of outer radius 1 places the
//! center of cell `(q, r)` at `x = sqrt(3)*q + (sqrt(3)/2)*r`, `y = 1.5*r`.
//! Every such center has an `x` that is a multiple of `sqrt(3)/2`, so a point
//! whose horizontal coordinate is measured in units of `sqrt(3)` needs only a
//! rational number for each axis.  `PlanarPoint` stores the two axes as exact
//! fractions over a common denominator, which lets the whole conversion,
//! including the rounding that snaps a fractional point to the nearest cell,
//! run in integer arithmetic.

use vstd::prelude::*;

verus! {

/// A pointy-top hex cell addressed by axial coordinates `(q, r)`.
/// The implicit third cube coordinate is `s = -q - r`.
#[derive(Copy, Clone, PartialEq, Eq, Structural, Debug, Hash)]
pub struct HexPosition {
    pub q: i32,
    pub r: i32,
}

/// An exact point of the plane, in units of a cell's outer radius.
/// The point is `(sqrt(3) * x_num / denom, y_num / denom)`: the horizontal
/// axis is measured in multiples of `sqrt(3)`, which makes every cell center
/// exactly representable.
#[derive(Copy, Clone, PartialEq, Eq, Structural, Debug)]
pub struct PlanarPoint {
    pub x_num: i32,
    pub y_num: i32,
    pub denom: i32,
}

impl PlanarPoint {
    /// A fraction's denominator must be positive.
    pub open spec fn wf(self) -> bool {
        1 <= self.denom
    }
}

/// Magnitude of an integer.
pub open spec fn abs_val(n: int) -> int {
    if n >= 0 {
        n
    } else {
        -n
    }
}

/// The integer nearest to `n / d` (for `d >= 1`), halves rounded away from
/// zero.
pub open spec fn round_nearest(n: int, d: int) -> int {
    if n >= 0 {
        (2 * n + d) / (2 * d)
    } else {
        -((2 * (-n) + d) / (2 * d))
    }
}

/// Snaps fractional cube coordinates `(qn/d, rn/d, sn/d)` (which sum to zero)
/// to the nearest cell: round each axis to the nearest integer, then recompute
/// the axis with the largest rounding error from the other two, so that the
/// cube constraint `q + r + s == 0` holds exactly for the result.
pub open spec fn axial_round_spec(qn: int, rn: int, sn: int, d: int) -> HexPosition {
    let qr = round_nearest(qn, d);
    let rr = round_nearest(rn, d);
    let sr = round_nearest(sn, d);
    let qe = abs_val(qr * d - qn);
    let re = abs_val(rr * d - rn);
    let se = abs_val(sr * d - sn);
    if qe > re && qe > se {
        HexPosition { q: (-rr - sr) as i32, r: rr as i32 }
    } else if re > se {
        HexPosition { q: qr as i32, r: (-qr - sr) as i32 }
    } else {
        HexPosition { q: qr as i32, r: rr as i32 }
    }
}

/// The cell whose center is nearest to `p`.  The fractional axial coordinates
/// of a point are `q' = x/sqrt(3) - y/3` and `r' = (2/3)*y`; with `x` stored
/// in units of `sqrt(3)` these are `(3*x_num - y_num) / (3*denom)` and
/// `2*y_num / (3*denom)`.
pub open spec fn from_2d_spec(p: PlanarPoint) -> HexPosition {
    axial_round_spec(
        3 * p.x_num - p.y_num,
        2 * p.y_num,
        -3 * p.x_num - p.y_num,
        3 * p.denom,
    )
}

/// The exact planar center of cell `c`: `x = sqrt(3)*(q + r/2)`, `y = 1.5*r`,
/// both with denominator 2.
pub open spec fn center_2d_spec(c: HexPosition) -> PlanarPoint {
    PlanarPoint { x_num: (2 * c.q + c.r) as i32, y_num: (3 * c.r) as i32, denom: 2 }
}

/// Rounding a fraction that is exactly the integer `k` yields `k`.
proof fn lemma_round_exact(k: int, d: int)
    requires
        1 <= d,
    ensures
        round_nearest(k * d, d) == k,
{
    if k >= 0 {
        assert(2 * (k * d) + d == k * (2 * d) + d) by (nonlinear_arith);
        assert(k * d >= 0) by (nonlinear_arith)
            requires
                k >= 0,
                d >= 1,
        ;
        vstd::arithmetic::div_mod::lemma_fundamental_div_mod_converse(
            2 * (k * d) + d,
            2 * d,
            k,
            d,
        );
    } else {
        assert(k * d < 0) by (nonlinear_arith)
            requires
                k < 0,
                d >= 1,
        ;
        assert(2 * (-(k * d)) + d == (-k) * (2 * d) + d) by (nonlinear_arith);
        vstd::arithmetic::div_mod::lemma_fundamental_div_mod_converse(
            2 * (-(k * d)) + d,
            2 * d,
            -k,
            d,
        );
    }
}

/// Law: converting a cell to its planar center and back is the identity; no
/// rounding error accumulates on exact cell centers.
pub proof fn lemma_center_round_trip(c: HexPosition)
    requires
        -250_000_000 <= c.q <= 250_000_000,
        -250_000_000 <= c.r <= 250_000_000,
    ensures
        from_2d_spec(center_2d_spec(c)) == c,
{
    let p = center_2d_spec(c);
    assert(p.x_num == 2 * c.q + c.r && p.y_num == 3 * c.r);
    let qn = 3 * p.x_num - p.y_num;
    let rn = 2 * p.y_num;
    let sn = -3 * p.x_num - p.y_num;
    assert(qn == (c.q as int) * 6);
    assert(rn == (c.r as int) * 6);
    assert(sn == (-(c.q as int) - (c.r as int)) * 6);
    lemma_round_exact(c.q as int, 6);
    lemma_round_exact(c.r as int, 6);
    lemma_round_exact(-(c.q as int) - (c.r as int), 6);
}

impl HexPosition {
    pub fn new(q: i32, r: i32) -> (c: Self)
        ensures
            c == (HexPosition { q, r }),
    {
        Self { q, r }
    }

    /// The nearest hex cell to a planar point given in units of the outer
    /// radius.  The bounds on the numerators keep the rounding arithmetic
    /// within `i64`.
    pub fn from_2d(point: PlanarPoint) -> (c: Self)
        requires
            point.wf(),
            -500_000_000 <= point.x_num <= 500_000_000,
            -500_000_000 <= point.y_num <= 500_000_000,
        ensures
            c == from_2d_spec(point),
    {
        let xn = point.x_num as i64;
        let yn = point.y_num as i64;
        let d = 3 * (point.denom as i64);
        let qn = 3 * xn - yn;
        let rn = 2 * yn;
        let sn = -(3 * xn) - yn;
        axial_round(qn, rn, sn, d)
    }

    /// The planar center of this cell, in units of the outer radius.  The
    /// bounds on the coordinates keep the numerators within `i32`; they cover
    /// every cell of any representable map.
    pub fn center_2d(&self) -> (p: PlanarPoint)
        requires
            -250_000_000 <= self.q <= 250_000_000,
            -250_000_000 <= self.r <= 250_000_000,
        ensures
            p == center_2d_spec(*self),
            p.wf(),
            from_2d_spec(p) == *self,
    {
        proof {
            lemma_center_round_trip(*self);
        }
        PlanarPoint { x_num: 2 * self.q + self.r, y_num: 3 * self.r, denom: 2 }
    }
}

/// Rounds `n / d` to the nearest integer, halves away from zero.
fn round_div(n: i64, d: i64) -> (r: i64)
    requires
        1 <= d <= 7_000_000_000,
        -2_000_000_000 <= n <= 2_000_000_000,
    ensures
        r == round_nearest(n as int, d as int),
        -2_000_000_001 <= r <= 2_000_000_001,
        d >= 3 ==> -666_666_668 <= r <= 666_666_668,
{
    let mag = if n >= 0 {
        n as u64
    } else {
        (-n) as u64
    };
    let du = d as u64;
    let v = (2 * mag + du) / (2 * du);
    proof {
        assert((2 * mag + du) / (2 * du) <= 2_000_000_001) by (nonlinear_arith)
            requires
                1 <= du,
                mag <= 2_000_000_000,
        ;
        assert(du >= 3 ==> (2 * mag + du) / (2 * du) <= 666_666_668) by (nonlinear_arith)
            requires
                1 <= du,
                mag <= 2_000_000_000,
        ;
    }
    if n >= 0 {
        v as i64
    } else {
        -(v as i64)
    }
}

/// Executable form of `axial_round_spec`: resolves fractional cube
/// coordinates with numerators `qn`, `rn`, `sn` over denominator `d` to the
/// nearest cell.
fn axial_round(qn: i64, rn: i64, sn: i64, d: i64) -> (c: HexPosition)
    requires
        3 <= d <= 7_000_000_000,
        qn + rn + sn == 0,
        -2_000_000_000 <= qn <= 2_000_000_000,
        -2_000_000_000 <= rn <= 2_000_000_000,
        -2_000_000_000 <= sn <= 2_000_000_000,
    ensures
        c == axial_round_spec(qn as int, rn as int, sn as int, d as int),
{
    let qr = round_div(qn, d);
    let rr = round_div(rn, d);
    let sr = round_div(sn, d);
    proof {
        assert(-4_666_666_676_000_000_000 <= qr * d <= 4_666_666_676_000_000_000)
            by (nonlinear_arith)
            requires
                -666_666_668 <= qr <= 666_666_668,
                1 <= d <= 7_000_000_000,
        ;
        assert(-4_666_666_676_000_000_000 <= rr * d <= 4_666_666_676_000_000_000)
            by (nonlinear_arith)
            requires
                -666_666_668 <= rr <= 666_666_668,
                1 <= d <= 7_000_000_000,
        ;
        assert(-4_666_666_676_000_000_000 <= sr * d <= 4_666_666_676_000_000_000)
            by (nonlinear_arith)
            requires
                -666_666_668 <= sr <= 666_666_668,
                1 <= d <= 7_000_000_000,
        ;
    }
    let qe = abs_i64(qr * d - qn);
    let re = abs_i64(rr * d - rn);
    let se = abs_i64(sr * d - sn);
    if qe > re && qe > se {
        HexPosition { q: (-rr - sr) as i32, r: rr as i32 }
    } else if re > se {
        HexPosition { q: qr as i32, r: (-qr - sr) as i32 }
    } else {
        HexPosition { q: qr as i32, r: rr as i32 }
    }
}

/// Magnitude of an `i64` that is not `i64::MIN`.
fn abs_i64(n: i64) -> (r: i64)
    requires
        n > i64::MIN,
    ensures
        r == abs_val(n as int),
{
    if n >= 0 {
        n
    } else {
        -n
    }
}

} // verus!
