//! Trilinear interpolation of a scalar defined on the eight corners of a
//! cell, in exact fixed-point arithmetic.
//!
//! The fractional offset along each axis is the exact rational `t / d`, where
//! `t` is the distance from the cell's lower corner and `d` is the cell size.
//! The blend is computed as one integer numerator divided once by
//! `dx * dy * dz` (Euclidean division), so the result is exactly the floor of
//! the mathematical trilinear value.

use vstd::prelude::*;
use vstd::arithmetic::div_mod::lemma_div_multiples_vanish;
use vstd::arithmetic::div_mod::lemma_fundamental_div_mod;
use vstd::arithmetic::div_mod::lemma_fundamental_div_mod_converse;
use vstd::arithmetic::div_mod::lemma_mod_division_less_than_divisor;
use crate::num::div_floor_i128;
use crate::num::lemma_mul_bound;
use crate::COORD_LIMIT;
use crate::FIELD_LIMIT;
use crate::OFFSET_LIMIT;

verus! {

/// Scalar values on the eight corners of a cell. In the name `cXYZ`, the
/// first digit is the x side (0 = lower, 1 = upper), then y, then z.
pub struct CornerScalars {
    pub c000: i64,
    pub c100: i64,
    pub c010: i64,
    pub c110: i64,
    pub c001: i64,
    pub c101: i64,
    pub c011: i64,
    pub c111: i64,
}

/// The fractional position inside a cell, one exact rational `t / d` per
/// axis: `t` is the signed distance from the cell's lower corner and `d` the
/// cell size. `t` outside `[0, d]` means linear extrapolation outside the
/// cell.
pub struct CellFrac {
    pub tx: i64,
    pub dx: i64,
    pub ty: i64,
    pub dy: i64,
    pub tz: i64,
    pub dz: i64,
}

impl CornerScalars {
    /// Every corner value has magnitude at most `lim`.
    pub open spec fn bounded(self, lim: int) -> bool {
        &&& -lim <= self.c000 <= lim
        &&& -lim <= self.c100 <= lim
        &&& -lim <= self.c010 <= lim
        &&& -lim <= self.c110 <= lim
        &&& -lim <= self.c001 <= lim
        &&& -lim <= self.c101 <= lim
        &&& -lim <= self.c011 <= lim
        &&& -lim <= self.c111 <= lim
    }
}

impl CellFrac {
    /// Cell sizes are positive and within the coordinate limit; offsets are
    /// within the range that the engine can produce for any sampled point.
    pub open spec fn wf(self) -> bool {
        &&& 1 <= self.dx <= COORD_LIMIT
        &&& 1 <= self.dy <= COORD_LIMIT
        &&& 1 <= self.dz <= COORD_LIMIT
        &&& -OFFSET_LIMIT <= self.tx <= OFFSET_LIMIT
        &&& -OFFSET_LIMIT <= self.ty <= OFFSET_LIMIT
        &&& -OFFSET_LIMIT <= self.tz <= OFFSET_LIMIT
    }
}

/// Numerator of the trilinear blend: the classical eight-corner sum, where
/// each corner is weighted by the product of `t` or `d - t` factors.
pub open spec fn tri_num(
    c000: int, c100: int, c010: int, c110: int,
    c001: int, c101: int, c011: int, c111: int,
    tx: int, dx: int, ty: int, dy: int, tz: int, dz: int,
) -> int {
    c000 * (dx - tx) * (dy - ty) * (dz - tz)
        + c100 * tx * (dy - ty) * (dz - tz)
        + c010 * (dx - tx) * ty * (dz - tz)
        + c110 * tx * ty * (dz - tz)
        + c001 * (dx - tx) * (dy - ty) * tz
        + c101 * tx * (dy - ty) * tz
        + c011 * (dx - tx) * ty * tz
        + c111 * tx * ty * tz
}

/// Denominator of the trilinear blend: the cell volume.
pub open spec fn tri_den(dx: int, dy: int, dz: int) -> int {
    dx * dy * dz
}

/// The trilinear blend itself: floor of the exact rational value.
pub open spec fn tri_val(
    c000: int, c100: int, c010: int, c110: int,
    c001: int, c101: int, c011: int, c111: int,
    tx: int, dx: int, ty: int, dy: int, tz: int, dz: int,
) -> int {
    tri_num(c000, c100, c010, c110, c001, c101, c011, c111, tx, dx, ty, dy, tz, dz)
        / tri_den(dx, dy, dz)
}

/// Numerator of a one-dimensional linear blend of `v0` and `v1` with weight
/// `t / d`.
pub open spec fn blend_num(v0: int, v1: int, t: int, d: int) -> int {
    v0 * (d - t) + v1 * t
}

/// A cell volume is positive and at most `2^84`.
proof fn lemma_den_bounds(dx: int, dy: int, dz: int)
    requires
        1 <= dx <= COORD_LIMIT,
        1 <= dy <= COORD_LIMIT,
        1 <= dz <= COORD_LIMIT,
    ensures
        1 <= tri_den(dx, dy, dz) <= 0x1000000000000000000000int,
{
    assert(1 <= dx * dy * dz <= 0x1000000000000000000000int) by (nonlinear_arith)
        requires
            1 <= dx <= 0x10000000int,
            1 <= dy <= 0x10000000int,
            1 <= dz <= 0x10000000int,
    ;
}

/// Trilinear interpolation of the eight corner scalars at the fractional
/// cell position `f`, exact up to one final floor division.
pub fn interp_trilinear(c: &CornerScalars, f: &CellFrac) -> (r: i128)
    requires
        c.bounded(FIELD_LIMIT as int),
        f.wf(),
    ensures
        r as int == tri_val(
            c.c000 as int, c.c100 as int, c.c010 as int, c.c110 as int,
            c.c001 as int, c.c101 as int, c.c011 as int, c.c111 as int,
            f.tx as int, f.dx as int, f.ty as int, f.dy as int, f.tz as int, f.dz as int,
        ),
{
    let tx = f.tx as i128;
    let dx = f.dx as i128;
    let ty = f.ty as i128;
    let dy = f.dy as i128;
    let tz = f.tz as i128;
    let dz = f.dz as i128;
    // weights: w_0 = d - t, w_1 = t; each has magnitude at most 2^32
    let wx0 = dx - tx;
    let wx1 = tx;
    let wy0 = dy - ty;
    let wy1 = ty;
    let wz0 = dz - tz;
    let wz1 = tz;
    proof {
        lemma_mul_bound(c.c000 as int, 0x1000000int, wx0 as int, 0x100000000int);
        lemma_mul_bound(c.c100 as int, 0x1000000int, wx1 as int, 0x100000000int);
        lemma_mul_bound(c.c010 as int, 0x1000000int, wx0 as int, 0x100000000int);
        lemma_mul_bound(c.c110 as int, 0x1000000int, wx1 as int, 0x100000000int);
        lemma_mul_bound(c.c001 as int, 0x1000000int, wx0 as int, 0x100000000int);
        lemma_mul_bound(c.c101 as int, 0x1000000int, wx1 as int, 0x100000000int);
        lemma_mul_bound(c.c011 as int, 0x1000000int, wx0 as int, 0x100000000int);
        lemma_mul_bound(c.c111 as int, 0x1000000int, wx1 as int, 0x100000000int);
    }
    // blend along x: four values of magnitude at most 2^57
    let x00 = (c.c000 as i128) * wx0 + (c.c100 as i128) * wx1;
    let x10 = (c.c010 as i128) * wx0 + (c.c110 as i128) * wx1;
    let x01 = (c.c001 as i128) * wx0 + (c.c101 as i128) * wx1;
    let x11 = (c.c011 as i128) * wx0 + (c.c111 as i128) * wx1;
    proof {
        lemma_mul_bound(x00 as int, 0x200000000000000int, wy0 as int, 0x100000000int);
        lemma_mul_bound(x10 as int, 0x200000000000000int, wy1 as int, 0x100000000int);
        lemma_mul_bound(x01 as int, 0x200000000000000int, wy0 as int, 0x100000000int);
        lemma_mul_bound(x11 as int, 0x200000000000000int, wy1 as int, 0x100000000int);
    }
    // blend along y: two values of magnitude at most 2^90
    let y0 = x00 * wy0 + x10 * wy1;
    let y1 = x01 * wy0 + x11 * wy1;
    proof {
        lemma_mul_bound(y0 as int, 0x40000000000000000000000int, wz0 as int, 0x100000000int);
        lemma_mul_bound(y1 as int, 0x40000000000000000000000int, wz1 as int, 0x100000000int);
    }
    // blend along z: the numerator, of magnitude at most 2^123
    let numer = y0 * wz0 + y1 * wz1;
    proof {
        assert(y0 as int == (c.c000 as int) * (wx0 as int) * (wy0 as int)
            + (c.c100 as int) * (wx1 as int) * (wy0 as int)
            + (c.c010 as int) * (wx0 as int) * (wy1 as int)
            + (c.c110 as int) * (wx1 as int) * (wy1 as int)) by (nonlinear_arith)
            requires
                y0 as int == (x00 as int) * (wy0 as int) + (x10 as int) * (wy1 as int),
                x00 as int == (c.c000 as int) * (wx0 as int) + (c.c100 as int) * (wx1 as int),
                x10 as int == (c.c010 as int) * (wx0 as int) + (c.c110 as int) * (wx1 as int),
        ;
        assert(y1 as int == (c.c001 as int) * (wx0 as int) * (wy0 as int)
            + (c.c101 as int) * (wx1 as int) * (wy0 as int)
            + (c.c011 as int) * (wx0 as int) * (wy1 as int)
            + (c.c111 as int) * (wx1 as int) * (wy1 as int)) by (nonlinear_arith)
            requires
                y1 as int == (x01 as int) * (wy0 as int) + (x11 as int) * (wy1 as int),
                x01 as int == (c.c001 as int) * (wx0 as int) + (c.c101 as int) * (wx1 as int),
                x11 as int == (c.c011 as int) * (wx0 as int) + (c.c111 as int) * (wx1 as int),
        ;
        assert(numer as int == (c.c000 as int) * (wx0 as int) * (wy0 as int) * (wz0 as int)
            + (c.c100 as int) * (wx1 as int) * (wy0 as int) * (wz0 as int)
            + (c.c010 as int) * (wx0 as int) * (wy1 as int) * (wz0 as int)
            + (c.c110 as int) * (wx1 as int) * (wy1 as int) * (wz0 as int)
            + (c.c001 as int) * (wx0 as int) * (wy0 as int) * (wz1 as int)
            + (c.c101 as int) * (wx1 as int) * (wy0 as int) * (wz1 as int)
            + (c.c011 as int) * (wx0 as int) * (wy1 as int) * (wz1 as int)
            + (c.c111 as int) * (wx1 as int) * (wy1 as int) * (wz1 as int)) by (nonlinear_arith)
            requires
                numer as int == (y0 as int) * (wz0 as int) + (y1 as int) * (wz1 as int),
                y0 as int == (c.c000 as int) * (wx0 as int) * (wy0 as int)
                    + (c.c100 as int) * (wx1 as int) * (wy0 as int)
                    + (c.c010 as int) * (wx0 as int) * (wy1 as int)
                    + (c.c110 as int) * (wx1 as int) * (wy1 as int),
                y1 as int == (c.c001 as int) * (wx0 as int) * (wy0 as int)
                    + (c.c101 as int) * (wx1 as int) * (wy0 as int)
                    + (c.c011 as int) * (wx0 as int) * (wy1 as int)
                    + (c.c111 as int) * (wx1 as int) * (wy1 as int),
        ;
        lemma_den_bounds(f.dx as int, f.dy as int, f.dz as int);
        lemma_mul_bound(f.dx as int, 0x10000000int, f.dy as int, 0x10000000int);
    }
    let den = dx * dy * dz;
    div_floor_i128(numer, den)
}

/// When every fractional offset is exactly 0 or exactly the cell size, the
/// trilinear blend equals the value stored at the selected corner. The three
/// booleans pick the corner: `true` selects the upper side of an axis.
#[verifier::rlimit(100)]
pub proof fn lemma_tri_val_corner(
    c000: int, c100: int, c010: int, c110: int,
    c001: int, c101: int, c011: int, c111: int,
    dx: int, dy: int, dz: int, bx: bool, by: bool, bz: bool,
)
    requires
        1 <= dx,
        1 <= dy,
        1 <= dz,
    ensures
        tri_val(
            c000, c100, c010, c110, c001, c101, c011, c111,
            if bx { dx } else { 0 }, dx,
            if by { dy } else { 0 }, dy,
            if bz { dz } else { 0 }, dz,
        ) == corner_select(c000, c100, c010, c110, c001, c101, c011, c111, bx, by, bz),
{
    let tx: int = if bx { dx } else { 0 };
    lemma_tri_val_edge(c000, c100, c010, c110, c001, c101, c011, c111, tx, dx, dy, dz, by, bz);
    let e0 = corner_select(c000, c100, c010, c110, c001, c101, c011, c111, false, by, bz);
    let e1 = corner_select(c000, c100, c010, c110, c001, c101, c011, c111, true, by, bz);
    if bx {
        assert(blend_num(e0, e1, dx, dx) == dx * e1) by (nonlinear_arith)
            requires
                blend_num(e0, e1, dx, dx) == e0 * (dx - dx) + e1 * dx,
        ;
        lemma_div_multiples_vanish(e1, dx);
    } else {
        assert(blend_num(e0, e1, 0, dx) == dx * e0) by (nonlinear_arith)
            requires
                blend_num(e0, e1, 0, dx) == e0 * (dx - 0) + e1 * 0,
        ;
        lemma_div_multiples_vanish(e0, dx);
    }
}

/// The corner picked by three side booleans (`true` = upper side).
pub open spec fn corner_select(
    c000: int, c100: int, c010: int, c110: int,
    c001: int, c101: int, c011: int, c111: int,
    bx: bool, by: bool, bz: bool,
) -> int {
    if bx {
        if by { if bz { c111 } else { c110 } } else { if bz { c101 } else { c100 } }
    } else {
        if by { if bz { c011 } else { c010 } } else { if bz { c001 } else { c000 } }
    }
}

/// Scaling numerator and denominator by the same positive factor does not
/// change a floor division.
pub proof fn lemma_div_scaled(a: int, d: int, m: int)
    requires
        1 <= d,
        1 <= m,
    ensures
        (a * m) / (d * m) == a / d,
{
    lemma_fundamental_div_mod(a, d);
    lemma_mod_division_less_than_divisor(a, d);
    let q = a / d;
    let r = a % d;
    assert(a * m == q * (d * m) + r * m && 0 <= r * m < d * m) by (nonlinear_arith)
        requires
            a == d * q + r,
            0 <= r < d,
            1 <= m,
    ;
    lemma_fundamental_div_mod_converse(a * m, d * m, q, r * m);
}

/// On a cell edge (both other offsets pinned to a grid line, that is to 0 or
/// to the full cell size), the trilinear blend degenerates to the
/// one-dimensional linear blend of the edge's two corner values: the value is
/// linear in `tx`.
#[verifier::rlimit(100)]
pub proof fn lemma_tri_val_edge(
    c000: int, c100: int, c010: int, c110: int,
    c001: int, c101: int, c011: int, c111: int,
    tx: int, dx: int, dy: int, dz: int, by: bool, bz: bool,
)
    requires
        1 <= dx,
        1 <= dy,
        1 <= dz,
    ensures
        tri_val(
            c000, c100, c010, c110, c001, c101, c011, c111,
            tx, dx,
            if by { dy } else { 0 }, dy,
            if bz { dz } else { 0 }, dz,
        ) == blend_num(
            corner_select(c000, c100, c010, c110, c001, c101, c011, c111, false, by, bz),
            corner_select(c000, c100, c010, c110, c001, c101, c011, c111, true, by, bz),
            tx, dx,
        ) / dx,
{
    let ty: int = if by { dy } else { 0 };
    let tz: int = if bz { dz } else { 0 };
    let e0 = corner_select(c000, c100, c010, c110, c001, c101, c011, c111, false, by, bz);
    let e1 = corner_select(c000, c100, c010, c110, c001, c101, c011, c111, true, by, bz);
    let b = blend_num(e0, e1, tx, dx);
    let n = tri_num(c000, c100, c010, c110, c001, c101, c011, c111, tx, dx, ty, dy, tz, dz);
    if by {
        if bz {
            assert(n == b * (dy * dz)) by (nonlinear_arith)
                requires
                    ty == dy,
                    tz == dz,
                    b == c011 * (dx - tx) + c111 * tx,
                    n == c000 * (dx - tx) * (dy - ty) * (dz - tz)
                        + c100 * tx * (dy - ty) * (dz - tz)
                        + c010 * (dx - tx) * ty * (dz - tz)
                        + c110 * tx * ty * (dz - tz)
                        + c001 * (dx - tx) * (dy - ty) * tz
                        + c101 * tx * (dy - ty) * tz
                        + c011 * (dx - tx) * ty * tz
                        + c111 * tx * ty * tz,
            ;
        } else {
            assert(n == b * (dy * dz)) by (nonlinear_arith)
                requires
                    ty == dy,
                    tz == 0,
                    b == c010 * (dx - tx) + c110 * tx,
                    n == c000 * (dx - tx) * (dy - ty) * (dz - tz)
                        + c100 * tx * (dy - ty) * (dz - tz)
                        + c010 * (dx - tx) * ty * (dz - tz)
                        + c110 * tx * ty * (dz - tz)
                        + c001 * (dx - tx) * (dy - ty) * tz
                        + c101 * tx * (dy - ty) * tz
                        + c011 * (dx - tx) * ty * tz
                        + c111 * tx * ty * tz,
            ;
        }
    } else {
        if bz {
            assert(n == b * (dy * dz)) by (nonlinear_arith)
                requires
                    ty == 0,
                    tz == dz,
                    b == c001 * (dx - tx) + c101 * tx,
                    n == c000 * (dx - tx) * (dy - ty) * (dz - tz)
                        + c100 * tx * (dy - ty) * (dz - tz)
                        + c010 * (dx - tx) * ty * (dz - tz)
                        + c110 * tx * ty * (dz - tz)
                        + c001 * (dx - tx) * (dy - ty) * tz
                        + c101 * tx * (dy - ty) * tz
                        + c011 * (dx - tx) * ty * tz
                        + c111 * tx * ty * tz,
            ;
        } else {
            assert(n == b * (dy * dz)) by (nonlinear_arith)
                requires
                    ty == 0,
                    tz == 0,
                    b == c000 * (dx - tx) + c100 * tx,
                    n == c000 * (dx - tx) * (dy - ty) * (dz - tz)
                        + c100 * tx * (dy - ty) * (dz - tz)
                        + c010 * (dx - tx) * ty * (dz - tz)
                        + c110 * tx * ty * (dz - tz)
                        + c001 * (dx - tx) * (dy - ty) * tz
                        + c101 * tx * (dy - ty) * tz
                        + c011 * (dx - tx) * ty * tz
                        + c111 * tx * ty * tz,
            ;
        }
    }
    assert(tri_den(dx, dy, dz) == dx * (dy * dz) && 1 <= dy * dz) by (nonlinear_arith)
        requires
            1 <= dx,
            1 <= dy,
            1 <= dz,
    ;
    lemma_div_scaled(b, dx, dy * dz);
    assert(b * (dy * dz) / (dx * (dy * dz)) == b / dx);
}

/// As `lemma_tri_val_edge`, for an edge along y: with the x and z offsets
/// pinned to a grid line, the blend is the one-dimensional linear blend of
/// the edge's two corner values, linear in `ty`.
#[verifier::rlimit(100)]
pub proof fn lemma_tri_val_edge_y(
    c000: int, c100: int, c010: int, c110: int,
    c001: int, c101: int, c011: int, c111: int,
    ty: int, dx: int, dy: int, dz: int, bx: bool, bz: bool,
)
    requires
        1 <= dx,
        1 <= dy,
        1 <= dz,
    ensures
        tri_val(
            c000, c100, c010, c110, c001, c101, c011, c111,
            if bx { dx } else { 0 }, dx,
            ty, dy,
            if bz { dz } else { 0 }, dz,
        ) == blend_num(
            corner_select(c000, c100, c010, c110, c001, c101, c011, c111, bx, false, bz),
            corner_select(c000, c100, c010, c110, c001, c101, c011, c111, bx, true, bz),
            ty, dy,
        ) / dy,
{
    let tx: int = if bx { dx } else { 0 };
    let tz: int = if bz { dz } else { 0 };
    let e0 = corner_select(c000, c100, c010, c110, c001, c101, c011, c111, bx, false, bz);
    let e1 = corner_select(c000, c100, c010, c110, c001, c101, c011, c111, bx, true, bz);
    let b = blend_num(e0, e1, ty, dy);
    let n = tri_num(c000, c100, c010, c110, c001, c101, c011, c111, tx, dx, ty, dy, tz, dz);
    let n0 = c000 * (dx - tx) * (dy - ty) + c100 * tx * (dy - ty)
        + c010 * (dx - tx) * ty + c110 * tx * ty;
    let n1 = c001 * (dx - tx) * (dy - ty) + c101 * tx * (dy - ty)
        + c011 * (dx - tx) * ty + c111 * tx * ty;
    assert(n == n0 * (dz - tz) + n1 * tz) by (nonlinear_arith)
        requires
            n == c000 * (dx - tx) * (dy - ty) * (dz - tz)
                    + c100 * tx * (dy - ty) * (dz - tz)
                    + c010 * (dx - tx) * ty * (dz - tz)
                    + c110 * tx * ty * (dz - tz)
                    + c001 * (dx - tx) * (dy - ty) * tz
                    + c101 * tx * (dy - ty) * tz
                    + c011 * (dx - tx) * ty * tz
                    + c111 * tx * ty * tz,
            n0 == c000 * (dx - tx) * (dy - ty) + c100 * tx * (dy - ty)
                + c010 * (dx - tx) * ty + c110 * tx * ty,
            n1 == c001 * (dx - tx) * (dy - ty) + c101 * tx * (dy - ty)
                + c011 * (dx - tx) * ty + c111 * tx * ty,
    ;
    let np = if bz { n1 } else { n0 };
    if bz {
        assert(n == np * dz) by (nonlinear_arith)
            requires
                tz == dz,
                np == n1,
                n == n0 * (dz - tz) + n1 * tz,
        ;
    } else {
        assert(n == np * dz) by (nonlinear_arith)
            requires
                tz == 0,
                np == n0,
                n == n0 * (dz - tz) + n1 * tz,
        ;
    }
    if bx {
        assert(np == b * dx) by (nonlinear_arith)
            requires
                tx == dx,
                b == e0 * (dy - ty) + e1 * ty,
                np == (if bz { c001 } else { c000 }) * (dx - tx) * (dy - ty)
                    + e0 * tx * (dy - ty)
                    + (if bz { c011 } else { c010 }) * (dx - tx) * ty
                    + e1 * tx * ty,
        ;
    } else {
        assert(np == b * dx) by (nonlinear_arith)
            requires
                tx == 0,
                b == e0 * (dy - ty) + e1 * ty,
                np == e0 * (dx - tx) * (dy - ty)
                    + (if bz { c101 } else { c100 }) * tx * (dy - ty)
                    + e1 * (dx - tx) * ty
                    + (if bz { c111 } else { c110 }) * tx * ty,
        ;
    }
    assert(n == b * (dx * dz)) by (nonlinear_arith)
        requires
            n == np * dz,
            np == b * dx,
    ;
    assert(tri_den(dx, dy, dz) == dy * (dx * dz) && 1 <= dx * dz) by (nonlinear_arith)
        requires
            1 <= dx,
            1 <= dy,
            1 <= dz,
    ;
    lemma_div_scaled(b, dy, dx * dz);
    assert(b * (dx * dz) / (dy * (dx * dz)) == b / dy);
}

/// As `lemma_tri_val_edge`, for an edge along z: with the x and y offsets
/// pinned to a grid line, the blend is the one-dimensional linear blend of
/// the edge's two corner values, linear in `tz`.
#[verifier::rlimit(100)]
pub proof fn lemma_tri_val_edge_z(
    c000: int, c100: int, c010: int, c110: int,
    c001: int, c101: int, c011: int, c111: int,
    tz: int, dx: int, dy: int, dz: int, bx: bool, by: bool,
)
    requires
        1 <= dx,
        1 <= dy,
        1 <= dz,
    ensures
        tri_val(
            c000, c100, c010, c110, c001, c101, c011, c111,
            if bx { dx } else { 0 }, dx,
            if by { dy } else { 0 }, dy,
            tz, dz,
        ) == blend_num(
            corner_select(c000, c100, c010, c110, c001, c101, c011, c111, bx, by, false),
            corner_select(c000, c100, c010, c110, c001, c101, c011, c111, bx, by, true),
            tz, dz,
        ) / dz,
{
    let tx: int = if bx { dx } else { 0 };
    let ty: int = if by { dy } else { 0 };
    let e0 = corner_select(c000, c100, c010, c110, c001, c101, c011, c111, bx, by, false);
    let e1 = corner_select(c000, c100, c010, c110, c001, c101, c011, c111, bx, by, true);
    let b = blend_num(e0, e1, tz, dz);
    let n = tri_num(c000, c100, c010, c110, c001, c101, c011, c111, tx, dx, ty, dy, tz, dz);
    let n0 = c000 * (dx - tx) * (dy - ty) + c100 * tx * (dy - ty)
        + c010 * (dx - tx) * ty + c110 * tx * ty;
    let n1 = c001 * (dx - tx) * (dy - ty) + c101 * tx * (dy - ty)
        + c011 * (dx - tx) * ty + c111 * tx * ty;
    assert(n == n0 * (dz - tz) + n1 * tz) by (nonlinear_arith)
        requires
            n == c000 * (dx - tx) * (dy - ty) * (dz - tz)
                    + c100 * tx * (dy - ty) * (dz - tz)
                    + c010 * (dx - tx) * ty * (dz - tz)
                    + c110 * tx * ty * (dz - tz)
                    + c001 * (dx - tx) * (dy - ty) * tz
                    + c101 * tx * (dy - ty) * tz
                    + c011 * (dx - tx) * ty * tz
                    + c111 * tx * ty * tz,
            n0 == c000 * (dx - tx) * (dy - ty) + c100 * tx * (dy - ty)
                + c010 * (dx - tx) * ty + c110 * tx * ty,
            n1 == c001 * (dx - tx) * (dy - ty) + c101 * tx * (dy - ty)
                + c011 * (dx - tx) * ty + c111 * tx * ty,
    ;
    assert(n0 == e0 * (dx * dy) && n1 == e1 * (dx * dy)) by (nonlinear_arith)
        requires
            tx == if bx { dx } else { 0int },
            ty == if by { dy } else { 0int },
            e0 == (if bx {
                if by { c110 } else { c100 }
            } else {
                if by { c010 } else { c000 }
            }),
            e1 == (if bx {
                if by { c111 } else { c101 }
            } else {
                if by { c011 } else { c001 }
            }),
            n0 == c000 * (dx - tx) * (dy - ty) + c100 * tx * (dy - ty)
                + c010 * (dx - tx) * ty + c110 * tx * ty,
            n1 == c001 * (dx - tx) * (dy - ty) + c101 * tx * (dy - ty)
                + c011 * (dx - tx) * ty + c111 * tx * ty,
    ;
    assert(n == b * (dx * dy)) by (nonlinear_arith)
        requires
            n == n0 * (dz - tz) + n1 * tz,
            n0 == e0 * (dx * dy),
            n1 == e1 * (dx * dy),
            b == e0 * (dz - tz) + e1 * tz,
    ;
    assert(tri_den(dx, dy, dz) == dz * (dx * dy) && 1 <= dx * dy) by (nonlinear_arith)
        requires
            1 <= dx,
            1 <= dy,
            1 <= dz,
    ;
    lemma_div_scaled(b, dz, dx * dy);
    assert(b * (dx * dy) / (dz * (dx * dy)) == b / dz);
}

} // verus!
