// Tests for the trilinear interpolator, in fixed-point units of one
// millionth: 1.0 is written 1_000_000.

use streamtracer::interp::{interp_trilinear, CellFrac, CornerScalars};

const ONE: i64 = 1_000_000;

#[test]
fn test_interp_trilin() {
    // corner value equals the z side: 0 on the lower z face, 1.0 on the upper
    let values = CornerScalars {
        c000: 0,
        c100: 0,
        c010: 0,
        c110: 0,
        c001: ONE,
        c101: ONE,
        c011: ONE,
        c111: ONE,
    };
    let a = CellFrac {
        tx: 300_000,
        dx: ONE,
        ty: 200_000,
        dy: ONE,
        tz: 400_000,
        dz: ONE,
    };
    let b = interp_trilinear(&values, &a);
    assert_eq!(b, 400_000);
}

#[test]
fn test_interp_corners_exact() {
    let values = CornerScalars {
        c000: -7,
        c100: 13,
        c010: 29,
        c110: -3,
        c001: 12_345,
        c101: -12_345,
        c011: 1,
        c111: ONE,
    };
    let corners = [
        (0, 0, 0, values.c000),
        (1, 0, 0, values.c100),
        (0, 1, 0, values.c010),
        (1, 1, 0, values.c110),
        (0, 0, 1, values.c001),
        (1, 0, 1, values.c101),
        (0, 1, 1, values.c011),
        (1, 1, 1, values.c111),
    ];
    for &(bx, by, bz, expected) in corners.iter() {
        let a = CellFrac {
            tx: bx * 250_000,
            dx: 250_000,
            ty: by * 777,
            dy: 777,
            tz: bz * ONE,
            dz: ONE,
        };
        assert_eq!(interp_trilinear(&values, &a), expected as i128);
    }
}

#[test]
fn test_interp_linear_on_edge() {
    // y and z pinned to the lower grid line: the blend is linear in tx
    let values = CornerScalars {
        c000: 0,
        c100: ONE,
        c010: 55,
        c110: 66,
        c001: 77,
        c101: 88,
        c011: 99,
        c111: 111,
    };
    for t in [0i64, 100_000, 250_000, 500_000, 999_999, 1_000_000] {
        let a = CellFrac {
            tx: t,
            dx: ONE,
            ty: 0,
            dy: ONE,
            tz: 0,
            dz: ONE,
        };
        assert_eq!(interp_trilinear(&values, &a), t as i128);
    }
}

#[test]
fn test_interp_extrapolates_outside_cell() {
    // a negative offset extrapolates the same line beyond the lower corner
    let values = CornerScalars {
        c000: 0,
        c100: ONE,
        c010: 0,
        c110: ONE,
        c001: 0,
        c101: ONE,
        c011: 0,
        c111: ONE,
    };
    let a = CellFrac {
        tx: -500_000,
        dx: ONE,
        ty: 0,
        dy: ONE,
        tz: 0,
        dz: ONE,
    };
    assert_eq!(interp_trilinear(&values, &a), -500_000);
}
