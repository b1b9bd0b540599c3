// Tests for the field sampler, in fixed-point units of one millionth:
// 1.0 is written 1_000_000.

use streamtracer::field::{Bounds, CellIndex, ConfigError, CyclicFlags, Vec3, VectorField};

const ONE: i64 = 1_000_000;

/// Axes x = [0, 0.2, 0.3], y = [0, 1.1, 1.2, 1.3], z = [0, 1, 50, 56, 100];
/// the field's x component is 1.0 wherever the x index is 2, the y index is
/// at least 2 and the z index is at least 2, else 0; cyclic in x and z.
fn sample_field() -> VectorField {
    let xgrid = vec![0, 200_000, 300_000];
    let ygrid = vec![0, 1_100_000, 1_200_000, 1_300_000];
    let zgrid = vec![0, ONE, 50 * ONE, 56 * ONE, 100 * ONE];
    let (nx, ny, nz) = (3usize, 4usize, 5usize);
    let mut values = vec![0i64; nx * ny * nz * 3];
    for iy in 2..ny {
        for iz in 2..nz {
            values[((2 * ny + iy) * nz + iz) * 3] = ONE;
        }
    }
    let cyclic = CyclicFlags { x: true, y: false, z: true };
    VectorField::new(xgrid, ygrid, zgrid, values, cyclic).unwrap()
}

#[test]
fn test_grid_idx() {
    let f = sample_field();

    let x = Vec3 { x: 150_000, y: 1_050_000, z: 50_000 };
    assert_eq!(f.grid_idx(&x), CellIndex { x: 0, y: 0, z: 0 });

    let x = Vec3 { x: 250_000, y: 1_050_000, z: 50_000 };
    assert_eq!(f.grid_idx(&x), CellIndex { x: 1, y: 0, z: 0 });

    let x = Vec3 { x: 250_000, y: 1_150_000, z: 53 * ONE };
    assert_eq!(f.grid_idx(&x), CellIndex { x: 1, y: 1, z: 2 });
}

#[test]
fn test_grid_idx_on_grid_lines() {
    let f = sample_field();
    // a coordinate exactly on grid line i resolves to cell i, not i - 1
    let x = Vec3 { x: 200_000, y: 1_200_000, z: ONE };
    assert_eq!(f.grid_idx(&x), CellIndex { x: 1, y: 2, z: 1 });
    // a coordinate at the last grid value resolves to the last cell
    let x = Vec3 { x: 300_000, y: 1_300_000, z: 100 * ONE };
    assert_eq!(f.grid_idx(&x), CellIndex { x: 1, y: 2, z: 3 });
}

#[test]
fn test_vector_at_position() {
    let f = sample_field();

    let x = Vec3 { x: 150_000, y: 1_050_000, z: 50_000 };
    assert_eq!(f.vector_at_position(&x), Vec3 { x: 0, y: 0, z: 0 });

    // Exactly on a grid boundary in {y, z}, halfway along in {x}
    let x = Vec3 { x: 250_000, y: 1_200_000, z: 50 * ONE };
    assert_eq!(f.vector_at_position(&x), Vec3 { x: 500_000, y: 0, z: 0 });

    // Exactly on a grid boundary in {y, z}, 3/4 along in {x}
    let x = Vec3 { x: 275_000, y: 1_200_000, z: 50 * ONE };
    assert_eq!(f.vector_at_position(&x), Vec3 { x: 750_000, y: 0, z: 0 });
}

#[test]
fn test_vector_at_grid_corners_exact() {
    let f = sample_field();
    // stored 1.0: grid point (0.3, 1.2, 50)
    let x = Vec3 { x: 300_000, y: 1_200_000, z: 50 * ONE };
    assert_eq!(f.vector_at_position(&x), Vec3 { x: ONE, y: 0, z: 0 });
    // stored 0: grid point (0.2, 1.2, 50)
    let x = Vec3 { x: 200_000, y: 1_200_000, z: 50 * ONE };
    assert_eq!(f.vector_at_position(&x), Vec3 { x: 0, y: 0, z: 0 });
    // stored 0: the origin
    let x = Vec3 { x: 0, y: 0, z: 0 };
    assert_eq!(f.vector_at_position(&x), Vec3 { x: 0, y: 0, z: 0 });
}

#[test]
fn test_vector_linear_in_y_and_z() {
    let f = sample_field();
    // along y between 1.1 and 1.2 at (x, z) = (0.3, 50), the x component
    // rises linearly from 0 to 1.0
    let x = Vec3 { x: 300_000, y: 1_150_000, z: 50 * ONE };
    assert_eq!(f.vector_at_position(&x), Vec3 { x: 500_000, y: 0, z: 0 });
    // along z between 1 and 50 at (x, y) = (0.3, 1.2), likewise
    let x = Vec3 { x: 300_000, y: 1_200_000, z: 25_500_000 };
    assert_eq!(f.vector_at_position(&x), Vec3 { x: 500_000, y: 0, z: 0 });
}

#[test]
fn test_wrap_cyclic() {
    let f = sample_field();
    // x wraps at 0.3, z wraps at 100; y passes through unchanged
    let x = Vec3 { x: 350_000, y: 1_250_000, z: 101 * ONE };
    let w = f.wrap_cyclic(x);
    assert_eq!(w, Vec3 { x: 50_000, y: 1_250_000, z: ONE });
    // wrapping twice changes nothing more
    assert_eq!(f.wrap_cyclic(w), w);
    // a negative coordinate on a cyclic axis re-enters from the top
    let x = Vec3 { x: -50_000, y: 500_000, z: -ONE };
    assert_eq!(f.wrap_cyclic(x), Vec3 { x: 250_000, y: 500_000, z: 99 * ONE });
}

#[test]
fn test_check_bounds() {
    let f = sample_field();
    let inside = Vec3 { x: 150_000, y: 650_000, z: 50 * ONE };
    assert!(matches!(f.check_bounds(&inside), Bounds::In));
    // the closed upper boundary is still in bounds
    let edge = Vec3 { x: 300_000, y: 1_300_000, z: 100 * ONE };
    assert!(matches!(f.check_bounds(&edge), Bounds::In));
    let above = Vec3 { x: 300_001, y: 650_000, z: 50 * ONE };
    assert!(matches!(f.check_bounds(&above), Bounds::Out));
    let below = Vec3 { x: 150_000, y: -1, z: 50 * ONE };
    assert!(matches!(f.check_bounds(&below), Bounds::Out));
}

#[test]
fn test_new_rejects_bad_configurations() {
    let cyclic = CyclicFlags { x: false, y: false, z: false };
    let ok_axis = vec![0, ONE];
    let ok_values = vec![0i64; 2 * 2 * 2 * 3];

    // axis that does not start at 0
    let r = VectorField::new(
        vec![100, ONE],
        ok_axis.clone(),
        ok_axis.clone(),
        ok_values.clone(),
        cyclic,
    );
    assert_eq!(r.err(), Some(ConfigError::InvalidConfiguration));

    // axis with fewer than two coordinates
    let r = VectorField::new(
        vec![0],
        ok_axis.clone(),
        ok_axis.clone(),
        ok_values.clone(),
        cyclic,
    );
    assert_eq!(r.err(), Some(ConfigError::InvalidConfiguration));

    // axis that is not strictly increasing
    let r = VectorField::new(
        vec![0, ONE, ONE],
        ok_axis.clone(),
        ok_axis.clone(),
        vec![0i64; 3 * 2 * 2 * 3],
        cyclic,
    );
    assert_eq!(r.err(), Some(ConfigError::InvalidConfiguration));

    // tensor whose length does not match the axes
    let r = VectorField::new(
        ok_axis.clone(),
        ok_axis.clone(),
        ok_axis.clone(),
        vec![0i64; 23],
        cyclic,
    );
    assert_eq!(r.err(), Some(ConfigError::InvalidConfiguration));

    // field value beyond the documented magnitude limit
    let mut big = ok_values.clone();
    big[0] = streamtracer::FIELD_LIMIT + 1;
    let r = VectorField::new(ok_axis.clone(), ok_axis.clone(), ok_axis.clone(), big, cyclic);
    assert_eq!(r.err(), Some(ConfigError::InvalidConfiguration));

    // coordinate beyond the documented magnitude limit
    let r = VectorField::new(
        vec![0, streamtracer::COORD_LIMIT + 1],
        ok_axis.clone(),
        ok_axis.clone(),
        ok_values.clone(),
        cyclic,
    );
    assert_eq!(r.err(), Some(ConfigError::InvalidConfiguration));

    // and a valid configuration passes
    let r = VectorField::new(ok_axis.clone(), ok_axis.clone(), ok_axis, ok_values, cyclic);
    assert!(r.is_ok());
}
