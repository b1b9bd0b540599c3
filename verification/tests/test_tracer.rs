// Tests for the streamline tracer, in fixed-point units of one millionth:
// 1.0 is written 1_000_000.

use streamtracer::field::{CyclicFlags, Vec3, VectorField};
use streamtracer::trace::{trace_streamline, trace_streamlines, TracerStatus};

const ONE: i64 = 1_000_000;

/// A cubic grid spanning 0..10 with step 0.5 and a uniform unit field in the
/// x direction.
fn uniform_field() -> VectorField {
    let axis: Vec<i64> = (0..21).map(|i| i * ONE / 2).collect();
    let n = axis.len();
    let mut values = vec![0i64; n * n * n * 3];
    for i in 0..(n * n * n) {
        values[i * 3] = ONE;
    }
    let cyclic = CyclicFlags { x: false, y: false, z: false };
    VectorField::new(axis.clone(), axis.clone(), axis, values, cyclic).unwrap()
}

#[test]
fn test_uniform_field() {
    let f = uniform_field();
    let seed = Vec3 { x: 5 * ONE, y: 5 * ONE, z: 5 * ONE };
    let direction = 1;
    let step_size = ONE / 10;

    // Should take 50 steps before going out of bounds
    let max_steps = 100;
    let result = trace_streamline(seed, &f, direction, step_size, max_steps);
    assert_eq!(result.status.n_points, 51);
    assert_eq!(result.status.rot, TracerStatus::OutOfBounds);

    let max_steps = 10;
    let result = trace_streamline(seed, &f, direction, step_size, max_steps);
    assert_eq!(result.status.n_points, max_steps);
    assert_eq!(result.status.rot, TracerStatus::RanOutOfSteps);
}

#[test]
fn test_uniform_field_line_points() {
    let f = uniform_field();
    let seed = Vec3 { x: 5 * ONE, y: 5 * ONE, z: 5 * ONE };
    let result = trace_streamline(seed, &f, 1, ONE / 10, 8);
    assert_eq!(result.line.len(), 8);
    for (i, p) in result.line.iter().enumerate() {
        // each step advances exactly 0.1 in x and nothing else
        let expected = Vec3 { x: 5 * ONE + i as i64 * ONE / 10, y: 5 * ONE, z: 5 * ONE };
        assert_eq!(*p, expected);
    }
}

#[test]
fn test_zero_fill_after_exit() {
    let f = uniform_field();
    // a seed near the upper x boundary leaves quickly; trailing rows are zero
    let seed = Vec3 { x: 9_950_000, y: 5 * ONE, z: 5 * ONE };
    let result = trace_streamline(seed, &f, 1, ONE, 6);
    assert_eq!(result.status.rot, TracerStatus::OutOfBounds);
    let n = result.status.n_points;
    assert!(1 <= n && n < 6);
    for i in n..6 {
        assert_eq!(result.line[i], Vec3 { x: 0, y: 0, z: 0 });
    }
}

#[test]
fn test_backward_direction() {
    let f = uniform_field();
    let seed = Vec3 { x: 5 * ONE, y: 5 * ONE, z: 5 * ONE };
    // backward through a +x field moves in -x and leaves after 50 steps
    let result = trace_streamline(seed, &f, -1, ONE / 10, 100);
    assert_eq!(result.status.n_points, 51);
    assert_eq!(result.status.rot, TracerStatus::OutOfBounds);
    assert_eq!(result.line[1], Vec3 { x: 5 * ONE - ONE / 10, y: 5 * ONE, z: 5 * ONE });
}

#[test]
fn test_direction_magnitude_ignored() {
    let f = uniform_field();
    let seed = Vec3 { x: 5 * ONE, y: 5 * ONE, z: 5 * ONE };
    let a = trace_streamline(seed, &f, 1, ONE / 10, 20);
    let b = trace_streamline(seed, &f, 7, ONE / 10, 20);
    assert_eq!(a.status.rot, b.status.rot);
    assert_eq!(a.status.n_points, b.status.n_points);
    for i in 0..20 {
        assert_eq!(a.line[i], b.line[i]);
    }
}

#[test]
fn test_zero_field_stays_put() {
    // the field vanishes everywhere: the trace stays on its seed until the
    // step budget runs out
    let axis = vec![0, ONE, 2 * ONE];
    let values = vec![0i64; 3 * 3 * 3 * 3];
    let cyclic = CyclicFlags { x: false, y: false, z: false };
    let f = VectorField::new(axis.clone(), axis.clone(), axis, values, cyclic).unwrap();
    let seed = Vec3 { x: ONE, y: ONE, z: ONE };
    let result = trace_streamline(seed, &f, 1, ONE / 2, 5);
    assert_eq!(result.status.rot, TracerStatus::RanOutOfSteps);
    assert_eq!(result.status.n_points, 5);
    for i in 0..5 {
        assert_eq!(result.line[i], seed);
    }
}

#[test]
fn test_cyclic_axis_reenters() {
    // the x axis wraps: a trace crossing the upper x bound re-enters at 0
    // and only the step budget ends it
    let axis = vec![0, ONE, 2 * ONE];
    let n = 3usize;
    let mut values = vec![0i64; n * n * n * 3];
    for i in 0..(n * n * n) {
        values[i * 3] = ONE;
    }
    let cyclic = CyclicFlags { x: true, y: false, z: false };
    let f = VectorField::new(axis.clone(), axis.clone(), axis, values, cyclic).unwrap();
    let seed = Vec3 { x: ONE, y: ONE, z: ONE };
    let result = trace_streamline(seed, &f, 1, ONE / 2, 9);
    assert_eq!(result.status.rot, TracerStatus::RanOutOfSteps);
    assert_eq!(result.status.n_points, 9);
    // positions cycle 1.0, 1.5, 0.0, 0.5, 1.0, ...
    assert_eq!(result.line[1], Vec3 { x: 3 * ONE / 2, y: ONE, z: ONE });
    assert_eq!(result.line[2], Vec3 { x: 0, y: ONE, z: ONE });
    assert_eq!(result.line[3], Vec3 { x: ONE / 2, y: ONE, z: ONE });
    assert_eq!(result.line[4], Vec3 { x: ONE, y: ONE, z: ONE });
}

#[test]
fn test_batch_preserves_seed_order() {
    let axis: Vec<i64> = (0..21).map(|i| i * ONE / 2).collect();
    let n = axis.len();
    let mut values = vec![0i64; n * n * n * 3];
    for i in 0..(n * n * n) {
        values[i * 3] = ONE;
    }
    let cyclic = CyclicFlags { x: false, y: false, z: false };
    let seeds = vec![
        Vec3 { x: 9 * ONE, y: 5 * ONE, z: 5 * ONE },
        Vec3 { x: 5 * ONE, y: 5 * ONE, z: 5 * ONE },
        Vec3 { x: 1 * ONE, y: 5 * ONE, z: 5 * ONE },
    ];
    let results = trace_streamlines(
        &seeds,
        axis.clone(),
        axis.clone(),
        axis,
        values,
        cyclic,
        1,
        ONE / 10,
        100,
    )
    .unwrap();
    assert_eq!(results.len(), 3);
    // distances to the boundary differ per seed, so the counts identify them
    assert_eq!(results[0].status.n_points, 11);
    assert_eq!(results[1].status.n_points, 51);
    assert_eq!(results[2].status.n_points, 91);
    for r in &results {
        assert_eq!(r.status.rot, TracerStatus::OutOfBounds);
        assert_eq!(r.line[0].y, 5 * ONE);
    }
    assert_eq!(results[0].line[0].x, 9 * ONE);
    assert_eq!(results[1].line[0].x, 5 * ONE);
    assert_eq!(results[2].line[0].x, 1 * ONE);
}

#[test]
fn test_batch_rejects_bad_grid() {
    let cyclic = CyclicFlags { x: false, y: false, z: false };
    let seeds = vec![Vec3 { x: 0, y: 0, z: 0 }];
    // axis does not start at 0: the whole batch fails before any tracing
    let r = trace_streamlines(
        &seeds,
        vec![1, ONE],
        vec![0, ONE],
        vec![0, ONE],
        vec![0i64; 24],
        cyclic,
        1,
        ONE / 10,
        10,
    );
    assert!(r.is_err());
}

#[test]
fn test_status_codes() {
    assert_eq!(TracerStatus::Running.code(), 0);
    assert_eq!(TracerStatus::RanOutOfSteps.code(), 1);
    assert_eq!(TracerStatus::OutOfBounds.code(), 2);
}
