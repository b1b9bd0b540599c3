//! Streamline tracing: fixed-step fourth-order Runge-Kutta integration of
//! the normalised field direction, for one seed or for a batch of seeds.
//!
//! Every step moves the point by a fixed arc length (the step size) along
//! the local field direction, so traces are geometric streamlines. At a
//! point where the field vanishes the direction is taken to be the zero
//! vector: the trace stays put there until its step budget runs out.

use vstd::prelude::*;
use crate::COORD_LIMIT;
use crate::POS_LIMIT;
use crate::VEC_LIMIT;
use crate::field::Vec3;
use crate::field::CyclicFlags;
use crate::field::ConfigError;
use crate::field::VectorField;
use crate::field::Bounds;
use crate::field::config_ok;
use crate::field::in_bounds_spec;
use crate::field::vector_at_spec;
use crate::field::wrap_spec;
use crate::num::sqrt_of;
use crate::num::isqrt;
use crate::num::div_floor_i64;
use crate::num::lemma_mul_bound;
use crate::num::lemma_div_bounded;

verus! {

/// Enum denoting the status of the streamline tracer.
#[derive(Clone, Copy, PartialEq, Eq, Structural, Debug)]
pub enum TracerStatus {
    /// Still running.
    Running,
    /// Ran out of steps.
    RanOutOfSteps,
    /// Stepped out of bounds.
    OutOfBounds,
}

/// The stable integer encoding of a tracer status for callers outside the
/// engine: 0 = still running, 1 = ran out of steps, 2 = left the domain.
pub open spec fn status_code(s: TracerStatus) -> int {
    match s {
        TracerStatus::Running => 0,
        TracerStatus::RanOutOfSteps => 1,
        TracerStatus::OutOfBounds => 2,
    }
}

impl TracerStatus {
    /// Encode the status as its documented small integer.
    pub fn code(&self) -> (c: i64)
        ensures
            c == status_code(*self),
    {
        match self {
            TracerStatus::Running => 0,
            TracerStatus::RanOutOfSteps => 1,
            TracerStatus::OutOfBounds => 2,
        }
    }
}

/// A single streamline's status.
#[derive(Clone, Copy, PartialEq, Eq, Structural, Debug)]
pub struct StreamlineStatus {
    /// Reason of termination.
    pub rot: TracerStatus,
    /// Number of valid coordinates written; trailing rows of the line
    /// beyond this count are zero filled.
    pub n_points: usize,
}

/// The result of tracing one streamline.
pub struct StreamlineResult {
    /// The status of the trace.
    pub status: StreamlineStatus,
    /// The traced line: exactly `max_steps` rows, the first `n_points` of
    /// which are valid.
    pub line: Vec<Vec3>,
}

/// The sign of the direction argument: only the sign enters the trace.
pub open spec fn sgn(d: int) -> int {
    if d > 0 {
        1
    } else if d < 0 {
        -1
    } else {
        0
    }
}

/// The signed step length: the step size times the direction's sign.
pub open spec fn step_of(direction: int, step_size: int) -> int {
    step_size * sgn(direction)
}

/// Componentwise sum of two triples.
pub open spec fn add3(a: (int, int, int), b: (int, int, int)) -> (int, int, int) {
    (a.0 + b.0, a.1 + b.1, a.2 + b.2)
}

/// Componentwise floor halving of a triple.
pub open spec fn half3(a: (int, int, int)) -> (int, int, int) {
    (a.0 / 2, a.1 / 2, a.2 / 2)
}

/// The step a linear tracing method would take at `p`: the sampled field
/// vector, normalised to length 1 and scaled by the signed step length,
/// componentwise floor-divided. A vanishing field gives the zero step.
#[verifier::opaque]
pub open spec fn stream_fn_spec(f: VectorField, step: int, p: (int, int, int)) -> (int, int, int) {
    let v = vector_at_spec(f, p);
    let s = v.0 * v.0 + v.1 * v.1 + v.2 * v.2;
    if s == 0 {
        (0, 0, 0)
    } else {
        let m = sqrt_of(s);
        ((step * v.0) / m, (step * v.1) / m, (step * v.2) / m)
    }
}

/// One classical four-stage Runge-Kutta update of a position.
#[verifier::opaque]
pub open spec fn rk4_spec(f: VectorField, step: int, p: (int, int, int)) -> (int, int, int) {
    let k1 = stream_fn_spec(f, step, p);
    let k2 = stream_fn_spec(f, step, add3(p, half3(k1)));
    let k3 = stream_fn_spec(f, step, add3(p, half3(k2)));
    let k4 = stream_fn_spec(f, step, add3(p, k3));
    add3(
        p,
        (
            (k1.0 + 2 * k2.0 + 2 * k3.0 + k4.0) / 6,
            (k1.1 + 2 * k2.1 + 2 * k3.1 + k4.1) / 6,
            (k1.2 + 2 * k2.2 + 2 * k3.2 + k4.2) / 6,
        ),
    )
}

/// One full integration step: the Runge-Kutta update followed by the cyclic
/// wrap.
pub open spec fn step_spec(f: VectorField, step: int, p: (int, int, int)) -> (int, int, int) {
    wrap_spec(f, rk4_spec(f, step, p))
}

/// The position after `n` full integration steps from `p`.
pub open spec fn pos_after(f: VectorField, step: int, p: (int, int, int), n: nat) -> (int, int, int)
    decreases n,
{
    if n == 0 {
        p
    } else {
        step_spec(f, step, pos_after(f, step, p, (n - 1) as nat))
    }
}

/// How many trajectory points a trace starting at `p` writes, given `fuel`
/// remaining loop iterations: every iteration writes the current point, and
/// the trace stops early when the next position leaves the grid.
pub open spec fn count_points(f: VectorField, step: int, p: (int, int, int), fuel: nat) -> nat
    decreases fuel,
{
    if fuel == 0 {
        0
    } else if !in_bounds_spec(f, step_spec(f, step, p)) {
        1
    } else {
        1 + count_points(f, step, step_spec(f, step, p), (fuel - 1) as nat)
    }
}

/// The terminal status of a trace from `seed` with `max` steps of budget:
/// out of bounds when the step taken from the last written point leaves the
/// grid, and out of steps when the budget ends first.
pub open spec fn trace_status(f: VectorField, step: int, seed: (int, int, int), max: nat) -> TracerStatus {
    let n = count_points(f, step, seed, max);
    if !in_bounds_spec(f, step_spec(f, step, pos_after(f, step, seed, (n - 1) as nat))) {
        TracerStatus::OutOfBounds
    } else {
        TracerStatus::RanOutOfSteps
    }
}

/// What `trace_streamline` promises of its result: the line has exactly
/// `max` rows; the first `n_points` rows are the integration chain from the
/// seed; the rest are zero; and the status names the reason the trace
/// stopped, never `Running`.
pub open spec fn traced_ok(f: VectorField, step: int, seed: Vec3, max: nat, r: StreamlineResult) -> bool {
    &&& r.line@.len() == max
    &&& r.status.n_points == count_points(f, step, seed@, max)
    &&& 1 <= r.status.n_points <= max
    &&& forall|i: int| 0 <= i < r.status.n_points
        ==> (#[trigger] r.line@[i])@ == pos_after(f, step, seed@, i as nat)
    &&& forall|i: int| r.status.n_points <= i < max
        ==> #[trigger] r.line@[i] == (Vec3 { x: 0, y: 0, z: 0 })
    &&& r.status.rot == trace_status(f, step, seed@, max)
    &&& r.status.rot != TracerStatus::Running
}

/// Return the step that a linear tracing method would take at `x`.
fn stream_function(x: &Vec3, field: &VectorField, step: i64) -> (k: Vec3)
    requires
        field.wf(),
        x.bounded(POS_LIMIT as int),
        -COORD_LIMIT <= step <= COORD_LIMIT,
    ensures
        k@ == stream_fn_spec(*field, step as int, x@),
        k.bounded(COORD_LIMIT as int),
{
    let v = field.vector_at_position(x);
    proof {
        reveal(crate::trace::stream_fn_spec);
        lemma_mul_bound(v.x as int, VEC_LIMIT as int, v.x as int, VEC_LIMIT as int);
        lemma_mul_bound(v.y as int, VEC_LIMIT as int, v.y as int, VEC_LIMIT as int);
        lemma_mul_bound(v.z as int, VEC_LIMIT as int, v.z as int, VEC_LIMIT as int);
        assert(0 <= (v.x as int) * (v.x as int)) by (nonlinear_arith);
        assert(0 <= (v.y as int) * (v.y as int)) by (nonlinear_arith);
        assert(0 <= (v.z as int) * (v.z as int)) by (nonlinear_arith);
    }
    let sq: i64 = v.x * v.x + v.y * v.y + v.z * v.z;
    let m = isqrt(sq as u64);
    if m == 0 {
        proof {
            assert(sq as int == 0);
        }
        Vec3 { x: 0, y: 0, z: 0 }
    } else {
        proof {
            assert(1 <= (m as int) * (m as int)) by (nonlinear_arith)
                requires
                    1 <= m,
            ;
            assert(m < 0x80000000) by (nonlinear_arith)
                requires
                    (m as int) * (m as int) <= sq as int,
                    (sq as int) < 0x4000000000000000int,
            ;
            assert(-(m as int) <= v.x as int <= m as int) by (nonlinear_arith)
                requires
                    (v.x as int) * (v.x as int) <= sq as int,
                    (sq as int) < ((m as int) + 1) * ((m as int) + 1),
                    0 <= m,
            ;
            assert(-(m as int) <= v.y as int <= m as int) by (nonlinear_arith)
                requires
                    (v.y as int) * (v.y as int) <= sq as int,
                    (sq as int) < ((m as int) + 1) * ((m as int) + 1),
                    0 <= m,
            ;
            assert(-(m as int) <= v.z as int <= m as int) by (nonlinear_arith)
                requires
                    (v.z as int) * (v.z as int) <= sq as int,
                    (sq as int) < ((m as int) + 1) * ((m as int) + 1),
                    0 <= m,
            ;
            lemma_mul_bound(step as int, COORD_LIMIT as int, v.x as int, VEC_LIMIT as int);
            lemma_mul_bound(step as int, COORD_LIMIT as int, v.y as int, VEC_LIMIT as int);
            lemma_mul_bound(step as int, COORD_LIMIT as int, v.z as int, VEC_LIMIT as int);
            assert(-((m as int) * (COORD_LIMIT as int)) <= (step as int) * (v.x as int)
                <= (m as int) * (COORD_LIMIT as int)) by (nonlinear_arith)
                requires
                    -(m as int) <= v.x as int <= m as int,
                    -COORD_LIMIT <= step as int <= COORD_LIMIT,
            ;
            assert(-((m as int) * (COORD_LIMIT as int)) <= (step as int) * (v.y as int)
                <= (m as int) * (COORD_LIMIT as int)) by (nonlinear_arith)
                requires
                    -(m as int) <= v.y as int <= m as int,
                    -COORD_LIMIT <= step as int <= COORD_LIMIT,
            ;
            assert(-((m as int) * (COORD_LIMIT as int)) <= (step as int) * (v.z as int)
                <= (m as int) * (COORD_LIMIT as int)) by (nonlinear_arith)
                requires
                    -(m as int) <= v.z as int <= m as int,
                    -COORD_LIMIT <= step as int <= COORD_LIMIT,
            ;
            lemma_div_bounded((step as int) * (v.x as int), m as int, COORD_LIMIT as int);
            lemma_div_bounded((step as int) * (v.y as int), m as int, COORD_LIMIT as int);
            lemma_div_bounded((step as int) * (v.z as int), m as int, COORD_LIMIT as int);
        }
        let md = m as i64;
        let kx = div_floor_i64(step * v.x, md);
        let ky = div_floor_i64(step * v.y, md);
        let kz = div_floor_i64(step * v.z, md);
        Vec3 { x: kx, y: ky, z: kz }
    }
}

/// Update a coordinate `x` by taking a single Runge-Kutta step.
fn rk4_update(x: Vec3, field: &VectorField, step: i64) -> (x2: Vec3)
    requires
        field.wf(),
        x.bounded(COORD_LIMIT as int),
        -COORD_LIMIT <= step <= COORD_LIMIT,
    ensures
        x2@ == rk4_spec(*field, step as int, x@),
        -COORD_LIMIT <= x2.x - x.x <= COORD_LIMIT,
        -COORD_LIMIT <= x2.y - x.y <= COORD_LIMIT,
        -COORD_LIMIT <= x2.z - x.z <= COORD_LIMIT,
{
    proof {
        reveal(crate::trace::rk4_spec);
    }
    let k1 = stream_function(&x, field, step);
    let xu1 = Vec3 {
        x: x.x + div_floor_i64(k1.x, 2),
        y: x.y + div_floor_i64(k1.y, 2),
        z: x.z + div_floor_i64(k1.z, 2),
    };
    let k2 = stream_function(&xu1, field, step);
    let xu2 = Vec3 {
        x: x.x + div_floor_i64(k2.x, 2),
        y: x.y + div_floor_i64(k2.y, 2),
        z: x.z + div_floor_i64(k2.z, 2),
    };
    let k3 = stream_function(&xu2, field, step);
    let xu3 = Vec3 { x: x.x + k3.x, y: x.y + k3.y, z: x.z + k3.z };
    let k4 = stream_function(&xu3, field, step);
    let sx = k1.x + 2 * k2.x + 2 * k3.x + k4.x;
    let sy = k1.y + 2 * k2.y + 2 * k3.y + k4.y;
    let sz = k1.z + 2 * k2.z + 2 * k3.z + k4.z;
    proof {
        lemma_div_bounded(sx as int, 6, COORD_LIMIT as int);
        lemma_div_bounded(sy as int, 6, COORD_LIMIT as int);
        lemma_div_bounded(sz as int, 6, COORD_LIMIT as int);
    }
    let x2 = Vec3 {
        x: x.x + div_floor_i64(sx, 6),
        y: x.y + div_floor_i64(sy, 6),
        z: x.z + div_floor_i64(sz, 6),
    };
    proof {
        assert(xu1@ == add3(x@, half3(k1@)));
        assert(xu2@ == add3(x@, half3(k2@)));
        assert(xu3@ == add3(x@, k3@));
        assert(x2@ == rk4_spec(*field, step as int, x@));
    }
    x2
}

/// Trace a single streamline from the seed `x0` through `field`, taking at
/// most `max_steps` fixed-length steps of `step_size` in the direction given
/// by the sign of `direction`. The result is pinned exactly: row `i` of the
/// line is the position after `i` integration steps, the point count is the
/// number of rows written before the budget or the domain ran out, and the
/// status says which of the two it was.
pub fn trace_streamline(
    x0: Vec3,
    field: &VectorField,
    direction: i32,
    step_size: i64,
    max_steps: usize,
) -> (r: StreamlineResult)
    requires
        field.wf(),
        x0.bounded(COORD_LIMIT as int),
        direction != 0,
        1 <= step_size <= COORD_LIMIT,
        1 <= max_steps,
    ensures
        traced_ok(*field, step_of(direction as int, step_size as int), x0, max_steps as nat, r),
{
    let step: i64 = if direction > 0 { step_size } else { -step_size };
    proof {
        assert(step as int == step_of(direction as int, step_size as int));
    }
    let ghost fld = *field;
    let ghost stepg: int = step as int;
    let mut xs: Vec<Vec3> = Vec::new();
    let mut x = x0;
    let mut status = TracerStatus::Running;
    let mut n_points: usize = 1;
    let mut out = false;
    let mut i: usize = 0;
    while i < max_steps && !out
        invariant
            fld == *field,
            fld.wf(),
            stepg == step as int,
            -COORD_LIMIT <= step <= COORD_LIMIT,
            0 <= i <= max_steps,
            1 <= max_steps,
            xs@.len() == i,
            x0.bounded(COORD_LIMIT as int),
            n_points as int == if i == 0 { 1int } else { i as int },
            forall|j: int| 0 <= j < i ==> (#[trigger] xs@[j])@ == pos_after(fld, stepg, x0@, j as nat),
            !out ==> x@ == pos_after(fld, stepg, x0@, i as nat),
            !out ==> x.bounded(COORD_LIMIT as int),
            !out ==> count_points(fld, stepg, x0@, max_steps as nat)
                == i + count_points(fld, stepg, x@, (max_steps - i) as nat),
            !out && i >= 1 ==> in_bounds_spec(
                fld,
                step_spec(fld, stepg, pos_after(fld, stepg, x0@, (i - 1) as nat)),
            ),
            !out ==> status == TracerStatus::Running,
            out ==> 1 <= i && count_points(fld, stepg, x0@, max_steps as nat) == i
                && status == TracerStatus::OutOfBounds
                && !in_bounds_spec(
                    fld,
                    step_spec(fld, stepg, pos_after(fld, stepg, x0@, (i - 1) as nat)),
                ),
        decreases max_steps - i,
    {
        xs.push(x);
        n_points = i + 1;
        let xr = rk4_update(x, field, step);
        let xw = field.wrap_cyclic(xr);
        proof {
            assert(xw@ == step_spec(fld, stepg, x@));
        }
        match field.check_bounds(&xw) {
            Bounds::Out => {
                status = TracerStatus::OutOfBounds;
                out = true;
            },
            Bounds::In => {
                proof {
                    assert(0 <= fld.xgrid@[0]
                        && fld.xgrid@[fld.xgrid@.len() - 1] <= COORD_LIMIT);
                    assert(0 <= fld.ygrid@[0]
                        && fld.ygrid@[fld.ygrid@.len() - 1] <= COORD_LIMIT);
                    assert(0 <= fld.zgrid@[0]
                        && fld.zgrid@[fld.zgrid@.len() - 1] <= COORD_LIMIT);
                }
                x = xw;
            },
        }
        i = i + 1;
    }
    if !out {
        status = TracerStatus::RanOutOfSteps;
    }
    proof {
        if !out {
            assert(count_points(fld, stepg, x0@, max_steps as nat) == max_steps
                + count_points(fld, stepg, x@, 0));
        }
    }
    let mut j: usize = i;
    while j < max_steps
        invariant
            i <= j <= max_steps,
            xs@.len() == j,
            forall|k: int| 0 <= k < i ==> (#[trigger] xs@[k])@ == pos_after(fld, stepg, x0@, k as nat),
            forall|k: int| i <= k < j ==> #[trigger] xs@[k] == (Vec3 { x: 0, y: 0, z: 0 }),
        decreases max_steps - j,
    {
        xs.push(Vec3 { x: 0, y: 0, z: 0 });
        j = j + 1;
    }
    StreamlineResult { status: StreamlineStatus { rot: status, n_points }, line: xs }
}

/// Trace one streamline per seed, in seed order: the field is validated and
/// built once, then every seed is traced independently against it. Result
/// `i` belongs to seed `i`, whatever order the traces run in.
pub fn trace_streamlines(
    seeds: &Vec<Vec3>,
    xgrid: Vec<i64>,
    ygrid: Vec<i64>,
    zgrid: Vec<i64>,
    values: Vec<i64>,
    cyclic: CyclicFlags,
    direction: i32,
    step_size: i64,
    max_steps: usize,
) -> (r: Result<Vec<StreamlineResult>, ConfigError>)
    requires
        forall|i: int| 0 <= i < seeds@.len()
            ==> (#[trigger] seeds@[i]).bounded(COORD_LIMIT as int),
        direction != 0,
        1 <= step_size <= COORD_LIMIT,
        1 <= max_steps,
    ensures
        r is Ok <==> config_ok(xgrid@, ygrid@, zgrid@, values@),
        r is Err ==> r->Err_0 == ConfigError::InvalidConfiguration,
        r is Ok ==> {
            let f = (VectorField { xgrid, ygrid, zgrid, values, cyclic });
            let step = step_of(direction as int, step_size as int);
            &&& r->Ok_0@.len() == seeds@.len()
            &&& forall|i: int| 0 <= i < seeds@.len()
                ==> traced_ok(f, step, seeds@[i], max_steps as nat, #[trigger] r->Ok_0@[i])
        },
{
    let field = match VectorField::new(xgrid, ygrid, zgrid, values, cyclic) {
        Ok(f) => f,
        Err(e) => {
            return Err(e);
        },
    };
    let ghost stepg: int = step_of(direction as int, step_size as int);
    let mut results: Vec<StreamlineResult> = Vec::new();
    let mut i: usize = 0;
    while i < seeds.len()
        invariant
            field.wf(),
            direction != 0,
            1 <= step_size <= COORD_LIMIT,
            1 <= max_steps,
            forall|k: int| 0 <= k < seeds@.len()
                ==> (#[trigger] seeds@[k]).bounded(COORD_LIMIT as int),
            stepg == step_of(direction as int, step_size as int),
            0 <= i <= seeds@.len(),
            results@.len() == i,
            forall|k: int| 0 <= k < i
                ==> traced_ok(field, stepg, seeds@[k], max_steps as nat, #[trigger] results@[k]),
        decreases seeds@.len() - i,
    {
        let seed = seeds[i];
        let res = trace_streamline(seed, &field, direction, step_size, max_steps);
        results.push(res);
        i = i + 1;
    }
    Ok(results)
}

} // verus!
