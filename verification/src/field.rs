//! A 3D vector field defined at the corners of a rectilinear grid: cell
//! lookup, trilinear sampling, cyclic wrapping and bounds classification.

use vstd::prelude::*;
use vstd::arithmetic::div_mod::lemma_mod_division_less_than_divisor;
use vstd::arithmetic::div_mod::lemma_mod_add_multiples_vanish;
use vstd::arithmetic::div_mod::lemma_small_mod;
use vstd::arithmetic::div_mod::lemma_div_is_ordered;
use vstd::arithmetic::div_mod::lemma_div_multiples_vanish;
use crate::COORD_LIMIT;
use crate::FIELD_LIMIT;
use crate::POS_LIMIT;
use crate::VEC_LIMIT;
use crate::num::clamp_spec;
use crate::num::clamp_i128;
use crate::num::mod_floor_i64;
use crate::interp::CornerScalars;
use crate::interp::CellFrac;
use crate::interp::interp_trilinear;
use crate::interp::tri_val;
use crate::interp::blend_num;

verus! {

/// A fixed-point coordinate triple: a position in the grid, or a vector
/// value of the field.
#[derive(Clone, Copy, PartialEq, Eq, Structural, Debug)]
pub struct Vec3 {
    pub x: i64,
    pub y: i64,
    pub z: i64,
}

impl View for Vec3 {
    type V = (int, int, int);

    open spec fn view(&self) -> (int, int, int) {
        (self.x as int, self.y as int, self.z as int)
    }
}

impl Vec3 {
    /// Every component has magnitude at most `lim`.
    pub open spec fn bounded(self, lim: int) -> bool {
        &&& -lim <= self.x <= lim
        &&& -lim <= self.y <= lim
        &&& -lim <= self.z <= lim
    }
}

/// Which axes wrap at their upper bound back to 0 instead of ending the
/// trace.
#[derive(Clone, Copy, PartialEq, Eq, Structural, Debug)]
pub struct CyclicFlags {
    pub x: bool,
    pub y: bool,
    pub z: bool,
}

/// The triple of per-axis indices of the cell that contains a point; each
/// index names the cell's lower corner.
#[derive(Clone, Copy, PartialEq, Eq, Structural, Debug)]
pub struct CellIndex {
    pub x: usize,
    pub y: usize,
    pub z: usize,
}

/// Enum denoting whether a point is in or out of the bounds of a
/// `VectorField` grid.
#[derive(Clone, Copy, PartialEq, Eq, Structural, Debug)]
pub enum Bounds {
    /// A position vector is in bounds.
    In,
    /// A position vector is out of bounds.
    Out,
}

/// The one construction-time failure: some shape or range check failed.
#[derive(Clone, Copy, PartialEq, Eq, Structural, Debug)]
pub enum ConfigError {
    /// Axis lengths, tensor shape, axis origin, monotonicity or a magnitude
    /// limit is violated.
    InvalidConfiguration,
}

/// A 3D vector field defined at grid corners.
pub struct VectorField {
    /// Grid coordinates along x, strictly increasing, starting at 0.
    pub xgrid: Vec<i64>,
    /// Grid coordinates along y, strictly increasing, starting at 0.
    pub ygrid: Vec<i64>,
    /// Grid coordinates along z, strictly increasing, starting at 0.
    pub zgrid: Vec<i64>,
    /// Vector values at each grid point, flattened in row-major order with
    /// the component index innermost: the value of component `c` at grid
    /// point `(ix, iy, iz)` sits at `((ix * ny + iy) * nz + iz) * 3 + c`.
    pub values: Vec<i64>,
    /// Whether each axis is cyclic.
    pub cyclic: CyclicFlags,
}

/// A well-formed grid axis: at least two coordinates (one cell), starting at
/// 0, strictly increasing, every coordinate within `COORD_LIMIT`.
pub open spec fn axis_wf(a: Seq<i64>) -> bool {
    &&& a.len() >= 2
    &&& a[0] == 0
    &&& forall|k: int| 0 <= k < a.len() - 1 ==> #[trigger] a[k] < a[k + 1]
    &&& forall|k: int| 0 <= k < a.len() ==> 0 <= #[trigger] a[k] <= COORD_LIMIT
}

/// A valid configuration: three well-formed axes, and a value tensor of
/// exactly `nx * ny * nz * 3` entries, each within `FIELD_LIMIT`.
pub open spec fn config_ok(xs: Seq<i64>, ys: Seq<i64>, zs: Seq<i64>, vals: Seq<i64>) -> bool {
    &&& axis_wf(xs)
    &&& axis_wf(ys)
    &&& axis_wf(zs)
    &&& vals.len() == xs.len() * ys.len() * zs.len() * 3
    &&& forall|i: int| 0 <= i < vals.len() ==> -FIELD_LIMIT <= #[trigger] vals[i] <= FIELD_LIMIT
}

/// An axis is ordered: coordinates grow strictly with the index.
pub proof fn lemma_axis_increasing(a: Seq<i64>, i: int, j: int)
    requires
        forall|k: int| 0 <= k < a.len() - 1 ==> #[trigger] a[k] < a[k + 1],
        0 <= i <= j < a.len(),
    ensures
        a[i] <= a[j],
        i < j ==> a[i] < a[j],
    decreases j - i,
{
    if i < j {
        lemma_axis_increasing(a, i, j - 1);
        assert(a[j - 1] < a[j]);
    }
}

/// The scan for the cell containing coordinate `x`, beginning at axis index
/// `i`: the first index whose half-open interval `[a[i], a[i+1])` contains
/// `x`, or the last cell index if no interval does.
pub open spec fn axis_cell_from(a: Seq<i64>, x: int, i: int) -> int
    decreases a.len() - i,
{
    if i >= a.len() - 1 {
        a.len() - 2
    } else if a[i] <= x < a[i + 1] {
        i
    } else {
        axis_cell_from(a, x, i + 1)
    }
}

/// The index of the cell containing coordinate `x` on axis `a`.
pub open spec fn axis_cell(a: Seq<i64>, x: int) -> int {
    axis_cell_from(a, x, 0)
}

/// The cell index is always a valid cell: between 0 and `len - 2`.
pub proof fn lemma_axis_cell_range(a: Seq<i64>, x: int, i: int)
    requires
        a.len() >= 2,
        0 <= i,
    ensures
        0 <= axis_cell_from(a, x, i) <= a.len() - 2,
    decreases a.len() - i,
{
    if i < a.len() - 1 && !(a[i] <= x < a[i + 1]) {
        lemma_axis_cell_range(a, x, i + 1);
    }
}

/// A coordinate inside the half-open interval `[a[i], a[i+1])` resolves to
/// cell `i`; in particular a coordinate exactly on grid line `i` resolves to
/// cell `i`, not `i - 1`.
pub proof fn lemma_cell_of_interval(a: Seq<i64>, x: int, i: int)
    requires
        forall|k: int| 0 <= k < a.len() - 1 ==> #[trigger] a[k] < a[k + 1],
        0 <= i <= a.len() - 2,
        a[i] <= x < a[i + 1],
    ensures
        axis_cell(a, x) == i,
{
    lemma_cell_scan_reaches(a, x, i, 0);
}

proof fn lemma_cell_scan_reaches(a: Seq<i64>, x: int, i: int, j: int)
    requires
        forall|k: int| 0 <= k < a.len() - 1 ==> #[trigger] a[k] < a[k + 1],
        0 <= j <= i <= a.len() - 2,
        a[i] <= x < a[i + 1],
    ensures
        axis_cell_from(a, x, j) == i,
    decreases i - j,
{
    if j < i {
        lemma_axis_increasing(a, j + 1, i);
        assert(!(x < a[j + 1]));
        lemma_cell_scan_reaches(a, x, i, j + 1);
    }
}

/// A coordinate at or above the last grid line resolves to the last cell;
/// so does a coordinate below the first grid line. Out-of-range detection is
/// the bounds check's job, not the lookup's.
pub proof fn lemma_cell_of_outside(a: Seq<i64>, x: int)
    requires
        forall|k: int| 0 <= k < a.len() - 1 ==> #[trigger] a[k] < a[k + 1],
        a.len() >= 2,
        x >= a[a.len() - 1] || x < a[0],
    ensures
        axis_cell(a, x) == a.len() - 2,
{
    lemma_cell_scan_misses(a, x, 0);
}

proof fn lemma_cell_scan_misses(a: Seq<i64>, x: int, j: int)
    requires
        forall|k: int| 0 <= k < a.len() - 1 ==> #[trigger] a[k] < a[k + 1],
        a.len() >= 2,
        0 <= j,
        x >= a[a.len() - 1] || x < a[0],
    ensures
        axis_cell_from(a, x, j) == a.len() - 2,
    decreases a.len() - j,
{
    if j < a.len() - 1 {
        if x < a[0] {
            lemma_axis_increasing(a, 0, j);
            assert(!(a[j] <= x));
        } else {
            lemma_axis_increasing(a, j + 1, a.len() - 1);
            assert(!(x < a[j + 1]));
        }
        lemma_cell_scan_misses(a, x, j + 1);
    }
}

/// The value of component `comp` stored at grid point `(ix, iy, iz)`.
pub open spec fn val(f: VectorField, ix: int, iy: int, iz: int, comp: int) -> int {
    f.values@[((ix * f.ygrid@.len() + iy) * f.zgrid@.len() + iz) * 3 + comp] as int
}

/// One component of the trilinearly interpolated field vector at a point:
/// resolve the cell, take the exact fractional offset, blend the eight
/// corners, and clamp extrapolated magnitudes to `VEC_LIMIT`.
#[verifier::opaque]
pub open spec fn sample_comp(f: VectorField, px: int, py: int, pz: int, comp: int) -> int {
    let cx = axis_cell(f.xgrid@, px);
    let cy = axis_cell(f.ygrid@, py);
    let cz = axis_cell(f.zgrid@, pz);
    let tx = px - f.xgrid@[cx];
    let dx = f.xgrid@[cx + 1] - f.xgrid@[cx];
    let ty = py - f.ygrid@[cy];
    let dy = f.ygrid@[cy + 1] - f.ygrid@[cy];
    let tz = pz - f.zgrid@[cz];
    let dz = f.zgrid@[cz + 1] - f.zgrid@[cz];
    clamp_spec(
        tri_val(
            val(f, cx, cy, cz, comp), val(f, cx + 1, cy, cz, comp),
            val(f, cx, cy + 1, cz, comp), val(f, cx + 1, cy + 1, cz, comp),
            val(f, cx, cy, cz + 1, comp), val(f, cx + 1, cy, cz + 1, comp),
            val(f, cx, cy + 1, cz + 1, comp), val(f, cx + 1, cy + 1, cz + 1, comp),
            tx, dx, ty, dy, tz, dz,
        ),
        VEC_LIMIT as int,
    )
}

/// The interpolated field vector at a point.
#[verifier::opaque]
pub open spec fn vector_at_spec(f: VectorField, p: (int, int, int)) -> (int, int, int) {
    (
        sample_comp(f, p.0, p.1, p.2, 0),
        sample_comp(f, p.0, p.1, p.2, 1),
        sample_comp(f, p.0, p.1, p.2, 2),
    )
}

/// A point is in bounds when every component lies within the closed range of
/// its axis.
pub open spec fn in_bounds_spec(f: VectorField, p: (int, int, int)) -> bool {
    &&& f.xgrid@[0] <= p.0 <= f.xgrid@[f.xgrid@.len() - 1]
    &&& f.ygrid@[0] <= p.1 <= f.ygrid@[f.ygrid@.len() - 1]
    &&& f.zgrid@[0] <= p.2 <= f.zgrid@[f.zgrid@.len() - 1]
}

/// One coordinate after cyclic wrapping: on a cyclic axis the coordinate is
/// remapped to `(v + upper) mod upper`, the representative in `[0, upper)`;
/// a non-cyclic axis passes through unchanged.
pub open spec fn wrap1(v: int, upper: int, flag: bool) -> int {
    if flag {
        (v + upper) % upper
    } else {
        v
    }
}

/// A point after cyclic wrapping on every flagged axis.
pub open spec fn wrap_spec(f: VectorField, p: (int, int, int)) -> (int, int, int) {
    (
        wrap1(p.0, f.xgrid@[f.xgrid@.len() - 1] as int, f.cyclic.x),
        wrap1(p.1, f.ygrid@[f.ygrid@.len() - 1] as int, f.cyclic.y),
        wrap1(p.2, f.zgrid@[f.zgrid@.len() - 1] as int, f.cyclic.z),
    )
}

/// Wrapping twice gives the same coordinate as wrapping once, and a
/// non-cyclic axis is never altered.
pub proof fn lemma_wrap_idempotent(f: VectorField, p: (int, int, int))
    requires
        f.wf(),
    ensures
        wrap_spec(f, wrap_spec(f, p)) == wrap_spec(f, p),
        !f.cyclic.x ==> wrap_spec(f, p).0 == p.0,
        !f.cyclic.y ==> wrap_spec(f, p).1 == p.1,
        !f.cyclic.z ==> wrap_spec(f, p).2 == p.2,
{
    lemma_axis_increasing(f.xgrid@, 0, f.xgrid@.len() - 1);
    lemma_axis_increasing(f.ygrid@, 0, f.ygrid@.len() - 1);
    lemma_axis_increasing(f.zgrid@, 0, f.zgrid@.len() - 1);
    lemma_wrap1_idempotent(p.0, f.xgrid@[f.xgrid@.len() - 1] as int, f.cyclic.x);
    lemma_wrap1_idempotent(p.1, f.ygrid@[f.ygrid@.len() - 1] as int, f.cyclic.y);
    lemma_wrap1_idempotent(p.2, f.zgrid@[f.zgrid@.len() - 1] as int, f.cyclic.z);
}

proof fn lemma_wrap1_idempotent(v: int, upper: int, flag: bool)
    requires
        flag ==> 1 <= upper,
    ensures
        wrap1(wrap1(v, upper, flag), upper, flag) == wrap1(v, upper, flag),
{
    if flag {
        let w = (v + upper) % upper;
        lemma_mod_division_less_than_divisor(v + upper, upper);
        lemma_mod_add_multiples_vanish(w, upper);
        lemma_small_mod(w as nat, upper as nat);
    }
}

impl VectorField {
    /// The structural invariant that construction establishes: a valid
    /// configuration as `config_ok` states it.
    pub open spec fn wf(self) -> bool {
        config_ok(self.xgrid@, self.ygrid@, self.zgrid@, self.values@)
    }

    /// Number of grid points along x.
    pub open spec fn nx(self) -> int {
        self.xgrid@.len() as int
    }

    /// Number of grid points along y.
    pub open spec fn ny(self) -> int {
        self.ygrid@.len() as int
    }

    /// Number of grid points along z.
    pub open spec fn nz(self) -> int {
        self.zgrid@.len() as int
    }

    /// Create a new `VectorField`, validating every shape and range
    /// condition of `config_ok`; the only validation point, all sampling
    /// relies on it through `wf`.
    pub fn new(
        xgrid: Vec<i64>,
        ygrid: Vec<i64>,
        zgrid: Vec<i64>,
        values: Vec<i64>,
        cyclic: CyclicFlags,
    ) -> (r: Result<VectorField, ConfigError>)
        ensures
            r is Ok <==> config_ok(xgrid@, ygrid@, zgrid@, values@),
            r is Ok ==> r->Ok_0 == (VectorField { xgrid, ygrid, zgrid, values, cyclic }),
            r is Err ==> r->Err_0 == ConfigError::InvalidConfiguration,
    {
        let nv = values.len();
        if !axis_ok(&xgrid) || !axis_ok(&ygrid) || !axis_ok(&zgrid) {
            return Err(ConfigError::InvalidConfiguration);
        }
        let nxy = match xgrid.len().checked_mul(ygrid.len()) {
            Some(m) => m,
            None => {
                proof {
                    lemma_shape_overflow(
                        xgrid@.len() as int, ygrid@.len() as int, zgrid@.len() as int,
                        values@.len() as int,
                    );
                }
                return Err(ConfigError::InvalidConfiguration);
            },
        };
        let nxyz = match nxy.checked_mul(zgrid.len()) {
            Some(m) => m,
            None => {
                proof {
                    lemma_shape_overflow(
                        xgrid@.len() as int, ygrid@.len() as int, zgrid@.len() as int,
                        values@.len() as int,
                    );
                }
                return Err(ConfigError::InvalidConfiguration);
            },
        };
        let total = match nxyz.checked_mul(3) {
            Some(m) => m,
            None => {
                proof {
                    lemma_shape_overflow(
                        xgrid@.len() as int, ygrid@.len() as int, zgrid@.len() as int,
                        values@.len() as int,
                    );
                }
                return Err(ConfigError::InvalidConfiguration);
            },
        };
        if nv != total {
            return Err(ConfigError::InvalidConfiguration);
        }
        let mut i: usize = 0;
        while i < values.len()
            invariant
                0 <= i <= values@.len(),
                forall|k: int| 0 <= k < i ==> -FIELD_LIMIT <= #[trigger] values@[k] <= FIELD_LIMIT,
            decreases values@.len() - i,
        {
            let v = values[i];
            if v < -FIELD_LIMIT || v > FIELD_LIMIT {
                return Err(ConfigError::InvalidConfiguration);
            }
            i = i + 1;
        }
        Ok(VectorField { xgrid, ygrid, zgrid, values, cyclic })
    }

    /// Return the grid index of the cell containing `x`: per axis, the first
    /// index `i` with `axis[i] <= x < axis[i+1]`, or the last cell when no
    /// interval matches.
    pub fn grid_idx(&self, x: &Vec3) -> (c: CellIndex)
        requires
            self.wf(),
        ensures
            c.x as int == axis_cell(self.xgrid@, x.x as int),
            c.y as int == axis_cell(self.ygrid@, x.y as int),
            c.z as int == axis_cell(self.zgrid@, x.z as int),
            c.x + 1 < self.xgrid@.len(),
            c.y + 1 < self.ygrid@.len(),
            c.z + 1 < self.zgrid@.len(),
    {
        let cx = cell_scan(&self.xgrid, x.x);
        let cy = cell_scan(&self.ygrid, x.y);
        let cz = cell_scan(&self.zgrid, x.z);
        CellIndex { x: cx, y: cy, z: cz }
    }

    /// Fetch the stored component `comp` of the vector at grid point
    /// `(ix, iy, iz)`.
    fn val_at(&self, ix: usize, iy: usize, iz: usize, comp: usize) -> (v: i64)
        requires
            self.wf(),
            ix < self.xgrid@.len(),
            iy < self.ygrid@.len(),
            iz < self.zgrid@.len(),
            comp < 3,
        ensures
            v as int == val(*self, ix as int, iy as int, iz as int, comp as int),
            -FIELD_LIMIT <= v <= FIELD_LIMIT,
    {
        let n = self.values.len();
        let ny = self.ygrid.len();
        let nz = self.zgrid.len();
        proof {
            lemma_flat_index(
                self.xgrid@.len() as int, ny as int, nz as int,
                ix as int, iy as int, iz as int, comp as int,
            );
        }
        let idx = ((ix * ny + iy) * nz + iz) * 3 + comp;
        self.values[idx]
    }

    /// One interpolated component at `x0`, with the cell and the fractional
    /// offsets already resolved for that point.
    fn sample_component(&self, x0: &Vec3, c: &CellIndex, frac: &CellFrac, comp: usize) -> (s: i64)
        requires
            self.wf(),
            c.x as int == axis_cell(self.xgrid@, x0.x as int),
            c.y as int == axis_cell(self.ygrid@, x0.y as int),
            c.z as int == axis_cell(self.zgrid@, x0.z as int),
            c.x + 1 < self.xgrid@.len(),
            c.y + 1 < self.ygrid@.len(),
            c.z + 1 < self.zgrid@.len(),
            frac.tx as int == x0.x - self.xgrid@[c.x as int],
            frac.dx as int == self.xgrid@[c.x as int + 1] - self.xgrid@[c.x as int],
            frac.ty as int == x0.y - self.ygrid@[c.y as int],
            frac.dy as int == self.ygrid@[c.y as int + 1] - self.ygrid@[c.y as int],
            frac.tz as int == x0.z - self.zgrid@[c.z as int],
            frac.dz as int == self.zgrid@[c.z as int + 1] - self.zgrid@[c.z as int],
            frac.wf(),
            comp < 3,
        ensures
            s as int == sample_comp(*self, x0.x as int, x0.y as int, x0.z as int, comp as int),
    {
        let nx = self.xgrid.len();
        let ny = self.ygrid.len();
        let nz = self.zgrid.len();
        proof {
            reveal(crate::field::sample_comp);
            assert(c.x + 1 < nx && c.y + 1 < ny && c.z + 1 < nz);
        }
        let corners = CornerScalars {
            c000: self.val_at(c.x, c.y, c.z, comp),
            c100: self.val_at(c.x + 1, c.y, c.z, comp),
            c010: self.val_at(c.x, c.y + 1, c.z, comp),
            c110: self.val_at(c.x + 1, c.y + 1, c.z, comp),
            c001: self.val_at(c.x, c.y, c.z + 1, comp),
            c101: self.val_at(c.x + 1, c.y, c.z + 1, comp),
            c011: self.val_at(c.x, c.y + 1, c.z + 1, comp),
            c111: self.val_at(c.x + 1, c.y + 1, c.z + 1, comp),
        };
        let r = interp_trilinear(&corners, frac);
        clamp_i128(r, VEC_LIMIT)
    }

    /// Get the vector at position `x0` by trilinear interpolation of the
    /// eight corners of the containing cell.
    pub fn vector_at_position(&self, x0: &Vec3) -> (v: Vec3)
        requires
            self.wf(),
            x0.bounded(POS_LIMIT as int),
        ensures
            v@ == vector_at_spec(*self, x0@),
            v.bounded(VEC_LIMIT as int),
    {
        let c = self.grid_idx(x0);
        let nx = self.xgrid.len();
        let ny = self.ygrid.len();
        let nz = self.zgrid.len();
        proof {
            reveal(crate::field::vector_at_spec);
            reveal(crate::field::sample_comp);
            assert(c.x + 1 < nx && c.y + 1 < ny && c.z + 1 < nz);
            assert(0 <= self.xgrid@[c.x as int] <= COORD_LIMIT);
            assert(0 <= self.ygrid@[c.y as int] <= COORD_LIMIT);
            assert(0 <= self.zgrid@[c.z as int] <= COORD_LIMIT);
            assert(0 <= self.xgrid@[c.x as int + 1] <= COORD_LIMIT);
            assert(0 <= self.ygrid@[c.y as int + 1] <= COORD_LIMIT);
            assert(0 <= self.zgrid@[c.z as int + 1] <= COORD_LIMIT);
            assert(self.xgrid@[c.x as int] < self.xgrid@[c.x as int + 1]);
            assert(self.ygrid@[c.y as int] < self.ygrid@[c.y as int + 1]);
            assert(self.zgrid@[c.z as int] < self.zgrid@[c.z as int + 1]);
        }
        let ox = self.xgrid[c.x];
        let oy = self.ygrid[c.y];
        let oz = self.zgrid[c.z];
        let frac = CellFrac {
            tx: x0.x - ox,
            dx: self.xgrid[c.x + 1] - ox,
            ty: x0.y - oy,
            dy: self.ygrid[c.y + 1] - oy,
            tz: x0.z - oz,
            dz: self.zgrid[c.z + 1] - oz,
        };
        let vx = self.sample_component(x0, &c, &frac, 0);
        let vy = self.sample_component(x0, &c, &frac, 1);
        let vz = self.sample_component(x0, &c, &frac, 2);
        Vec3 { x: vx, y: vy, z: vz }
    }

    /// If any of the dimensions of the grid are cyclic, wrap the coordinate
    /// on those axes into `[0, upper)`.
    pub fn wrap_cyclic(&self, x: Vec3) -> (w: Vec3)
        requires
            self.wf(),
            x.bounded(POS_LIMIT as int),
        ensures
            w@ == wrap_spec(*self, x@),
    {
        proof {
            lemma_axis_increasing(self.xgrid@, 0, self.xgrid@.len() - 1);
            lemma_axis_increasing(self.ygrid@, 0, self.ygrid@.len() - 1);
            lemma_axis_increasing(self.zgrid@, 0, self.zgrid@.len() - 1);
        }
        let ux = self.xgrid[self.xgrid.len() - 1];
        let uy = self.ygrid[self.ygrid.len() - 1];
        let uz = self.zgrid[self.zgrid.len() - 1];
        let wx = if self.cyclic.x { mod_floor_i64(x.x + ux, ux) } else { x.x };
        let wy = if self.cyclic.y { mod_floor_i64(x.y + uy, uy) } else { x.y };
        let wz = if self.cyclic.z { mod_floor_i64(x.z + uz, uz) } else { x.z };
        Vec3 { x: wx, y: wy, z: wz }
    }

    /// Check whether a coordinate is in bounds of the grid: inside the
    /// closed range of every axis.
    pub fn check_bounds(&self, x: &Vec3) -> (b: Bounds)
        requires
            self.wf(),
        ensures
            b == Bounds::In <==> in_bounds_spec(*self, x@),
            b == Bounds::Out <==> !in_bounds_spec(*self, x@),
    {
        if x.x < self.xgrid[0]
            || x.x > self.xgrid[self.xgrid.len() - 1]
            || x.y < self.ygrid[0]
            || x.y > self.ygrid[self.ygrid.len() - 1]
            || x.z < self.zgrid[0]
            || x.z > self.zgrid[self.zgrid.len() - 1]
        {
            return Bounds::Out;
        }
        Bounds::In
    }
}

/// The row-major flat index of a grid point stays inside the tensor, and so
/// does every partial product on the way to it.
proof fn lemma_flat_index(nx: int, ny: int, nz: int, ix: int, iy: int, iz: int, comp: int)
    requires
        1 <= nx,
        1 <= ny,
        1 <= nz,
        0 <= ix < nx,
        0 <= iy < ny,
        0 <= iz < nz,
        0 <= comp < 3,
    ensures
        0 <= ix * ny + iy < nx * ny,
        0 <= (ix * ny + iy) * nz + iz < nx * ny * nz,
        0 <= ((ix * ny + iy) * nz + iz) * 3 + comp < nx * ny * nz * 3,
        nx * ny <= nx * ny * nz,
        nx * ny * nz <= nx * ny * nz * 3,
{
    assert(0 <= ix * ny + iy < nx * ny
        && 0 <= (ix * ny + iy) * nz + iz < nx * ny * nz
        && 0 <= ((ix * ny + iy) * nz + iz) * 3 + comp < nx * ny * nz * 3
        && nx * ny <= nx * ny * nz
        && nx * ny * nz <= nx * ny * nz * 3) by (nonlinear_arith)
        requires
            1 <= nx,
            1 <= ny,
            1 <= nz,
            0 <= ix < nx,
            0 <= iy < ny,
            0 <= iz < nz,
            0 <= comp < 3,
    ;
}

/// A linear blend of two values of magnitude at most `lim`, with a weight
/// inside `[0, 1]`, stays within `lim`.
proof fn lemma_blend_within(e0: int, e1: int, t: int, d: int, lim: int)
    requires
        0 <= t <= d,
        1 <= d,
        -lim <= e0 <= lim,
        -lim <= e1 <= lim,
        0 <= lim,
    ensures
        -lim <= blend_num(e0, e1, t, d) / d <= lim,
{
    let b = blend_num(e0, e1, t, d);
    assert(d * (-lim) <= b <= d * lim) by (nonlinear_arith)
        requires
            b == e0 * (d - t) + e1 * t,
            0 <= t <= d,
            1 <= d,
            -lim <= e0 <= lim,
            -lim <= e1 <= lim,
    ;
    lemma_div_is_ordered(d * (-lim), b, d);
    lemma_div_is_ordered(b, d * lim, d);
    lemma_div_multiples_vanish(lim, d);
    lemma_div_multiples_vanish(-lim, d);
}

/// At every one of a cell's eight corner coordinates, the sampled vector
/// equals the field value stored at that grid index exactly: stated for any
/// grid point, each component of `vector_at_spec` there is the stored
/// component.
pub proof fn lemma_vector_at_grid_corner(f: VectorField, i: int, j: int, k: int)
    requires
        f.wf(),
        0 <= i < f.nx(),
        0 <= j < f.ny(),
        0 <= k < f.nz(),
    ensures
        vector_at_spec(f, (f.xgrid@[i] as int, f.ygrid@[j] as int, f.zgrid@[k] as int))
            == (val(f, i, j, k, 0), val(f, i, j, k, 1), val(f, i, j, k, 2)),
{
    reveal(crate::field::vector_at_spec);
    let px = f.xgrid@[i] as int;
    let py = f.ygrid@[j] as int;
    let pz = f.zgrid@[k] as int;
    let bx = i == f.nx() - 1;
    let by = j == f.ny() - 1;
    let bz = k == f.nz() - 1;
    let cx = if bx { i - 1 } else { i };
    let cy = if by { j - 1 } else { j };
    let cz = if bz { k - 1 } else { k };
    if bx {
        lemma_cell_of_outside(f.xgrid@, px);
    } else {
        assert(f.xgrid@[i] < f.xgrid@[i + 1]);
        lemma_cell_of_interval(f.xgrid@, px, i);
    }
    if by {
        lemma_cell_of_outside(f.ygrid@, py);
    } else {
        assert(f.ygrid@[j] < f.ygrid@[j + 1]);
        lemma_cell_of_interval(f.ygrid@, py, j);
    }
    if bz {
        lemma_cell_of_outside(f.zgrid@, pz);
    } else {
        assert(f.zgrid@[k] < f.zgrid@[k + 1]);
        lemma_cell_of_interval(f.zgrid@, pz, k);
    }
    let dxv = f.xgrid@[cx + 1] - f.xgrid@[cx];
    let dyv = f.ygrid@[cy + 1] - f.ygrid@[cy];
    let dzv = f.zgrid@[cz + 1] - f.zgrid@[cz];
    assert(f.xgrid@[cx] < f.xgrid@[cx + 1]);
    assert(f.ygrid@[cy] < f.ygrid@[cy + 1]);
    assert(f.zgrid@[cz] < f.zgrid@[cz + 1]);
    lemma_corner_comp(f, i, j, k, 0, cx, cy, cz, bx, by, bz, dxv, dyv, dzv);
    lemma_corner_comp(f, i, j, k, 1, cx, cy, cz, bx, by, bz, dxv, dyv, dzv);
    lemma_corner_comp(f, i, j, k, 2, cx, cy, cz, bx, by, bz, dxv, dyv, dzv);
}

/// One component of the corner-exactness argument.
proof fn lemma_corner_comp(
    f: VectorField, i: int, j: int, k: int, comp: int,
    cx: int, cy: int, cz: int, bx: bool, by: bool, bz: bool,
    dxv: int, dyv: int, dzv: int,
)
    requires
        f.wf(),
        0 <= i < f.nx(),
        0 <= j < f.ny(),
        0 <= k < f.nz(),
        0 <= comp < 3,
        cx == if bx { i - 1 } else { i },
        cy == if by { j - 1 } else { j },
        cz == if bz { k - 1 } else { k },
        0 <= cx <= f.nx() - 2,
        0 <= cy <= f.ny() - 2,
        0 <= cz <= f.nz() - 2,
        axis_cell(f.xgrid@, f.xgrid@[i] as int) == cx,
        axis_cell(f.ygrid@, f.ygrid@[j] as int) == cy,
        axis_cell(f.zgrid@, f.zgrid@[k] as int) == cz,
        dxv == f.xgrid@[cx + 1] - f.xgrid@[cx],
        dyv == f.ygrid@[cy + 1] - f.ygrid@[cy],
        dzv == f.zgrid@[cz + 1] - f.zgrid@[cz],
        1 <= dxv,
        1 <= dyv,
        1 <= dzv,
    ensures
        sample_comp(f, f.xgrid@[i] as int, f.ygrid@[j] as int, f.zgrid@[k] as int, comp)
            == val(f, i, j, k, comp),
{
    reveal(crate::field::sample_comp);
    let px = f.xgrid@[i] as int;
    let py = f.ygrid@[j] as int;
    let pz = f.zgrid@[k] as int;
    assert(px - f.xgrid@[cx] == if bx { dxv } else { 0int });
    assert(py - f.ygrid@[cy] == if by { dyv } else { 0int });
    assert(pz - f.zgrid@[cz] == if bz { dzv } else { 0int });
    crate::interp::lemma_tri_val_corner(
        val(f, cx, cy, cz, comp), val(f, cx + 1, cy, cz, comp),
        val(f, cx, cy + 1, cz, comp), val(f, cx + 1, cy + 1, cz, comp),
        val(f, cx, cy, cz + 1, comp), val(f, cx + 1, cy, cz + 1, comp),
        val(f, cx, cy + 1, cz + 1, comp), val(f, cx + 1, cy + 1, cz + 1, comp),
        dxv, dyv, dzv, bx, by, bz,
    );
    assert(crate::interp::corner_select(
        val(f, cx, cy, cz, comp), val(f, cx + 1, cy, cz, comp),
        val(f, cx, cy + 1, cz, comp), val(f, cx + 1, cy + 1, cz, comp),
        val(f, cx, cy, cz + 1, comp), val(f, cx + 1, cy, cz + 1, comp),
        val(f, cx, cy + 1, cz + 1, comp), val(f, cx + 1, cy + 1, cz + 1, comp),
        bx, by, bz,
    ) == val(f, i, j, k, comp));
    lemma_flat_index(
        f.nx(), f.ny(), f.nz(), i, j, k, comp,
    );
    assert(-FIELD_LIMIT <= val(f, i, j, k, comp) <= FIELD_LIMIT);
}

/// Along a cell edge in x (the y and z coordinates exactly on grid lines),
/// the sampled vector is the one-dimensional linear blend of the two stored
/// endpoint values: it varies linearly in the x coordinate.
pub proof fn lemma_vector_at_linear_in_x(f: VectorField, i: int, j: int, k: int, px: int)
    requires
        f.wf(),
        0 <= i <= f.nx() - 2,
        0 <= j < f.ny(),
        0 <= k < f.nz(),
        f.xgrid@[i] <= px < f.xgrid@[i + 1],
    ensures
        ({
            let dxv = f.xgrid@[i + 1] - f.xgrid@[i];
            let tx = px - f.xgrid@[i];
            vector_at_spec(f, (px, f.ygrid@[j] as int, f.zgrid@[k] as int)) == (
                blend_num(val(f, i, j, k, 0), val(f, i + 1, j, k, 0), tx, dxv) / dxv,
                blend_num(val(f, i, j, k, 1), val(f, i + 1, j, k, 1), tx, dxv) / dxv,
                blend_num(val(f, i, j, k, 2), val(f, i + 1, j, k, 2), tx, dxv) / dxv,
            )
        }),
{
    reveal(crate::field::vector_at_spec);
    let py = f.ygrid@[j] as int;
    let pz = f.zgrid@[k] as int;
    let by = j == f.ny() - 1;
    let bz = k == f.nz() - 1;
    let cy = if by { j - 1 } else { j };
    let cz = if bz { k - 1 } else { k };
    lemma_cell_of_interval(f.xgrid@, px, i);
    if by {
        lemma_cell_of_outside(f.ygrid@, py);
    } else {
        assert(f.ygrid@[j] < f.ygrid@[j + 1]);
        lemma_cell_of_interval(f.ygrid@, py, j);
    }
    if bz {
        lemma_cell_of_outside(f.zgrid@, pz);
    } else {
        assert(f.zgrid@[k] < f.zgrid@[k + 1]);
        lemma_cell_of_interval(f.zgrid@, pz, k);
    }
    let dxv = f.xgrid@[i + 1] - f.xgrid@[i];
    let dyv = f.ygrid@[cy + 1] - f.ygrid@[cy];
    let dzv = f.zgrid@[cz + 1] - f.zgrid@[cz];
    assert(f.xgrid@[i] < f.xgrid@[i + 1]);
    assert(f.ygrid@[cy] < f.ygrid@[cy + 1]);
    assert(f.zgrid@[cz] < f.zgrid@[cz + 1]);
    lemma_edge_comp(f, i, j, k, 0, cy, cz, by, bz, dxv, dyv, dzv, px);
    lemma_edge_comp(f, i, j, k, 1, cy, cz, by, bz, dxv, dyv, dzv, px);
    lemma_edge_comp(f, i, j, k, 2, cy, cz, by, bz, dxv, dyv, dzv, px);
}

/// One component of the edge-linearity argument.
proof fn lemma_edge_comp(
    f: VectorField, i: int, j: int, k: int, comp: int,
    cy: int, cz: int, by: bool, bz: bool,
    dxv: int, dyv: int, dzv: int, px: int,
)
    requires
        f.wf(),
        0 <= i <= f.nx() - 2,
        0 <= j < f.ny(),
        0 <= k < f.nz(),
        0 <= comp < 3,
        cy == if by { j - 1 } else { j },
        cz == if bz { k - 1 } else { k },
        0 <= cy <= f.ny() - 2,
        0 <= cz <= f.nz() - 2,
        f.xgrid@[i] <= px < f.xgrid@[i + 1],
        axis_cell(f.xgrid@, px) == i,
        axis_cell(f.ygrid@, f.ygrid@[j] as int) == cy,
        axis_cell(f.zgrid@, f.zgrid@[k] as int) == cz,
        dxv == f.xgrid@[i + 1] - f.xgrid@[i],
        dyv == f.ygrid@[cy + 1] - f.ygrid@[cy],
        dzv == f.zgrid@[cz + 1] - f.zgrid@[cz],
        1 <= dxv,
        1 <= dyv,
        1 <= dzv,
    ensures
        sample_comp(f, px, f.ygrid@[j] as int, f.zgrid@[k] as int, comp)
            == blend_num(val(f, i, j, k, comp), val(f, i + 1, j, k, comp), px - f.xgrid@[i], dxv)
                / dxv,
{
    reveal(crate::field::sample_comp);
    let py = f.ygrid@[j] as int;
    let pz = f.zgrid@[k] as int;
    let tx = px - f.xgrid@[i];
    assert(py - f.ygrid@[cy] == if by { dyv } else { 0int });
    assert(pz - f.zgrid@[cz] == if bz { dzv } else { 0int });
    crate::interp::lemma_tri_val_edge(
        val(f, i, cy, cz, comp), val(f, i + 1, cy, cz, comp),
        val(f, i, cy + 1, cz, comp), val(f, i + 1, cy + 1, cz, comp),
        val(f, i, cy, cz + 1, comp), val(f, i + 1, cy, cz + 1, comp),
        val(f, i, cy + 1, cz + 1, comp), val(f, i + 1, cy + 1, cz + 1, comp),
        tx, dxv, dyv, dzv, by, bz,
    );
    assert(crate::interp::corner_select(
        val(f, i, cy, cz, comp), val(f, i + 1, cy, cz, comp),
        val(f, i, cy + 1, cz, comp), val(f, i + 1, cy + 1, cz, comp),
        val(f, i, cy, cz + 1, comp), val(f, i + 1, cy, cz + 1, comp),
        val(f, i, cy + 1, cz + 1, comp), val(f, i + 1, cy + 1, cz + 1, comp),
        false, by, bz,
    ) == val(f, i, j, k, comp));
    assert(crate::interp::corner_select(
        val(f, i, cy, cz, comp), val(f, i + 1, cy, cz, comp),
        val(f, i, cy + 1, cz, comp), val(f, i + 1, cy + 1, cz, comp),
        val(f, i, cy, cz + 1, comp), val(f, i + 1, cy, cz + 1, comp),
        val(f, i, cy + 1, cz + 1, comp), val(f, i + 1, cy + 1, cz + 1, comp),
        true, by, bz,
    ) == val(f, i + 1, j, k, comp));
    lemma_flat_index(f.nx(), f.ny(), f.nz(), i, j, k, comp);
    lemma_flat_index(f.nx(), f.ny(), f.nz(), i + 1, j, k, comp);
    assert(-FIELD_LIMIT <= val(f, i, j, k, comp) <= FIELD_LIMIT);
    assert(-FIELD_LIMIT <= val(f, i + 1, j, k, comp) <= FIELD_LIMIT);
    lemma_blend_within(
        val(f, i, j, k, comp), val(f, i + 1, j, k, comp), tx, dxv, FIELD_LIMIT as int,
    );
}

/// Along a cell edge in y (the x and z coordinates exactly on grid lines),
/// the sampled vector is the one-dimensional linear blend of the two stored
/// endpoint values: it varies linearly in the y coordinate.
pub proof fn lemma_vector_at_linear_in_y(f: VectorField, i: int, j: int, k: int, py: int)
    requires
        f.wf(),
        0 <= i < f.nx(),
        0 <= j <= f.ny() - 2,
        0 <= k < f.nz(),
        f.ygrid@[j] <= py < f.ygrid@[j + 1],
    ensures
        ({
            let dyv = f.ygrid@[j + 1] - f.ygrid@[j];
            let ty = py - f.ygrid@[j];
            vector_at_spec(f, (f.xgrid@[i] as int, py, f.zgrid@[k] as int)) == (
                blend_num(val(f, i, j, k, 0), val(f, i, j + 1, k, 0), ty, dyv) / dyv,
                blend_num(val(f, i, j, k, 1), val(f, i, j + 1, k, 1), ty, dyv) / dyv,
                blend_num(val(f, i, j, k, 2), val(f, i, j + 1, k, 2), ty, dyv) / dyv,
            )
        }),
{
    reveal(crate::field::vector_at_spec);
    let px = f.xgrid@[i] as int;
    let pz = f.zgrid@[k] as int;
    let bx = i == f.nx() - 1;
    let bz = k == f.nz() - 1;
    let cx = if bx { i - 1 } else { i };
    let cz = if bz { k - 1 } else { k };
    lemma_cell_of_interval(f.ygrid@, py, j);
    if bx {
        lemma_cell_of_outside(f.xgrid@, px);
    } else {
        assert(f.xgrid@[i] < f.xgrid@[i + 1]);
        lemma_cell_of_interval(f.xgrid@, px, i);
    }
    if bz {
        lemma_cell_of_outside(f.zgrid@, pz);
    } else {
        assert(f.zgrid@[k] < f.zgrid@[k + 1]);
        lemma_cell_of_interval(f.zgrid@, pz, k);
    }
    let dxv = f.xgrid@[cx + 1] - f.xgrid@[cx];
    let dyv = f.ygrid@[j + 1] - f.ygrid@[j];
    let dzv = f.zgrid@[cz + 1] - f.zgrid@[cz];
    assert(f.xgrid@[cx] < f.xgrid@[cx + 1]);
    assert(f.ygrid@[j] < f.ygrid@[j + 1]);
    assert(f.zgrid@[cz] < f.zgrid@[cz + 1]);
    lemma_edge_comp_y(f, i, j, k, 0, cx, cz, bx, bz, dxv, dyv, dzv, py);
    lemma_edge_comp_y(f, i, j, k, 1, cx, cz, bx, bz, dxv, dyv, dzv, py);
    lemma_edge_comp_y(f, i, j, k, 2, cx, cz, bx, bz, dxv, dyv, dzv, py);
}

/// One component of the edge-linearity argument along y.
proof fn lemma_edge_comp_y(
    f: VectorField, i: int, j: int, k: int, comp: int,
    cx: int, cz: int, bx: bool, bz: bool,
    dxv: int, dyv: int, dzv: int, py: int,
)
    requires
        f.wf(),
        0 <= i < f.nx(),
        0 <= j <= f.ny() - 2,
        0 <= k < f.nz(),
        0 <= comp < 3,
        cx == if bx { i - 1 } else { i },
        cz == if bz { k - 1 } else { k },
        0 <= cx <= f.nx() - 2,
        0 <= cz <= f.nz() - 2,
        f.ygrid@[j] <= py < f.ygrid@[j + 1],
        axis_cell(f.ygrid@, py) == j,
        axis_cell(f.xgrid@, f.xgrid@[i] as int) == cx,
        axis_cell(f.zgrid@, f.zgrid@[k] as int) == cz,
        dxv == f.xgrid@[cx + 1] - f.xgrid@[cx],
        dyv == f.ygrid@[j + 1] - f.ygrid@[j],
        dzv == f.zgrid@[cz + 1] - f.zgrid@[cz],
        1 <= dxv,
        1 <= dyv,
        1 <= dzv,
    ensures
        sample_comp(f, f.xgrid@[i] as int, py, f.zgrid@[k] as int, comp)
            == blend_num(val(f, i, j, k, comp), val(f, i, j + 1, k, comp), py - f.ygrid@[j], dyv)
                / dyv,
{
    reveal(crate::field::sample_comp);
    let px = f.xgrid@[i] as int;
    let pz = f.zgrid@[k] as int;
    let ty = py - f.ygrid@[j];
    assert(px - f.xgrid@[cx] == if bx { dxv } else { 0int });
    assert(pz - f.zgrid@[cz] == if bz { dzv } else { 0int });
    crate::interp::lemma_tri_val_edge_y(
        val(f, cx, j, cz, comp), val(f, cx + 1, j, cz, comp),
        val(f, cx, j + 1, cz, comp), val(f, cx + 1, j + 1, cz, comp),
        val(f, cx, j, cz + 1, comp), val(f, cx + 1, j, cz + 1, comp),
        val(f, cx, j + 1, cz + 1, comp), val(f, cx + 1, j + 1, cz + 1, comp),
        ty, dxv, dyv, dzv, bx, bz,
    );
    assert(crate::interp::corner_select(
        val(f, cx, j, cz, comp), val(f, cx + 1, j, cz, comp),
        val(f, cx, j + 1, cz, comp), val(f, cx + 1, j + 1, cz, comp),
        val(f, cx, j, cz + 1, comp), val(f, cx + 1, j, cz + 1, comp),
        val(f, cx, j + 1, cz + 1, comp), val(f, cx + 1, j + 1, cz + 1, comp),
        bx, false, bz,
    ) == val(f, i, j, k, comp));
    assert(crate::interp::corner_select(
        val(f, cx, j, cz, comp), val(f, cx + 1, j, cz, comp),
        val(f, cx, j + 1, cz, comp), val(f, cx + 1, j + 1, cz, comp),
        val(f, cx, j, cz + 1, comp), val(f, cx + 1, j, cz + 1, comp),
        val(f, cx, j + 1, cz + 1, comp), val(f, cx + 1, j + 1, cz + 1, comp),
        bx, true, bz,
    ) == val(f, i, j + 1, k, comp));
    lemma_flat_index(f.nx(), f.ny(), f.nz(), i, j, k, comp);
    lemma_flat_index(f.nx(), f.ny(), f.nz(), i, j + 1, k, comp);
    assert(-FIELD_LIMIT <= val(f, i, j, k, comp) <= FIELD_LIMIT);
    assert(-FIELD_LIMIT <= val(f, i, j + 1, k, comp) <= FIELD_LIMIT);
    lemma_blend_within(
        val(f, i, j, k, comp), val(f, i, j + 1, k, comp), ty, dyv, FIELD_LIMIT as int,
    );
}

/// Along a cell edge in z (the x and y coordinates exactly on grid lines),
/// the sampled vector is the one-dimensional linear blend of the two stored
/// endpoint values: it varies linearly in the z coordinate.
pub proof fn lemma_vector_at_linear_in_z(f: VectorField, i: int, j: int, k: int, pz: int)
    requires
        f.wf(),
        0 <= i < f.nx(),
        0 <= j < f.ny(),
        0 <= k <= f.nz() - 2,
        f.zgrid@[k] <= pz < f.zgrid@[k + 1],
    ensures
        ({
            let dzv = f.zgrid@[k + 1] - f.zgrid@[k];
            let tz = pz - f.zgrid@[k];
            vector_at_spec(f, (f.xgrid@[i] as int, f.ygrid@[j] as int, pz)) == (
                blend_num(val(f, i, j, k, 0), val(f, i, j, k + 1, 0), tz, dzv) / dzv,
                blend_num(val(f, i, j, k, 1), val(f, i, j, k + 1, 1), tz, dzv) / dzv,
                blend_num(val(f, i, j, k, 2), val(f, i, j, k + 1, 2), tz, dzv) / dzv,
            )
        }),
{
    reveal(crate::field::vector_at_spec);
    let px = f.xgrid@[i] as int;
    let py = f.ygrid@[j] as int;
    let bx = i == f.nx() - 1;
    let by = j == f.ny() - 1;
    let cx = if bx { i - 1 } else { i };
    let cy = if by { j - 1 } else { j };
    lemma_cell_of_interval(f.zgrid@, pz, k);
    if bx {
        lemma_cell_of_outside(f.xgrid@, px);
    } else {
        assert(f.xgrid@[i] < f.xgrid@[i + 1]);
        lemma_cell_of_interval(f.xgrid@, px, i);
    }
    if by {
        lemma_cell_of_outside(f.ygrid@, py);
    } else {
        assert(f.ygrid@[j] < f.ygrid@[j + 1]);
        lemma_cell_of_interval(f.ygrid@, py, j);
    }
    let dxv = f.xgrid@[cx + 1] - f.xgrid@[cx];
    let dyv = f.ygrid@[cy + 1] - f.ygrid@[cy];
    let dzv = f.zgrid@[k + 1] - f.zgrid@[k];
    assert(f.xgrid@[cx] < f.xgrid@[cx + 1]);
    assert(f.ygrid@[cy] < f.ygrid@[cy + 1]);
    assert(f.zgrid@[k] < f.zgrid@[k + 1]);
    lemma_edge_comp_z(f, i, j, k, 0, cx, cy, bx, by, dxv, dyv, dzv, pz);
    lemma_edge_comp_z(f, i, j, k, 1, cx, cy, bx, by, dxv, dyv, dzv, pz);
    lemma_edge_comp_z(f, i, j, k, 2, cx, cy, bx, by, dxv, dyv, dzv, pz);
}

/// One component of the edge-linearity argument along z.
proof fn lemma_edge_comp_z(
    f: VectorField, i: int, j: int, k: int, comp: int,
    cx: int, cy: int, bx: bool, by: bool,
    dxv: int, dyv: int, dzv: int, pz: int,
)
    requires
        f.wf(),
        0 <= i < f.nx(),
        0 <= j < f.ny(),
        0 <= k <= f.nz() - 2,
        0 <= comp < 3,
        cx == if bx { i - 1 } else { i },
        cy == if by { j - 1 } else { j },
        0 <= cx <= f.nx() - 2,
        0 <= cy <= f.ny() - 2,
        f.zgrid@[k] <= pz < f.zgrid@[k + 1],
        axis_cell(f.zgrid@, pz) == k,
        axis_cell(f.xgrid@, f.xgrid@[i] as int) == cx,
        axis_cell(f.ygrid@, f.ygrid@[j] as int) == cy,
        dxv == f.xgrid@[cx + 1] - f.xgrid@[cx],
        dyv == f.ygrid@[cy + 1] - f.ygrid@[cy],
        dzv == f.zgrid@[k + 1] - f.zgrid@[k],
        1 <= dxv,
        1 <= dyv,
        1 <= dzv,
    ensures
        sample_comp(f, f.xgrid@[i] as int, f.ygrid@[j] as int, pz, comp)
            == blend_num(val(f, i, j, k, comp), val(f, i, j, k + 1, comp), pz - f.zgrid@[k], dzv)
                / dzv,
{
    reveal(crate::field::sample_comp);
    let px = f.xgrid@[i] as int;
    let py = f.ygrid@[j] as int;
    let tz = pz - f.zgrid@[k];
    assert(px - f.xgrid@[cx] == if bx { dxv } else { 0int });
    assert(py - f.ygrid@[cy] == if by { dyv } else { 0int });
    crate::interp::lemma_tri_val_edge_z(
        val(f, cx, cy, k, comp), val(f, cx + 1, cy, k, comp),
        val(f, cx, cy + 1, k, comp), val(f, cx + 1, cy + 1, k, comp),
        val(f, cx, cy, k + 1, comp), val(f, cx + 1, cy, k + 1, comp),
        val(f, cx, cy + 1, k + 1, comp), val(f, cx + 1, cy + 1, k + 1, comp),
        tz, dxv, dyv, dzv, bx, by,
    );
    assert(crate::interp::corner_select(
        val(f, cx, cy, k, comp), val(f, cx + 1, cy, k, comp),
        val(f, cx, cy + 1, k, comp), val(f, cx + 1, cy + 1, k, comp),
        val(f, cx, cy, k + 1, comp), val(f, cx + 1, cy, k + 1, comp),
        val(f, cx, cy + 1, k + 1, comp), val(f, cx + 1, cy + 1, k + 1, comp),
        bx, by, false,
    ) == val(f, i, j, k, comp));
    assert(crate::interp::corner_select(
        val(f, cx, cy, k, comp), val(f, cx + 1, cy, k, comp),
        val(f, cx, cy + 1, k, comp), val(f, cx + 1, cy + 1, k, comp),
        val(f, cx, cy, k + 1, comp), val(f, cx + 1, cy, k + 1, comp),
        val(f, cx, cy + 1, k + 1, comp), val(f, cx + 1, cy + 1, k + 1, comp),
        bx, by, true,
    ) == val(f, i, j, k + 1, comp));
    lemma_flat_index(f.nx(), f.ny(), f.nz(), i, j, k, comp);
    lemma_flat_index(f.nx(), f.ny(), f.nz(), i, j, k + 1, comp);
    assert(-FIELD_LIMIT <= val(f, i, j, k, comp) <= FIELD_LIMIT);
    assert(-FIELD_LIMIT <= val(f, i, j, k + 1, comp) <= FIELD_LIMIT);
    lemma_blend_within(
        val(f, i, j, k, comp), val(f, i, j, k + 1, comp), tz, dzv, FIELD_LIMIT as int,
    );
}

/// If the product of the axis lengths (times 3) cannot even be represented,
/// no value vector can have that many entries.
proof fn lemma_shape_overflow(nx: int, ny: int, nz: int, nv: int)
    requires
        2 <= nx,
        2 <= ny,
        2 <= nz,
        nv <= usize::MAX,
        nx * ny > usize::MAX || nx * ny * nz > usize::MAX || nx * ny * nz * 3 > usize::MAX,
    ensures
        nv != nx * ny * nz * 3,
{
    assert(nx * ny * nz * 3 > usize::MAX) by (nonlinear_arith)
        requires
            2 <= nx,
            2 <= ny,
            2 <= nz,
            nx * ny > usize::MAX || nx * ny * nz > usize::MAX || nx * ny * nz * 3 > usize::MAX,
    ;
}

/// Check every condition of `axis_wf` on one axis.
#[verifier::rlimit(60)]
fn axis_ok(a: &Vec<i64>) -> (ok: bool)
    ensures
        ok <==> axis_wf(a@),
{
    if a.len() < 2 {
        return false;
    }
    if a[0] != 0 {
        return false;
    }
    let mut i: usize = 1;
    while i < a.len()
        invariant
            1 <= i <= a@.len(),
            2 <= a@.len(),
            a@[0] == 0,
            forall|k: int| 0 <= k < i - 1 ==> #[trigger] a@[k] < a@[k + 1],
            forall|k: int| 0 <= k < i ==> 0 <= #[trigger] a@[k] <= COORD_LIMIT,
        decreases a@.len() - i,
    {
        if a[i] <= a[i - 1] {
            assert(!(a@[i as int - 1] < a@[i as int]));
            return false;
        }
        if a[i] > COORD_LIMIT {
            assert(!(a@[i as int] <= COORD_LIMIT));
            return false;
        }
        i = i + 1;
    }
    true
}

/// Scan one axis for the cell containing `x`, defaulting to the last cell.
fn cell_scan(a: &Vec<i64>, x: i64) -> (c: usize)
    requires
        a@.len() >= 2,
    ensures
        c as int == axis_cell(a@, x as int),
        c + 1 < a@.len(),
{
    proof {
        lemma_axis_cell_range(a@, x as int, 0);
    }
    let n = a.len();
    let mut i: usize = 0;
    while i < n - 1
        invariant
            n == a@.len(),
            2 <= n,
            0 <= i <= n - 1,
            axis_cell(a@, x as int) == axis_cell_from(a@, x as int, i as int),
            axis_cell(a@, x as int) <= n - 2,
        decreases n - 1 - i,
    {
        if a[i] <= x && x < a[i + 1] {
            return i;
        }
        i = i + 1;
    }
    n - 2
}

} // verus!
