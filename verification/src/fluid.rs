//! The fluid solver: diffusion relaxation, reflective boundary conditions,
//! pressure projection, and semi-Lagrangian advection, orchestrated into one
//! timestep over fixed-point fields.
//!
//! Every phase has an exact functional contract: the grid after the phase
//! equals a spec-level transform of the grid before it.

use crate::coords::{boundary_index, boundary_len, classify, corner_coords_spec, Coord2, Corner,
    Edge, EdgeInfo, Rect};
use crate::math::Clamp;
use crate::matrix::{cell_at, cell_index, cell_value, interpolate_spec, lemma_cell_index_bounds,
    lemma_cell_index_injective, lemma_index_to_coords, FieldValue, Grid};
use crate::scalar::{scalar_add, scalar_div, scalar_mul, scalar_neg, scalar_of_int, scalar_sub,
    Scalar, SCALE_ONE};
use crate::time::TimeDelta;
use crate::vector::Vector2;
use crate::constant::{ITER, N};
use vstd::prelude::*;

verus! {

/// Scalar controlling how quickly field values spread into neighbors per
/// unit time.
#[derive(Clone, Copy, PartialEq, Eq, Structural, Debug)]
pub struct Diffusion(pub Scalar);

/// Reserved scalar for viscous damping; stored but currently algorithmically
/// inert.
#[derive(Clone, Copy, PartialEq, Eq, Structural, Debug)]
pub struct Viscosity(pub Scalar);

/// The amount of dye at a point.
#[derive(Clone, Copy, PartialEq, Eq, Structural, Debug)]
pub struct Density(pub Scalar);

/// The dye and velocity at one point of the fluid.
#[derive(Clone, Copy, PartialEq, Eq, Structural, Debug)]
pub struct FluidPoint {
    pub density: Density,
    pub velocity: Vector2,
}

impl FieldValue for Density {
    open spec fn zero_spec() -> Density {
        Density(Scalar { bits: 0 })
    }

    open spec fn add_spec(a: Density, b: Density) -> Density {
        Density(scalar_add(a.0, b.0))
    }

    open spec fn scale_spec(a: Density, k: Scalar) -> Density {
        Density(scalar_mul(a.0, k))
    }

    open spec fn div_spec(a: Density, k: Scalar) -> Density {
        Density(scalar_div(a.0, k))
    }

    fn zero() -> (r: Density) {
        Density(Scalar::zero())
    }

    fn add(a: Density, b: Density) -> (r: Density) {
        Density(a.0.add(b.0))
    }

    fn scale(a: Density, k: Scalar) -> (r: Density) {
        Density(a.0.mul(k))
    }

    fn div_by(a: Density, k: Scalar) -> (r: Density) {
        Density(a.0.div(k))
    }

    proof fn lemma_add_zero(a: Density) {
    }

    proof fn lemma_scale_one(a: Density) {
        crate::scalar::lemma_mul_one_exact(a.0.bits as int);
    }

    proof fn lemma_scale_zero(a: Density, k: Scalar) {
        crate::scalar::lemma_mul_zero(a.0.bits as int);
        assert(crate::scalar::mul_bits(0, k.bits as int) == 0);
    }
}

/// How a field value behaves when mirrored across a domain edge: the
/// component that would carry flow through the wall is negated, the rest is
/// preserved.
pub trait ValueAtEdge: Sized {
    /// What `value_at_edge` returns.
    spec fn value_at_edge_spec(edge: Edge, neighbor: Self) -> Self;

    /// The value an edge cell takes, given its single inward neighbor's
    /// value.
    fn value_at_edge(edge: Edge, neighbor: Self) -> (r: Self)
        ensures
            r == Self::value_at_edge_spec(edge, neighbor),
    ;
}

impl ValueAtEdge for Vector2 {
    open spec fn value_at_edge_spec(edge: Edge, neighbor: Vector2) -> Vector2 {
        match edge {
            Edge::Left | Edge::Right => Vector2 { x: scalar_neg(neighbor.x), y: neighbor.y },
            Edge::Top | Edge::Bottom => Vector2 { x: neighbor.x, y: scalar_neg(neighbor.y) },
        }
    }

    fn value_at_edge(edge: Edge, neighbor: Vector2) -> (r: Vector2) {
        match edge {
            Edge::Left | Edge::Right => Vector2 { x: neighbor.x.neg(), y: neighbor.y },
            Edge::Top | Edge::Bottom => Vector2 { x: neighbor.x, y: neighbor.y.neg() },
        }
    }
}

impl ValueAtEdge for Density {
    open spec fn value_at_edge_spec(edge: Edge, neighbor: Density) -> Density {
        neighbor
    }

    fn value_at_edge(edge: Edge, neighbor: Density) -> (r: Density) {
        neighbor
    }
}

/// The sum of a cell's four cardinal neighbors, left, right, below, above,
/// with absent and out-of-domain cells contributing zero (which leaves the
/// sum unchanged exactly).
pub open spec fn neighbor_sum<T: FieldValue>(rect: Rect, s: Seq<Option<T>>, x: int, y: int) -> T {
    T::add_spec(
        T::add_spec(
            T::add_spec(
                T::add_spec(T::zero_spec(), cell_value(rect, s, x - 1, y)),
                cell_value(rect, s, x + 1, y),
            ),
            cell_value(rect, s, x, y - 1),
        ),
        cell_value(rect, s, x, y + 1),
    )
}

/// One Gauss-Seidel-style relaxation value: the previous-field value plus
/// `a` times the previous-field neighbor sum, divided by `c`.
pub open spec fn relax_value<T: FieldValue>(
    rect: Rect,
    prev: Seq<Option<T>>,
    x: int,
    y: int,
    a: Scalar,
    c: Scalar,
) -> T {
    T::div_spec(
        T::add_spec(cell_value(rect, prev, x, y), T::scale_spec(neighbor_sum(rect, prev, x, y), a)),
        c,
    )
}

/// One full relaxation sweep: every interior cell that holds a value is
/// replaced by its relaxation value computed from `prev`; boundary and
/// absent cells are unchanged. Because every read comes from `prev`,
/// repeating the sweep changes nothing further.
pub open spec fn lin_sweep<T: FieldValue>(
    rect: Rect,
    cur: Seq<Option<T>>,
    prev: Seq<Option<T>>,
    a: Scalar,
    c: Scalar,
) -> Seq<Option<T>> {
    Seq::new(
        cur.len(),
        |i: int|
            {
                let x = i % (rect.width as int);
                let y = i / (rect.width as int);
                if rect.interior_spec(x, y) && cur[i] is Some {
                    Some(relax_value(rect, prev, x, y, a, c))
                } else {
                    cur[i]
                }
            },
    )
}

/// The x coordinate of an edge cell's single inward neighbor.
pub open spec fn inward_x(e: Edge, x: int) -> int {
    match e {
        Edge::Left => x + 1,
        Edge::Right => x - 1,
        _ => x,
    }
}

/// The y coordinate of an edge cell's single inward neighbor.
pub open spec fn inward_y(e: Edge, y: int) -> int {
    match e {
        Edge::Top => y - 1,
        Edge::Bottom => y + 1,
        _ => y,
    }
}

/// The mirrored value an edge cell takes from its inward neighbor.
pub open spec fn edge_cell_value<T: FieldValue + ValueAtEdge>(
    rect: Rect,
    s: Seq<Option<T>>,
    e: Edge,
    x: int,
    y: int,
) -> T {
    T::value_at_edge_spec(e, cell_value(rect, s, inward_x(e, x), inward_y(e, y)))
}

/// The value of one cell after the first `k` boundary cells (in enumeration
/// order) have had the edge fix-up applied: a set pure-edge cell among them
/// mirrors its inward neighbor as read from the pre-fix-up state `s`; every
/// other cell still holds its `s` value.
pub open spec fn edge_partial<T: FieldValue + ValueAtEdge>(
    rect: Rect,
    s: Seq<Option<T>>,
    x: int,
    y: int,
    k: int,
) -> Option<T> {
    match classify(rect.width as int, rect.height as int, x, y) {
        EdgeInfo::Edge(e) => if boundary_index(rect, x, y) < k && s[cell_index(rect, x, y)]
            is Some {
            Some(edge_cell_value(rect, s, e, x, y))
        } else {
            s[cell_index(rect, x, y)]
        },
        _ => s[cell_index(rect, x, y)],
    }
}

/// What `Fluid::fix_edges` does: every set pure-edge cell mirrors its single
/// inward neighbor; corners, interior and absent cells are unchanged.
pub open spec fn fix_edges_spec<T: FieldValue + ValueAtEdge>(
    rect: Rect,
    s: Seq<Option<T>>,
) -> Seq<Option<T>> {
    Seq::new(
        s.len(),
        |i: int|
            edge_partial(
                rect,
                s,
                i % (rect.width as int),
                i / (rect.width as int),
                boundary_len(rect),
            ),
    )
}

/// The value a set corner cell takes: the sum of its two present neighbors
/// (both edge cells), divided by two.
pub open spec fn corner_fixed<T: FieldValue>(
    rect: Rect,
    s: Seq<Option<T>>,
    x: int,
    y: int,
) -> Option<T> {
    if s[cell_index(rect, x, y)] is Some {
        Some(T::div_spec(neighbor_sum(rect, s, x, y), scalar_of_int(2)))
    } else {
        s[cell_index(rect, x, y)]
    }
}

/// What `Fluid::fix_corners` does: every set corner cell becomes the
/// average of its two adjacent boundary cells; everything else is unchanged.
pub open spec fn fix_corners_spec<T: FieldValue>(rect: Rect, s: Seq<Option<T>>) -> Seq<Option<T>> {
    Seq::new(
        s.len(),
        |i: int|
            {
                let x = i % (rect.width as int);
                let y = i / (rect.width as int);
                match classify(rect.width as int, rect.height as int, x, y) {
                    EdgeInfo::Corner(_, _) => corner_fixed(rect, s, x, y),
                    _ => s[i],
                }
            },
    )
}

/// What `Fluid::set_bnd` does: edges mirror their inward neighbors, then
/// corners average their two adjacent (just fixed) edge cells.
pub open spec fn set_bnd_spec<T: FieldValue + ValueAtEdge>(
    rect: Rect,
    s: Seq<Option<T>>,
) -> Seq<Option<T>> {
    fix_corners_spec(rect, fix_edges_spec(rect, s))
}

/// What `Fluid::lin_solve` does: one relaxation sweep (whose fixed point the
/// remaining sweeps merely re-establish, since all reads come from `prev`),
/// then the boundary fix-up.
pub open spec fn lin_solve_spec<T: FieldValue + ValueAtEdge>(
    rect: Rect,
    cur: Seq<Option<T>>,
    prev: Seq<Option<T>>,
    a: Scalar,
    c: Scalar,
) -> Seq<Option<T>> {
    set_bnd_spec(rect, lin_sweep(rect, cur, prev, a, c))
}

/// The diffusion coefficient `a = dt * diff * (width-2) * (height-2)`.
pub open spec fn diffusion_a(rect: Rect, diff: Scalar, dt: Scalar) -> Scalar {
    scalar_mul(
        scalar_mul(scalar_mul(dt, diff), scalar_of_int(rect.width - 2)),
        scalar_of_int(rect.height - 2),
    )
}

/// The diffusion divisor `c = 1 + 4 * a`.
pub open spec fn diffusion_c(a: Scalar) -> Scalar {
    scalar_add(Scalar { bits: SCALE_ONE }, scalar_mul(scalar_of_int(4), a))
}

/// What `Fluid::diffuse` does.
pub open spec fn diffuse_spec<T: FieldValue + ValueAtEdge>(
    rect: Rect,
    cur: Seq<Option<T>>,
    prev: Seq<Option<T>>,
    diff: Scalar,
    dt: Scalar,
) -> Seq<Option<T>> {
    let a = diffusion_a(rect, diff, dt);
    lin_solve_spec(rect, cur, prev, a, diffusion_c(a))
}

/// The state of one cell while a relaxation sweep is in progress: cells at
/// column-major positions before `(x, y)` already hold their relaxed value;
/// the rest still hold their sweep-entry value.
pub open spec fn sweep_partial<T: FieldValue>(
    rect: Rect,
    e0: Seq<Option<T>>,
    prev: Seq<Option<T>>,
    a: Scalar,
    c: Scalar,
    ix: int,
    iy: int,
    x: int,
    y: int,
) -> Option<T> {
    if rect.interior_spec(ix, iy) && e0[cell_index(rect, ix, iy)] is Some && (ix < x || (ix == x
        && iy < y)) {
        Some(relax_value(rect, prev, ix, iy, a, c))
    } else {
        e0[cell_index(rect, ix, iy)]
    }
}

/// A relaxation sweep is a fixed point: sweeping its own result changes
/// nothing, since every read comes from `prev`.
pub proof fn lemma_lin_sweep_stable<T: FieldValue>(
    rect: Rect,
    s: Seq<Option<T>>,
    prev: Seq<Option<T>>,
    a: Scalar,
    c: Scalar,
)
    ensures
        lin_sweep(rect, lin_sweep(rect, s, prev, a, c), prev, a, c) == lin_sweep(
            rect,
            s,
            prev,
            a,
            c,
        ),
{
    let t = lin_sweep(rect, s, prev, a, c);
    assert(lin_sweep(rect, t, prev, a, c) =~= t);
}

/// The discrete divergence measure stored at an interior point:
/// `-((right.x - left.x) + (above.y - below.y)) / (2 * width)`.
pub open spec fn div_value(rect: Rect, vel: Seq<Option<Vector2>>, x: int, y: int) -> Scalar {
    scalar_div(
        scalar_neg(
            scalar_add(
                scalar_sub(cell_value(rect, vel, x + 1, y).x, cell_value(rect, vel, x - 1, y).x),
                scalar_sub(cell_value(rect, vel, x, y + 1).y, cell_value(rect, vel, x, y - 1).y),
            ),
        ),
        scalar_of_int(2 * rect.width),
    )
}

/// The state of one cell while the divergence pass is in progress.
pub open spec fn div_partial(
    rect: Rect,
    vel: Seq<Option<Vector2>>,
    a0: Seq<Option<Vector2>>,
    ix: int,
    iy: int,
    x: int,
    y: int,
) -> Option<Vector2> {
    if rect.interior_spec(ix, iy) && (ix < x || (ix == x && iy < y)) {
        Some(Vector2 { x: Scalar { bits: 0 }, y: div_value(rect, vel, ix, iy) })
    } else {
        a0[cell_index(rect, ix, iy)]
    }
}

/// What the divergence pass does: every interior cell of the auxiliary field
/// takes the divergence of the velocity field in its y slot and zero (the
/// initial pressure) in its x slot; boundary cells are left for the
/// boundary fix-up.
pub open spec fn div_init_spec(
    rect: Rect,
    vel: Seq<Option<Vector2>>,
    aux: Seq<Option<Vector2>>,
) -> Seq<Option<Vector2>> {
    Seq::new(
        aux.len(),
        |i: int|
            div_partial(
                rect,
                vel,
                aux,
                i % (rect.width as int),
                i / (rect.width as int),
                rect.width as int,
                1,
            ),
    )
}

/// The sum of the pressures (x slots) of a cell's four cardinal neighbors.
pub open spec fn pressure_sum(rect: Rect, s: Seq<Option<Vector2>>, x: int, y: int) -> Scalar {
    scalar_add(
        scalar_add(
            scalar_add(cell_value(rect, s, x - 1, y).x, cell_value(rect, s, x + 1, y).x),
            cell_value(rect, s, x, y - 1).x,
        ),
        cell_value(rect, s, x, y + 1).x,
    )
}

/// One Gauss-Seidel pressure update at an interior cell, in place: the
/// pressure becomes the stored divergence plus the current neighbor
/// pressures, divided by four; the divergence (y slot) is kept.
pub open spec fn gs_cell(rect: Rect, s: Seq<Option<Vector2>>, x: int, y: int) -> Seq<
    Option<Vector2>,
> {
    let divy = cell_value(rect, s, x, y).y;
    let p = scalar_div(scalar_add(divy, pressure_sum(rect, s, x, y)), scalar_of_int(4));
    s.update(cell_index(rect, x, y), Some(Vector2 { x: p, y: divy }))
}

/// The first `n` cell updates of one in-place Gauss-Seidel sweep, in
/// column-major interior order.
pub open spec fn gs_sweep_upto(rect: Rect, s: Seq<Option<Vector2>>, n: int) -> Seq<Option<Vector2>>
    decreases n,
{
    if n <= 0 {
        s
    } else {
        let rows = rect.height - 2;
        let x = 1 + (n - 1) / (rows as int);
        let y = 1 + (n - 1) % (rows as int);
        gs_cell(rect, gs_sweep_upto(rect, s, n - 1), x, y)
    }
}

/// `k` full Gauss-Seidel sweeps over the interior.
pub open spec fn gs_iterations(rect: Rect, s: Seq<Option<Vector2>>, k: int) -> Seq<Option<Vector2>>
    decreases k,
{
    if k <= 0 {
        s
    } else {
        gs_sweep_upto(rect, gs_iterations(rect, s, k - 1), (rect.width - 2) * (rect.height - 2))
    }
}

/// The x component of the pressure gradient at an interior point:
/// `(right - left) * width / 2` over the pressure (x) slots.
pub open spec fn gradient_x(rect: Rect, pr: Seq<Option<Vector2>>, x: int, y: int) -> Scalar {
    scalar_div(
        scalar_mul(
            scalar_sub(cell_value(rect, pr, x + 1, y).x, cell_value(rect, pr, x - 1, y).x),
            scalar_of_int(rect.width as int),
        ),
        scalar_of_int(2),
    )
}

/// The y component of the pressure gradient at an interior point:
/// `(above - below) * height / 2` over the pressure (x) slots.
pub open spec fn gradient_y(rect: Rect, pr: Seq<Option<Vector2>>, x: int, y: int) -> Scalar {
    scalar_div(
        scalar_mul(
            scalar_sub(cell_value(rect, pr, x, y + 1).x, cell_value(rect, pr, x, y - 1).x),
            scalar_of_int(rect.height as int),
        ),
        scalar_of_int(2),
    )
}

/// The state of one velocity cell while the gradient-subtraction pass is in
/// progress.
pub open spec fn grad_partial(
    rect: Rect,
    vel: Seq<Option<Vector2>>,
    pr: Seq<Option<Vector2>>,
    ix: int,
    iy: int,
    x: int,
    y: int,
) -> Option<Vector2> {
    if rect.interior_spec(ix, iy) && (ix < x || (ix == x && iy < y)) {
        let v = cell_value(rect, vel, ix, iy);
        Some(
            Vector2 {
                x: scalar_sub(v.x, gradient_x(rect, pr, ix, iy)),
                y: scalar_sub(v.y, gradient_y(rect, pr, ix, iy)),
            },
        )
    } else {
        vel[cell_index(rect, ix, iy)]
    }
}

/// What the gradient-subtraction pass does: every interior velocity cell has
/// the pressure gradient subtracted from it.
pub open spec fn grad_sub_spec(
    rect: Rect,
    vel: Seq<Option<Vector2>>,
    pr: Seq<Option<Vector2>>,
) -> Seq<Option<Vector2>> {
    Seq::new(
        vel.len(),
        |i: int|
            grad_partial(
                rect,
                vel,
                pr,
                i % (rect.width as int),
                i / (rect.width as int),
                rect.width as int,
                1,
            ),
    )
}

/// What `Fluid::project` does: the auxiliary field takes the divergence of
/// the velocity (boundary fixed up), the pressure is relaxed for `ITER`
/// in-place sweeps (boundary fixed up), and the pressure gradient is
/// subtracted from the velocity (boundary fixed up). Yields the new
/// velocity and auxiliary fields.
pub open spec fn project_spec(
    rect: Rect,
    vel: Seq<Option<Vector2>>,
    aux: Seq<Option<Vector2>>,
) -> (Seq<Option<Vector2>>, Seq<Option<Vector2>>) {
    let a1 = set_bnd_spec(rect, div_init_spec(rect, vel, aux));
    let a2 = set_bnd_spec(rect, gs_iterations(rect, a1, ITER as int));
    let v2 = set_bnd_spec(rect, grad_sub_spec(rect, vel, a2));
    (v2, a2)
}

/// The x coordinate a cell's content is traced back to: the cell's own
/// position minus the velocity's x component times `dt * width`, clamped to
/// `[1/2, width - 3/2]` so the sample stays strictly inside the four cells
/// interpolation reads, never an edge cell directly.
pub open spec fn backtrace_x(rect: Rect, v: Vector2, dt: Scalar, x: int) -> Scalar {
    let ts = scalar_mul(dt, scalar_of_int(rect.width as int));
    let px = scalar_sub(scalar_of_int(x), scalar_mul(v.x, ts));
    let lo = Scalar { bits: (SCALE_ONE / 2) as i64 };
    px.clam_spec(lo, scalar_sub(scalar_of_int(rect.width - 1), lo))
}

/// The y coordinate a cell's content is traced back to; see `backtrace_x`.
pub open spec fn backtrace_y(rect: Rect, v: Vector2, dt: Scalar, y: int) -> Scalar {
    let ts = scalar_mul(dt, scalar_of_int(rect.width as int));
    let py = scalar_sub(scalar_of_int(y), scalar_mul(v.y, ts));
    let lo = Scalar { bits: (SCALE_ONE / 2) as i64 };
    py.clam_spec(lo, scalar_sub(scalar_of_int(rect.height - 1), lo))
}

/// The value an interior cell takes under advection: the source field
/// sampled where the velocity field traces the cell back to.
pub open spec fn advect_value<T: FieldValue>(
    rect: Rect,
    src: Seq<Option<T>>,
    vel: Seq<Option<Vector2>>,
    dt: Scalar,
    x: int,
    y: int,
) -> T {
    let v = cell_value(rect, vel, x, y);
    interpolate_spec(rect, src, backtrace_x(rect, v, dt, x), backtrace_y(rect, v, dt, y))
}

/// The state of one cell while the advection pass is in progress.
pub open spec fn advect_partial<T: FieldValue>(
    rect: Rect,
    dst: Seq<Option<T>>,
    src: Seq<Option<T>>,
    vel: Seq<Option<Vector2>>,
    dt: Scalar,
    ix: int,
    iy: int,
    x: int,
    y: int,
) -> Option<T> {
    if rect.interior_spec(ix, iy) && (ix < x || (ix == x && iy < y)) {
        Some(advect_value(rect, src, vel, dt, ix, iy))
    } else {
        dst[cell_index(rect, ix, iy)]
    }
}

/// What `Fluid::advect` does: every interior cell of the destination takes
/// the source field sampled at its backtraced position; boundary cells are
/// untouched.
pub open spec fn advect_spec<T: FieldValue>(
    rect: Rect,
    dst: Seq<Option<T>>,
    src: Seq<Option<T>>,
    vel: Seq<Option<Vector2>>,
    dt: Scalar,
) -> Seq<Option<T>> {
    Seq::new(
        dst.len(),
        |i: int|
            advect_partial(
                rect,
                dst,
                src,
                vel,
                dt,
                i % (rect.width as int),
                i / (rect.width as int),
                rect.width as int,
                1,
            ),
    )
}

/// Whether every cell of a field state holds a value.
pub open spec fn all_present<T>(s: Seq<Option<T>>) -> bool {
    forall|i: int| 0 <= i < s.len() ==> (#[trigger] s[i]) is Some
}

/// The `k`-th interior cell in column-major order is an interior coordinate.
proof fn lemma_interior_of_order_index(rect: Rect, k: int)
    requires
        rect.wf(),
        0 <= k < (rect.width - 2) * (rect.height - 2),
    ensures
        rect.interior_spec(1 + k / ((rect.height - 2) as int), 1 + k % ((rect.height - 2) as int)),
{
    let rows = (rect.height - 2) as int;
    vstd::arithmetic::div_mod::lemma_mod_bound(k, rows);
    vstd::arithmetic::div_mod::lemma_div_is_ordered(0, k, rows);
    vstd::arithmetic::div_mod::lemma_fundamental_div_mod(k, rows);
    assert(k / rows < rect.width - 2) by {
        if k / rows >= rect.width - 2 {
            assert(rows * (k / rows) >= rows * (rect.width - 2)) by (nonlinear_arith)
                requires
                    rows > 0,
                    k / rows >= rect.width - 2,
            ;
            assert(rows * (rect.width - 2) == (rect.width - 2) * rows) by (nonlinear_arith);
        }
    }
}

/// The boundary fix-up leaves no cell absent that held a value, and fills
/// none that did not: it preserves fullness.
proof fn lemma_set_bnd_full<T: FieldValue + ValueAtEdge>(rect: Rect, s: Seq<Option<T>>)
    requires
        rect.wf(),
        all_present(s),
        s.len() == rect.width * rect.height,
    ensures
        all_present(set_bnd_spec(rect, s)),
        set_bnd_spec(rect, s).len() == s.len(),
{
    let e = fix_edges_spec(rect, s);
    assert forall|i: int| 0 <= i < e.len() implies (#[trigger] e[i]) is Some by {
        lemma_index_to_coords(rect, i);
    }
    let c = fix_corners_spec(rect, e);
    assert forall|i: int| 0 <= i < c.len() implies (#[trigger] c[i]) is Some by {
        lemma_index_to_coords(rect, i);
    }
}

/// A relaxation solve preserves fullness.
proof fn lemma_lin_solve_full<T: FieldValue + ValueAtEdge>(
    rect: Rect,
    cur: Seq<Option<T>>,
    prev: Seq<Option<T>>,
    a: Scalar,
    c: Scalar,
)
    requires
        rect.wf(),
        all_present(cur),
        cur.len() == rect.width * rect.height,
    ensures
        all_present(lin_solve_spec(rect, cur, prev, a, c)),
        lin_solve_spec(rect, cur, prev, a, c).len() == cur.len(),
{
    let t = lin_sweep(rect, cur, prev, a, c);
    assert forall|i: int| 0 <= i < t.len() implies (#[trigger] t[i]) is Some by {
        lemma_index_to_coords(rect, i);
    }
    lemma_set_bnd_full(rect, t);
}

/// Gauss-Seidel sweeps preserve length and fullness.
proof fn lemma_gs_sweep_upto_full(rect: Rect, s: Seq<Option<Vector2>>, n: int)
    requires
        rect.wf(),
        all_present(s),
        s.len() == rect.width * rect.height,
        n <= (rect.width - 2) * (rect.height - 2),
    ensures
        all_present(gs_sweep_upto(rect, s, n)),
        gs_sweep_upto(rect, s, n).len() == s.len(),
    decreases n,
{
    if n > 0 {
        lemma_gs_sweep_upto_full(rect, s, n - 1);
        let rows = (rect.height - 2) as int;
        let x = 1 + (n - 1) / rows;
        let y = 1 + (n - 1) % rows;
        lemma_interior_of_order_index(rect, n - 1);
        lemma_cell_index_bounds(rect, x, y);
    }
}

/// Iterated Gauss-Seidel sweeps preserve length and fullness.
proof fn lemma_gs_iterations_full(rect: Rect, s: Seq<Option<Vector2>>, k: int)
    requires
        rect.wf(),
        all_present(s),
        s.len() == rect.width * rect.height,
    ensures
        all_present(gs_iterations(rect, s, k)),
        gs_iterations(rect, s, k).len() == s.len(),
    decreases k,
{
    if k > 0 {
        lemma_gs_iterations_full(rect, s, k - 1);
        assert((rect.width - 2) * (rect.height - 2) <= (rect.width - 2) * (rect.height - 2));
        lemma_gs_sweep_upto_full(
            rect,
            gs_iterations(rect, s, k - 1),
            (rect.width - 2) * (rect.height - 2),
        );
    }
}

/// A pressure projection preserves fullness of both fields.
proof fn lemma_project_full(rect: Rect, vel: Seq<Option<Vector2>>, aux: Seq<Option<Vector2>>)
    requires
        rect.wf(),
        all_present(vel),
        all_present(aux),
        vel.len() == rect.width * rect.height,
        aux.len() == rect.width * rect.height,
    ensures
        all_present(project_spec(rect, vel, aux).0),
        all_present(project_spec(rect, vel, aux).1),
        project_spec(rect, vel, aux).0.len() == vel.len(),
        project_spec(rect, vel, aux).1.len() == aux.len(),
{
    let d = div_init_spec(rect, vel, aux);
    assert forall|i: int| 0 <= i < d.len() implies (#[trigger] d[i]) is Some by {
        lemma_index_to_coords(rect, i);
    }
    lemma_set_bnd_full(rect, d);
    let a1 = set_bnd_spec(rect, d);
    lemma_gs_iterations_full(rect, a1, ITER as int);
    lemma_set_bnd_full(rect, gs_iterations(rect, a1, ITER as int));
    let a2 = set_bnd_spec(rect, gs_iterations(rect, a1, ITER as int));
    let g = grad_sub_spec(rect, vel, a2);
    assert forall|i: int| 0 <= i < g.len() implies (#[trigger] g[i]) is Some by {
        lemma_index_to_coords(rect, i);
    }
    lemma_set_bnd_full(rect, g);
}

/// An advection pass preserves fullness.
proof fn lemma_advect_full<T: FieldValue>(
    rect: Rect,
    dst: Seq<Option<T>>,
    src: Seq<Option<T>>,
    vel: Seq<Option<Vector2>>,
    dt: Scalar,
)
    requires
        rect.wf(),
        all_present(dst),
        dst.len() == rect.width * rect.height,
    ensures
        all_present(advect_spec(rect, dst, src, vel, dt)),
        advect_spec(rect, dst, src, vel, dt).len() == dst.len(),
{
    let r = advect_spec(rect, dst, src, vel, dt);
    assert forall|i: int| 0 <= i < r.len() implies (#[trigger] r[i]) is Some by {
        lemma_index_to_coords(rect, i);
    }
}

/// What `Fluid::tick` does to the four fields, given the starting velocity
/// and density states: diffuse, project, self-advect, and re-project the
/// velocity, then diffuse and advect the dye along the projected velocity.
/// Yields (velocity, velocity scratch, density, density snapshot).
pub open spec fn tick_spec(
    rect: Rect,
    v0: Seq<Option<Vector2>>,
    d0: Seq<Option<Density>>,
    diff: Scalar,
    dt: Scalar,
) -> (Seq<Option<Vector2>>, Seq<Option<Vector2>>, Seq<Option<Density>>, Seq<Option<Density>>) {
    let v1 = diffuse_spec(rect, v0, v0, diff, dt);
    let p1 = project_spec(rect, v1, v0);
    let v3 = advect_spec(rect, p1.0, p1.0, p1.0, dt);
    let p2 = project_spec(rect, v3, p1.0);
    let d1 = diffuse_spec(rect, d0, d0, diff, dt);
    let d2 = advect_spec(rect, d1, d1, p2.0, dt);
    (p2.0, p2.1, d2, d1)
}

/// The simulation state: the dye and velocity fields, their previous-pass
/// companions, and the scalar parameters of the solver.
pub struct Fluid {
    /// Scalar that affects how quickly the fluid will diffuse and affect the
    /// density of neighboring points.
    pub diff: Diffusion,
    /// Reserved viscous damping parameter; algorithmically inert.
    pub viscosity: Viscosity,
    /// Scalar that regulates the amount of change performed in a tick.
    pub dt: TimeDelta,
    /// Side length of the square domain all four grids share.
    pub size: usize,
    /// Current density of fluids.
    pub density: Grid<Density>,
    /// Density of fluids from the previous pass.
    pub density_prev: Grid<Density>,
    /// Current velocity of fluids.
    pub velocity: Grid<Vector2>,
    /// Velocity of fluids from the previous pass.
    pub velocity_prev: Grid<Vector2>,
}

impl Fluid {
    /// All four fields cover the same well-formed square domain and every
    /// cell holds a value.
    pub open spec fn wf(self) -> bool {
        &&& self.density.wf()
        &&& self.density_prev.wf()
        &&& self.velocity.wf()
        &&& self.velocity_prev.wf()
        &&& self.density_prev.dimensions == self.density.dimensions
        &&& self.velocity.dimensions == self.density.dimensions
        &&& self.velocity_prev.dimensions == self.density.dimensions
        &&& self.density.dimensions.width == self.size
        &&& self.density.dimensions.height == self.size
        &&& all_present(self.density@)
        &&& all_present(self.density_prev@)
        &&& all_present(self.velocity@)
        &&& all_present(self.velocity_prev@)
    }

    /// The domain all four fields share.
    pub open spec fn domain(self) -> Rect {
        self.density.dimensions
    }

    /// Build a simulation over a `size` x `size` domain with all fields
    /// zeroed. Fails exactly when the timestep is not positive.
    pub fn with_size(
        size: usize,
        dt: TimeDelta,
        diffusion: Diffusion,
        viscosity: Viscosity,
    ) -> (r: Option<Fluid>)
        requires
            3 <= size <= 0x7fff_ffff,
            size * size <= usize::MAX,
        ensures
            r is Some <==> dt.0.bits > 0,
            r is Some ==> ({
                let f = r->Some_0;
                &&& f.wf()
                &&& f.size == size
                &&& f.dt == dt
                &&& f.diff == diffusion
                &&& f.viscosity == viscosity
                &&& f.domain() == Rect {
                    height: size,
                    width: size,
                    origin: Coord2 { x: 0, y: 0 },
                }
                &&& forall|i: int|
                    0 <= i < f.density@.len() ==> (#[trigger] f.density@[i]) == Some(
                        Density(Scalar { bits: 0 }),
                    )
                &&& forall|i: int|
                    0 <= i < f.velocity@.len() ==> (#[trigger] f.velocity@[i]) == Some(
                        Vector2 { x: Scalar { bits: 0 }, y: Scalar { bits: 0 } },
                    )
            }),
    {
        if dt.0.bits <= 0 {
            return None;
        }
        let dims = Rect::new(Coord2 { x: 0, y: 0 }, size, size);
        let density = Grid::<Density>::from_dimensions(dims).fill_with_default();
        let density_prev = Grid::<Density>::from_dimensions(dims).fill_with_default();
        let velocity = Grid::<Vector2>::from_dimensions(dims).fill_with_default();
        let velocity_prev = Grid::<Vector2>::from_dimensions(dims).fill_with_default();
        Some(
            Fluid {
                diff: diffusion,
                viscosity,
                dt,
                size,
                density,
                density_prev,
                velocity,
                velocity_prev,
            },
        )
    }

    /// Build a simulation over the default `N` x `N` domain with all fields
    /// zeroed. Fails exactly when the timestep is not positive.
    pub fn new(dt: TimeDelta, diffusion: Diffusion, viscosity: Viscosity) -> (r: Option<Fluid>)
        ensures
            r is Some <==> dt.0.bits > 0,
            r is Some ==> r->Some_0.wf() && r->Some_0.size == N && r->Some_0.dt == dt
                && r->Some_0.diff == diffusion && r->Some_0.viscosity == viscosity,
    {
        Self::with_size(N, dt, diffusion, viscosity)
    }

    /// Add dye at a point; reports nothing and changes nothing when the
    /// point is outside the domain.
    pub fn add_dye(&mut self, pt: Coord2, amount: Scalar) -> (r: Option<()>)
        requires
            old(self).wf(),
        ensures
            final(self).wf(),
            final(self).diff == old(self).diff,
            final(self).viscosity == old(self).viscosity,
            final(self).dt == old(self).dt,
            final(self).size == old(self).size,
            final(self).velocity == old(self).velocity,
            final(self).velocity_prev == old(self).velocity_prev,
            final(self).density_prev == old(self).density_prev,
            final(self).density.dimensions == old(self).density.dimensions,
            old(self).domain().contains_spec(pt.x as int, pt.y as int) ==> {
                &&& r == Some(())
                &&& final(self).density@ == old(self).density@.update(
                    cell_index(old(self).domain(), pt.x as int, pt.y as int),
                    Some(
                        Density(
                            scalar_add(
                                cell_at(
                                    old(self).domain(),
                                    old(self).density@,
                                    pt.x as int,
                                    pt.y as int,
                                )->Some_0.0,
                                amount,
                            ),
                        ),
                    ),
                )
            },
            !old(self).domain().contains_spec(pt.x as int, pt.y as int) ==> r == None::<()>
                && final(self).density == old(self).density,
    {
        proof {
            if self.domain().contains_spec(pt.x as int, pt.y as int) {
                lemma_cell_index_bounds(self.domain(), pt.x as int, pt.y as int);
            }
        }
        let cur = match self.density.get(pt) {
            Some(d) => Some(*d),
            None => None,
        };
        match cur {
            Some(density) => {
                self.density.set(pt, Density(density.0.add(amount)));
                Some(())
            },
            None => None,
        }
    }

    /// Add velocity at a point; reports nothing and changes nothing when
    /// the point is outside the domain.
    pub fn add_velocity(&mut self, pt: Coord2, amount: Vector2) -> (r: Option<()>)
        requires
            old(self).wf(),
        ensures
            final(self).wf(),
            final(self).diff == old(self).diff,
            final(self).viscosity == old(self).viscosity,
            final(self).dt == old(self).dt,
            final(self).size == old(self).size,
            final(self).density == old(self).density,
            final(self).velocity_prev == old(self).velocity_prev,
            final(self).density_prev == old(self).density_prev,
            final(self).velocity.dimensions == old(self).velocity.dimensions,
            old(self).domain().contains_spec(pt.x as int, pt.y as int) ==> {
                &&& r == Some(())
                &&& final(self).velocity@ == old(self).velocity@.update(
                    cell_index(old(self).domain(), pt.x as int, pt.y as int),
                    Some(
                        Vector2::add_spec(
                            cell_at(
                                old(self).domain(),
                                old(self).velocity@,
                                pt.x as int,
                                pt.y as int,
                            )->Some_0,
                            amount,
                        ),
                    ),
                )
            },
            !old(self).domain().contains_spec(pt.x as int, pt.y as int) ==> r == None::<()>
                && final(self).velocity == old(self).velocity,
    {
        proof {
            if self.domain().contains_spec(pt.x as int, pt.y as int) {
                lemma_cell_index_bounds(self.domain(), pt.x as int, pt.y as int);
            }
        }
        let cur = match self.velocity.get(pt) {
            Some(v) => Some(*v),
            None => None,
        };
        match cur {
            Some(velocity) => {
                self.velocity.set(pt, velocity.add(amount));
                Some(())
            },
            None => None,
        }
    }

    /// Sum of the four cardinal neighbors of a cell, absent cells counting
    /// as zero.
    fn neighbor_sum_at<T: FieldValue>(grid: &Grid<T>, c: Coord2) -> (r: T)
        requires
            grid.wf(),
        ensures
            r == neighbor_sum(grid.dimensions, grid@, c.x as int, c.y as int),
    {
        let mut acc = T::zero();
        let left = if c.x > 0 {
            grid.get_or_zero(Coord2 { x: c.x - 1, y: c.y })
        } else {
            T::zero()
        };
        acc = T::add(acc, left);
        let right = if c.x < usize::MAX {
            grid.get_or_zero(Coord2 { x: c.x + 1, y: c.y })
        } else {
            T::zero()
        };
        acc = T::add(acc, right);
        let below = if c.y > 0 {
            grid.get_or_zero(Coord2 { x: c.x, y: c.y - 1 })
        } else {
            T::zero()
        };
        acc = T::add(acc, below);
        let above = if c.y < usize::MAX {
            grid.get_or_zero(Coord2 { x: c.x, y: c.y + 1 })
        } else {
            T::zero()
        };
        acc = T::add(acc, above);
        acc
    }

    /// Fix the edges of the grid: every set pure-edge cell takes the
    /// mirrored value of its single inward neighbor. Inward neighbors are
    /// interior cells, which this pass never writes, so each new value is
    /// read from the state the pass started with.
    pub fn fix_edges<T: FieldValue + ValueAtEdge + Copy>(grid: &mut Grid<T>)
        requires
            old(grid).wf(),
        ensures
            final(grid).wf(),
            final(grid).dimensions == old(grid).dimensions,
            final(grid)@ == fix_edges_spec(old(grid).dimensions, old(grid)@),
    {
        let rect = grid.dimensions;
        let ghost s0 = grid@;
        let blist = rect.edge_coord_iter();
        let n = blist.len();
        let mut k: usize = 0;
        while k < n
            invariant
                grid.wf(),
                grid.dimensions == rect,
                rect.wf(),
                s0.len() == grid@.len(),
                n == blist@.len(),
                n == boundary_len(rect),
                k <= n,
                forall|i: int| 0 <= i < n ==> (#[trigger] blist@[i]).1 == crate::coords::boundary_coord(
                    rect,
                    i,
                ),
                forall|i: int|
                    0 <= i < n ==> (#[trigger] blist@[i]).0 == classify(
                        rect.width as int,
                        rect.height as int,
                        blist@[i].1.x as int,
                        blist@[i].1.y as int,
                    ),
                forall|ix: int, iy: int|
                    rect.contains_spec(ix, iy) ==> #[trigger] grid@[cell_index(rect, ix, iy)]
                        == edge_partial(rect, s0, ix, iy, k as int),
            decreases n - k,
        {
            let (info, c) = blist[k];
            proof {
                crate::coords::lemma_boundary_coord_on_boundary(rect, k as int);
                lemma_cell_index_bounds(rect, c.x as int, c.y as int);
            }
            match info {
                EdgeInfo::Edge(e) => {
                    let nc = match e {
                        Edge::Top => Coord2 { x: c.x, y: c.y - 1 },
                        Edge::Bottom => Coord2 { x: c.x, y: c.y + 1 },
                        Edge::Left => Coord2 { x: c.x + 1, y: c.y },
                        Edge::Right => Coord2 { x: c.x - 1, y: c.y },
                    };
                    proof {
                        assert(rect.contains_spec(nc.x as int, nc.y as int));
                        assert(classify(
                            rect.width as int,
                            rect.height as int,
                            nc.x as int,
                            nc.y as int,
                        ) is Neither);
                    }
                    let neighbor = grid.get_or_zero(nc);
                    proof {
                        assert(neighbor == cell_value(
                            rect,
                            s0,
                            inward_x(e, c.x as int),
                            inward_y(e, c.y as int),
                        ));
                    }
                    let new_val = T::value_at_edge(e, neighbor);
                    let present = match grid.get(c) {
                        Some(_) => true,
                        None => false,
                    };
                    if present {
                        grid.set(c, new_val);
                    }
                    proof {
                        assert forall|ix: int, iy: int|
                            rect.contains_spec(ix, iy) implies #[trigger] grid@[cell_index(
                            rect,
                            ix,
                            iy,
                        )] == edge_partial(rect, s0, ix, iy, k + 1) by {
                            lemma_cell_index_bounds(rect, ix, iy);
                            if cell_index(rect, ix, iy) == cell_index(rect, c.x as int, c.y as int) {
                                lemma_cell_index_injective(
                                    rect,
                                    ix,
                                    iy,
                                    c.x as int,
                                    c.y as int,
                                );
                            }
                            if rect.boundary_spec(ix, iy) {
                                crate::coords::lemma_boundary_coords_complete(rect, ix, iy);
                            }
                        }
                    }
                },
                _ => {
                    proof {
                        assert forall|ix: int, iy: int|
                            rect.contains_spec(ix, iy) implies #[trigger] grid@[cell_index(
                            rect,
                            ix,
                            iy,
                        )] == edge_partial(rect, s0, ix, iy, k + 1) by {
                            lemma_cell_index_bounds(rect, ix, iy);
                            if rect.boundary_spec(ix, iy) {
                                crate::coords::lemma_boundary_coords_complete(rect, ix, iy);
                            }
                        }
                    }
                },
            }
            k = k + 1;
        }
        proof {
            assert forall|i: int| 0 <= i < grid@.len() implies grid@[i] == fix_edges_spec(
                rect,
                s0,
            )[i] by {
                lemma_index_to_coords(rect, i);
            }
            assert(grid@ =~= fix_edges_spec(rect, s0));
        }
    }

    /// The new value for one corner, computed from the current state: the
    /// average of its two present neighbors, or nothing when the corner cell
    /// itself is absent.
    fn corner_new_value<T: FieldValue + Copy>(grid: &Grid<T>, corner: Corner) -> (r: Option<T>)
        requires
            grid.wf(),
        ensures
            ({
                let cc = corner_coords_spec(grid.dimensions, corner);
                r == (if grid.at(cc.x as int, cc.y as int) is Some {
                    Some(
                        T::div_spec(
                            neighbor_sum(grid.dimensions, grid@, cc.x as int, cc.y as int),
                            scalar_of_int(2),
                        ),
                    )
                } else {
                    None::<T>
                })
            }),
    {
        let cc = crate::coords::Edged::coords_of_corner(&grid.dimensions, corner);
        let present = match grid.get(cc) {
            Some(_) => true,
            None => false,
        };
        if present {
            let sum = Self::neighbor_sum_at(grid, cc);
            Some(T::div_by(sum, Scalar::from_int(2)))
        } else {
            None
        }
    }

    /// Fix the corners of the grid: every set corner cell becomes the
    /// average of its two adjacent edge cells. All four new values are
    /// computed from the state the pass started with, then committed; the
    /// cells a corner reads are edge cells, which no corner write touches.
    pub fn fix_corners<T: FieldValue + Copy>(grid: &mut Grid<T>)
        requires
            old(grid).wf(),
        ensures
            final(grid).wf(),
            final(grid).dimensions == old(grid).dimensions,
            final(grid)@ == fix_corners_spec(old(grid).dimensions, old(grid)@),
    {
        let rect = grid.dimensions;
        let ghost s0 = grid@;
        let v_tl = Self::corner_new_value(grid, Corner(Edge::Top, Edge::Left));
        let v_tr = Self::corner_new_value(grid, Corner(Edge::Top, Edge::Right));
        let v_bl = Self::corner_new_value(grid, Corner(Edge::Bottom, Edge::Left));
        let v_br = Self::corner_new_value(grid, Corner(Edge::Bottom, Edge::Right));
        let ghost tl = corner_coords_spec(rect, Corner(Edge::Top, Edge::Left));
        let ghost tr = corner_coords_spec(rect, Corner(Edge::Top, Edge::Right));
        let ghost bl = corner_coords_spec(rect, Corner(Edge::Bottom, Edge::Left));
        let ghost br = corner_coords_spec(rect, Corner(Edge::Bottom, Edge::Right));
        match v_tl {
            Some(v) => {
                grid.set_corner(Corner(Edge::Top, Edge::Left), v);
            },
            None => {},
        }
        match v_tr {
            Some(v) => {
                grid.set_corner(Corner(Edge::Top, Edge::Right), v);
            },
            None => {},
        }
        match v_bl {
            Some(v) => {
                grid.set_corner(Corner(Edge::Bottom, Edge::Left), v);
            },
            None => {},
        }
        match v_br {
            Some(v) => {
                grid.set_corner(Corner(Edge::Bottom, Edge::Right), v);
            },
            None => {},
        }
        proof {
            assert forall|i: int| 0 <= i < grid@.len() implies grid@[i] == fix_corners_spec(
                rect,
                s0,
            )[i] by {
                lemma_index_to_coords(rect, i);
                let x = i % (rect.width as int);
                let y = i / (rect.width as int);
                lemma_cell_index_bounds(rect, tl.x as int, tl.y as int);
                lemma_cell_index_bounds(rect, tr.x as int, tr.y as int);
                lemma_cell_index_bounds(rect, bl.x as int, bl.y as int);
                lemma_cell_index_bounds(rect, br.x as int, br.y as int);
                if i == cell_index(rect, tl.x as int, tl.y as int) {
                    lemma_cell_index_injective(rect, x, y, tl.x as int, tl.y as int);
                }
                if i == cell_index(rect, tr.x as int, tr.y as int) {
                    lemma_cell_index_injective(rect, x, y, tr.x as int, tr.y as int);
                }
                if i == cell_index(rect, bl.x as int, bl.y as int) {
                    lemma_cell_index_injective(rect, x, y, bl.x as int, bl.y as int);
                }
                if i == cell_index(rect, br.x as int, br.y as int) {
                    lemma_cell_index_injective(rect, x, y, br.x as int, br.y as int);
                }
            }
            assert(grid@ =~= fix_corners_spec(rect, s0));
        }
    }

    /// One relaxation sweep over the interior, reading only from
    /// `grid_prev`.
    fn lin_sweep_pass<T: FieldValue + Copy>(
        grid: &mut Grid<T>,
        grid_prev: &Grid<T>,
        a: Scalar,
        c: Scalar,
    )
        requires
            old(grid).wf(),
            grid_prev.wf(),
            old(grid).dimensions == grid_prev.dimensions,
        ensures
            final(grid).wf(),
            final(grid).dimensions == old(grid).dimensions,
            final(grid)@ == lin_sweep(old(grid).dimensions, old(grid)@, grid_prev@, a, c),
    {
        let rect = grid.dimensions;
        let ghost e0 = grid@;
        let w = rect.width;
        let h = rect.height;
        let mut x: usize = 1;
        while x < w - 1
            invariant
                grid.wf(),
                grid.dimensions == rect,
                rect.wf(),
                grid_prev.wf(),
                grid_prev.dimensions == rect,
                grid@.len() == e0.len(),
                w == rect.width,
                h == rect.height,
                1 <= x <= w - 1,
                forall|ix: int, iy: int|
                    rect.contains_spec(ix, iy) ==> #[trigger] grid@[cell_index(rect, ix, iy)]
                        == sweep_partial(rect, e0, grid_prev@, a, c, ix, iy, x as int, 1),
            decreases w - x,
        {
            let mut y: usize = 1;
            while y < h - 1
                invariant
                    grid.wf(),
                    grid.dimensions == rect,
                    rect.wf(),
                    grid_prev.wf(),
                    grid_prev.dimensions == rect,
                    grid@.len() == e0.len(),
                    w == rect.width,
                    h == rect.height,
                    1 <= x <= w - 2,
                    1 <= y <= h - 1,
                    forall|ix: int, iy: int|
                        rect.contains_spec(ix, iy) ==> #[trigger] grid@[cell_index(rect, ix, iy)]
                            == sweep_partial(
                            rect,
                            e0,
                            grid_prev@,
                            a,
                            c,
                            ix,
                            iy,
                            x as int,
                            y as int,
                        ),
                decreases h - y,
            {
                let cc = Coord2 { x, y };
                proof {
                    lemma_cell_index_bounds(rect, x as int, y as int);
                }
                let present = match grid.get(cc) {
                    Some(_) => true,
                    None => false,
                };
                if present {
                    let prev_val = grid_prev.get_or_zero(cc);
                    let sum = Self::neighbor_sum_at(grid_prev, cc);
                    let influence = T::scale(sum, a);
                    let next = T::div_by(T::add(prev_val, influence), c);
                    grid.set(cc, next);
                }
                proof {
                    assert forall|ix: int, iy: int|
                        rect.contains_spec(ix, iy) implies #[trigger] grid@[cell_index(
                        rect,
                        ix,
                        iy,
                    )] == sweep_partial(
                        rect,
                        e0,
                        grid_prev@,
                        a,
                        c,
                        ix,
                        iy,
                        x as int,
                        y + 1,
                    ) by {
                        lemma_cell_index_bounds(rect, ix, iy);
                        if cell_index(rect, ix, iy) == cell_index(rect, x as int, y as int) {
                            lemma_cell_index_injective(rect, ix, iy, x as int, y as int);
                        }
                    }
                }
                y = y + 1;
            }
            x = x + 1;
        }
        proof {
            assert forall|i: int| 0 <= i < grid@.len() implies grid@[i] == lin_sweep(
                rect,
                e0,
                grid_prev@,
                a,
                c,
            )[i] by {
                lemma_index_to_coords(rect, i);
            }
            assert(grid@ =~= lin_sweep(rect, e0, grid_prev@, a, c));
        }
    }

    /// Solve the relaxation system approximately: `ITER` full sweeps over
    /// the interior (each reading only the previous field, so each sweep
    /// recomputes the same values), then one boundary fix-up.
    pub fn lin_solve<T: FieldValue + ValueAtEdge + Copy>(
        grid: &mut Grid<T>,
        grid_prev: &Grid<T>,
        a: Scalar,
        c: Scalar,
    )
        requires
            old(grid).wf(),
            grid_prev.wf(),
            old(grid).dimensions == grid_prev.dimensions,
        ensures
            final(grid).wf(),
            final(grid).dimensions == old(grid).dimensions,
            final(grid)@ == lin_solve_spec(old(grid).dimensions, old(grid)@, grid_prev@, a, c),
    {
        let rect = grid.dimensions;
        let ghost s0 = grid@;
        let ghost target = lin_sweep(rect, s0, grid_prev@, a, c);
        let mut it: usize = 0;
        while it < ITER
            invariant
                grid.wf(),
                grid.dimensions == rect,
                grid_prev.wf(),
                grid_prev.dimensions == rect,
                grid@.len() == s0.len(),
                it <= ITER,
                target == lin_sweep(rect, s0, grid_prev@, a, c),
                it == 0 ==> grid@ == s0,
                it > 0 ==> grid@ == target,
            decreases ITER - it,
        {
            proof {
                lemma_lin_sweep_stable(rect, s0, grid_prev@, a, c);
            }
            Self::lin_sweep_pass(grid, grid_prev, a, c);
            it = it + 1;
        }
        Self::set_bnd(grid);
    }

    /// Relax the field toward a smoothed version of itself, using the
    /// previous field as the right-hand side.
    pub fn diffuse<T: FieldValue + ValueAtEdge + Copy>(
        diff: Diffusion,
        dt: TimeDelta,
        grid: &mut Grid<T>,
        grid_prev: &Grid<T>,
    )
        requires
            old(grid).wf(),
            grid_prev.wf(),
            old(grid).dimensions == grid_prev.dimensions,
        ensures
            final(grid).wf(),
            final(grid).dimensions == old(grid).dimensions,
            final(grid)@ == diffuse_spec(
                old(grid).dimensions,
                old(grid)@,
                grid_prev@,
                diff.0,
                dt.0,
            ),
    {
        let w2 = Scalar::from_int((grid.dimensions.width - 2) as i64);
        let h2 = Scalar::from_int((grid.dimensions.height - 2) as i64);
        let a = dt.0.mul(diff.0).mul(w2).mul(h2);
        let c = Scalar::one().add(Scalar::from_int(4).mul(a));
        Self::lin_solve(grid, grid_prev, a, c);
    }

    /// Remove divergence from the velocity field via a discrete pressure
    /// solve, using `other` as the divergence/pressure scratch field.
    pub fn project(vel: &mut Grid<Vector2>, other: &mut Grid<Vector2>)
        requires
            old(vel).wf(),
            old(other).wf(),
            old(vel).dimensions == old(other).dimensions,
        ensures
            final(vel).wf(),
            final(other).wf(),
            final(vel).dimensions == old(vel).dimensions,
            final(other).dimensions == old(other).dimensions,
            final(vel)@ == project_spec(old(vel).dimensions, old(vel)@, old(other)@).0,
            final(other)@ == project_spec(old(vel).dimensions, old(vel)@, old(other)@).1,
    {
        let rect = vel.dimensions;
        let ghost v0 = vel@;
        let ghost a0 = other@;
        let w = rect.width;
        let h = rect.height;

        let two_w = Scalar::from_int(2 * (rect.width as i64));

        let mut x: usize = 1;
        while x < w - 1
            invariant
                vel.wf(),
                other.wf(),
                vel.dimensions == rect,
                other.dimensions == rect,
                rect.wf(),
                vel@ == v0,
                other@.len() == a0.len(),
                w == rect.width,
                h == rect.height,
                two_w == scalar_of_int(2 * rect.width),
                1 <= x <= w - 1,
                forall|ix: int, iy: int|
                    rect.contains_spec(ix, iy) ==> #[trigger] other@[cell_index(rect, ix, iy)]
                        == div_partial(rect, v0, a0, ix, iy, x as int, 1),
            decreases w - x,
        {
            let mut y: usize = 1;
            while y < h - 1
                invariant
                    vel.wf(),
                    other.wf(),
                    vel.dimensions == rect,
                    other.dimensions == rect,
                    rect.wf(),
                    vel@ == v0,
                    other@.len() == a0.len(),
                    w == rect.width,
                    h == rect.height,
                    two_w == scalar_of_int(2 * rect.width),
                    1 <= x <= w - 2,
                    1 <= y <= h - 1,
                    forall|ix: int, iy: int|
                        rect.contains_spec(ix, iy) ==> #[trigger] other@[cell_index(rect, ix, iy)]
                            == div_partial(rect, v0, a0, ix, iy, x as int, y as int),
                decreases h - y,
            {
                proof {
                    lemma_cell_index_bounds(rect, x as int, y as int);
                }
                let dx = vel.get_or_zero(Coord2 { x: x + 1, y }).x.sub(
                    vel.get_or_zero(Coord2 { x: x - 1, y }).x,
                );
                let dy = vel.get_or_zero(Coord2 { x, y: y + 1 }).y.sub(
                    vel.get_or_zero(Coord2 { x, y: y - 1 }).y,
                );
                let d = dx.add(dy).neg().div(two_w);
                other.set(Coord2 { x, y }, Vector2 { x: Scalar::zero(), y: d });
                proof {
                    assert forall|ix: int, iy: int|
                        rect.contains_spec(ix, iy) implies #[trigger] other@[cell_index(
                        rect,
                        ix,
                        iy,
                    )] == div_partial(rect, v0, a0, ix, iy, x as int, y + 1) by {
                        lemma_cell_index_bounds(rect, ix, iy);
                        if cell_index(rect, ix, iy) == cell_index(rect, x as int, y as int) {
                            lemma_cell_index_injective(rect, ix, iy, x as int, y as int);
                        }
                    }
                }
                y = y + 1;
            }
            x = x + 1;
        }
        proof {
            assert forall|i: int| 0 <= i < other@.len() implies other@[i] == div_init_spec(
                rect,
                v0,
                a0,
            )[i] by {
                lemma_index_to_coords(rect, i);
            }
            assert(other@ =~= div_init_spec(rect, v0, a0));
        }

        Self::set_bnd(other);
        let ghost a1 = other@;

        let rows = h - 2;
        let four = Scalar::from_int(4);
        let mut it: usize = 0;
        while it < ITER
            invariant
                vel.wf(),
                other.wf(),
                vel.dimensions == rect,
                other.dimensions == rect,
                rect.wf(),
                vel@ == v0,
                other@.len() == a1.len(),
                w == rect.width,
                h == rect.height,
                rows == rect.height - 2,
                four == scalar_of_int(4),
                it <= ITER,
                other@ == gs_iterations(rect, a1, it as int),
            decreases ITER - it,
        {
            let ghost se = other@;
            let mut x: usize = 1;
            while x < w - 1
                invariant
                    vel.wf(),
                    other.wf(),
                    vel.dimensions == rect,
                    other.dimensions == rect,
                    rect.wf(),
                    vel@ == v0,
                    w == rect.width,
                    h == rect.height,
                    rows == rect.height - 2,
                    four == scalar_of_int(4),
                    1 <= x <= w - 1,
                    other@ == gs_sweep_upto(rect, se, (x - 1) * rows),
                decreases w - x,
            {
                let mut y: usize = 1;
                while y < h - 1
                    invariant
                        vel.wf(),
                        other.wf(),
                        vel.dimensions == rect,
                        other.dimensions == rect,
                        rect.wf(),
                        vel@ == v0,
                        w == rect.width,
                        h == rect.height,
                        rows == rect.height - 2,
                        four == scalar_of_int(4),
                        1 <= x <= w - 2,
                        1 <= y <= h - 1,
                        other@ == gs_sweep_upto(rect, se, (x - 1) * rows + (y - 1)),
                    decreases h - y,
                {
                    let cc = Coord2 { x, y };
                    proof {
                        lemma_cell_index_bounds(rect, x as int, y as int);
                        vstd::arithmetic::div_mod::lemma_fundamental_div_mod_converse(
                            (x - 1) * (rows as int) + (y - 1),
                            rows as int,
                            x - 1,
                            y - 1,
                        );
                    }
                    let divy = other.get_or_zero(cc).y;
                    let l = other.get_or_zero(Coord2 { x: x - 1, y }).x;
                    let r = other.get_or_zero(Coord2 { x: x + 1, y }).x;
                    let b = other.get_or_zero(Coord2 { x, y: y - 1 }).x;
                    let t = other.get_or_zero(Coord2 { x, y: y + 1 }).x;
                    let psum = l.add(r).add(b).add(t);
                    let p = divy.add(psum).div(four);
                    other.set(cc, Vector2 { x: p, y: divy });
                    proof {
                        assert(other@ =~= gs_sweep_upto(rect, se, (x - 1) * (rows as int) + y));
                    }
                    y = y + 1;
                }
                proof {
                    assert((x - 1) * (rows as int) + rows == x * (rows as int)) by (nonlinear_arith);
                }
                x = x + 1;
            }
            proof {
                vstd::arithmetic::mul::lemma_mul_is_commutative(rect.width - 2, rect.height - 2);
                assert(other@ == gs_iterations(rect, a1, it + 1));
            }
            it = it + 1;
        }

        Self::set_bnd(other);
        let ghost a2 = other@;

        let grad_w = Scalar::from_int(rect.width as i64);
        let grad_h = Scalar::from_int(rect.height as i64);
        let two = Scalar::from_int(2);
        let mut x: usize = 1;
        while x < w - 1
            invariant
                vel.wf(),
                other.wf(),
                vel.dimensions == rect,
                other.dimensions == rect,
                rect.wf(),
                other@ == a2,
                vel@.len() == v0.len(),
                w == rect.width,
                h == rect.height,
                grad_w == scalar_of_int(rect.width as int),
                grad_h == scalar_of_int(rect.height as int),
                two == scalar_of_int(2),
                1 <= x <= w - 1,
                forall|ix: int, iy: int|
                    rect.contains_spec(ix, iy) ==> #[trigger] vel@[cell_index(rect, ix, iy)]
                        == grad_partial(rect, v0, a2, ix, iy, x as int, 1),
            decreases w - x,
        {
            let mut y: usize = 1;
            while y < h - 1
                invariant
                    vel.wf(),
                    other.wf(),
                    vel.dimensions == rect,
                    other.dimensions == rect,
                    rect.wf(),
                    other@ == a2,
                    vel@.len() == v0.len(),
                    w == rect.width,
                    h == rect.height,
                    grad_w == scalar_of_int(rect.width as int),
                    grad_h == scalar_of_int(rect.height as int),
                    two == scalar_of_int(2),
                    1 <= x <= w - 2,
                    1 <= y <= h - 1,
                    forall|ix: int, iy: int|
                        rect.contains_spec(ix, iy) ==> #[trigger] vel@[cell_index(rect, ix, iy)]
                            == grad_partial(rect, v0, a2, ix, iy, x as int, y as int),
                decreases h - y,
            {
                let cc = Coord2 { x, y };
                proof {
                    lemma_cell_index_bounds(rect, x as int, y as int);
                }
                let v = vel.get_or_zero(cc);
                let gx = other.get_or_zero(Coord2 { x: x + 1, y }).x.sub(
                    other.get_or_zero(Coord2 { x: x - 1, y }).x,
                ).mul(grad_w).div(two);
                let gy = other.get_or_zero(Coord2 { x, y: y + 1 }).x.sub(
                    other.get_or_zero(Coord2 { x, y: y - 1 }).x,
                ).mul(grad_h).div(two);
                vel.set(cc, Vector2 { x: v.x.sub(gx), y: v.y.sub(gy) });
                proof {
                    assert forall|ix: int, iy: int|
                        rect.contains_spec(ix, iy) implies #[trigger] vel@[cell_index(
                        rect,
                        ix,
                        iy,
                    )] == grad_partial(rect, v0, a2, ix, iy, x as int, y + 1) by {
                        lemma_cell_index_bounds(rect, ix, iy);
                        if cell_index(rect, ix, iy) == cell_index(rect, x as int, y as int) {
                            lemma_cell_index_injective(rect, ix, iy, x as int, y as int);
                        }
                    }
                }
                y = y + 1;
            }
            x = x + 1;
        }
        proof {
            assert forall|i: int| 0 <= i < vel@.len() implies vel@[i] == grad_sub_spec(
                rect,
                v0,
                a2,
            )[i] by {
                lemma_index_to_coords(rect, i);
            }
            assert(vel@ =~= grad_sub_spec(rect, v0, a2));
        }
        Self::set_bnd(vel);
    }

    /// Transport the contents of `grid_prev` along the velocity field: each
    /// interior cell's content is traced back in time to its former position
    /// and the source field's value there (interpolated) is written at the
    /// cell.
    pub fn advect<T: FieldValue + Copy>(
        dt: TimeDelta,
        grid: &mut Grid<T>,
        grid_prev: &Grid<T>,
        vel_prev: &Grid<Vector2>,
    )
        requires
            old(grid).wf(),
            grid_prev.wf(),
            vel_prev.wf(),
            old(grid).dimensions == grid_prev.dimensions,
            old(grid).dimensions == vel_prev.dimensions,
        ensures
            final(grid).wf(),
            final(grid).dimensions == old(grid).dimensions,
            final(grid)@ == advect_spec(
                old(grid).dimensions,
                old(grid)@,
                grid_prev@,
                vel_prev@,
                dt.0,
            ),
    {
        let rect = grid.dimensions;
        let ghost d0 = grid@;
        let w = rect.width;
        let h = rect.height;
        let time_step = dt.0.mul(Scalar::from_int(rect.width as i64));
        let lo = Scalar::half();
        let hi_x = Scalar::from_int((rect.width - 1) as i64).sub(lo);
        let hi_y = Scalar::from_int((rect.height - 1) as i64).sub(lo);
        let mut x: usize = 1;
        while x < w - 1
            invariant
                grid.wf(),
                grid_prev.wf(),
                vel_prev.wf(),
                grid.dimensions == rect,
                grid_prev.dimensions == rect,
                vel_prev.dimensions == rect,
                rect.wf(),
                grid@.len() == d0.len(),
                w == rect.width,
                h == rect.height,
                time_step == scalar_mul(dt.0, scalar_of_int(rect.width as int)),
                lo == (Scalar { bits: (SCALE_ONE / 2) as i64 }),
                hi_x == scalar_sub(scalar_of_int(rect.width - 1), lo),
                hi_y == scalar_sub(scalar_of_int(rect.height - 1), lo),
                1 <= x <= w - 1,
                forall|ix: int, iy: int|
                    rect.contains_spec(ix, iy) ==> #[trigger] grid@[cell_index(rect, ix, iy)]
                        == advect_partial(
                        rect,
                        d0,
                        grid_prev@,
                        vel_prev@,
                        dt.0,
                        ix,
                        iy,
                        x as int,
                        1,
                    ),
            decreases w - x,
        {
            let mut y: usize = 1;
            while y < h - 1
                invariant
                    grid.wf(),
                    grid_prev.wf(),
                    vel_prev.wf(),
                    grid.dimensions == rect,
                    grid_prev.dimensions == rect,
                    vel_prev.dimensions == rect,
                    rect.wf(),
                    grid@.len() == d0.len(),
                    w == rect.width,
                    h == rect.height,
                    time_step == scalar_mul(dt.0, scalar_of_int(rect.width as int)),
                    lo == (Scalar { bits: (SCALE_ONE / 2) as i64 }),
                    hi_x == scalar_sub(scalar_of_int(rect.width - 1), lo),
                    hi_y == scalar_sub(scalar_of_int(rect.height - 1), lo),
                    1 <= x <= w - 2,
                    1 <= y <= h - 1,
                    forall|ix: int, iy: int|
                        rect.contains_spec(ix, iy) ==> #[trigger] grid@[cell_index(rect, ix, iy)]
                            == advect_partial(
                            rect,
                            d0,
                            grid_prev@,
                            vel_prev@,
                            dt.0,
                            ix,
                            iy,
                            x as int,
                            y as int,
                        ),
                decreases h - y,
            {
                let cc = Coord2 { x, y };
                proof {
                    lemma_cell_index_bounds(rect, x as int, y as int);
                }
                let v = vel_prev.get_or_zero(cc);
                let px = Scalar::from_int(x as i64).sub(v.x.mul(time_step)).clam(lo, hi_x);
                let py = Scalar::from_int(y as i64).sub(v.y.mul(time_step)).clam(lo, hi_y);
                let new_val = grid_prev.interpolate((px, py));
                grid.set(cc, new_val);
                proof {
                    assert forall|ix: int, iy: int|
                        rect.contains_spec(ix, iy) implies #[trigger] grid@[cell_index(
                        rect,
                        ix,
                        iy,
                    )] == advect_partial(
                        rect,
                        d0,
                        grid_prev@,
                        vel_prev@,
                        dt.0,
                        ix,
                        iy,
                        x as int,
                        y + 1,
                    ) by {
                        lemma_cell_index_bounds(rect, ix, iy);
                        if cell_index(rect, ix, iy) == cell_index(rect, x as int, y as int) {
                            lemma_cell_index_injective(rect, ix, iy, x as int, y as int);
                        }
                    }
                }
                y = y + 1;
            }
            x = x + 1;
        }
        proof {
            assert forall|i: int| 0 <= i < grid@.len() implies grid@[i] == advect_spec(
                rect,
                d0,
                grid_prev@,
                vel_prev@,
                dt.0,
            )[i] by {
                lemma_index_to_coords(rect, i);
            }
            assert(grid@ =~= advect_spec(rect, d0, grid_prev@, vel_prev@, dt.0));
        }
    }

    /// Apply the boundary fix-up: edges mirror their inward neighbors, then
    /// corners average their two adjacent edge cells.
    pub fn set_bnd<T: FieldValue + ValueAtEdge + Copy>(grid: &mut Grid<T>)
        requires
            old(grid).wf(),
        ensures
            final(grid).wf(),
            final(grid).dimensions == old(grid).dimensions,
            final(grid)@ == set_bnd_spec(old(grid).dimensions, old(grid)@),
    {
        Self::fix_edges(grid);
        Self::fix_corners(grid);
    }

    /// Diffuse the velocity field, using a snapshot of it as the right-hand
    /// side; the snapshot is left in the velocity scratch field.
    pub fn diffuse_velocity(&mut self)
        requires
            old(self).wf(),
        ensures
            final(self).wf(),
            final(self).diff == old(self).diff,
            final(self).viscosity == old(self).viscosity,
            final(self).dt == old(self).dt,
            final(self).size == old(self).size,
            final(self).density == old(self).density,
            final(self).density_prev == old(self).density_prev,
            final(self).domain() == old(self).domain(),
            final(self).velocity_prev@ == old(self).velocity@,
            final(self).velocity@ == diffuse_spec(
                old(self).domain(),
                old(self).velocity@,
                old(self).velocity@,
                old(self).diff.0,
                old(self).dt.0,
            ),
    {
        self.velocity_prev.copy_from(&self.velocity);
        Self::diffuse(self.diff, self.dt, &mut self.velocity, &self.velocity_prev);
        proof {
            let rect = old(self).domain();
            let a = diffusion_a(rect, old(self).diff.0, old(self).dt.0);
            lemma_lin_solve_full(rect, old(self).velocity@, old(self).velocity@, a, diffusion_c(a));
        }
    }

    /// Diffuse the dye field, using a snapshot of it as the right-hand
    /// side; the snapshot is left in the previous-density field.
    pub fn diffuse_density(&mut self)
        requires
            old(self).wf(),
        ensures
            final(self).wf(),
            final(self).diff == old(self).diff,
            final(self).viscosity == old(self).viscosity,
            final(self).dt == old(self).dt,
            final(self).size == old(self).size,
            final(self).velocity == old(self).velocity,
            final(self).velocity_prev == old(self).velocity_prev,
            final(self).domain() == old(self).domain(),
            final(self).density_prev@ == old(self).density@,
            final(self).density@ == diffuse_spec(
                old(self).domain(),
                old(self).density@,
                old(self).density@,
                old(self).diff.0,
                old(self).dt.0,
            ),
    {
        self.density_prev.copy_from(&self.density);
        Self::diffuse(self.diff, self.dt, &mut self.density, &self.density_prev);
        proof {
            let rect = old(self).domain();
            let a = diffusion_a(rect, old(self).diff.0, old(self).dt.0);
            lemma_lin_solve_full(rect, old(self).density@, old(self).density@, a, diffusion_c(a));
        }
    }

    /// Remove divergence from the velocity field, using the velocity
    /// scratch field for the divergence and pressure.
    pub fn project_velocity(&mut self)
        requires
            old(self).wf(),
        ensures
            final(self).wf(),
            final(self).diff == old(self).diff,
            final(self).viscosity == old(self).viscosity,
            final(self).dt == old(self).dt,
            final(self).size == old(self).size,
            final(self).density == old(self).density,
            final(self).density_prev == old(self).density_prev,
            final(self).domain() == old(self).domain(),
            final(self).velocity@ == project_spec(
                old(self).domain(),
                old(self).velocity@,
                old(self).velocity_prev@,
            ).0,
            final(self).velocity_prev@ == project_spec(
                old(self).domain(),
                old(self).velocity@,
                old(self).velocity_prev@,
            ).1,
    {
        Self::project(&mut self.velocity, &mut self.velocity_prev);
        proof {
            lemma_project_full(
                old(self).domain(),
                old(self).velocity@,
                old(self).velocity_prev@,
            );
        }
    }

    /// Transport the velocity field along its own flow; the pre-advection
    /// velocity is left in the velocity scratch field.
    pub fn advect_velocity(&mut self)
        requires
            old(self).wf(),
        ensures
            final(self).wf(),
            final(self).diff == old(self).diff,
            final(self).viscosity == old(self).viscosity,
            final(self).dt == old(self).dt,
            final(self).size == old(self).size,
            final(self).density == old(self).density,
            final(self).density_prev == old(self).density_prev,
            final(self).domain() == old(self).domain(),
            final(self).velocity_prev@ == old(self).velocity@,
            final(self).velocity@ == advect_spec(
                old(self).domain(),
                old(self).velocity@,
                old(self).velocity@,
                old(self).velocity@,
                old(self).dt.0,
            ),
    {
        self.velocity_prev.copy_from(&self.velocity);
        Self::advect(self.dt, &mut self.velocity, &self.velocity_prev, &self.velocity_prev);
        proof {
            lemma_advect_full(
                old(self).domain(),
                old(self).velocity@,
                old(self).velocity@,
                old(self).velocity@,
                old(self).dt.0,
            );
        }
    }

    /// Transport the dye field along the velocity field; the pre-advection
    /// dye is left in the previous-density field.
    pub fn advect_density(&mut self)
        requires
            old(self).wf(),
        ensures
            final(self).wf(),
            final(self).diff == old(self).diff,
            final(self).viscosity == old(self).viscosity,
            final(self).dt == old(self).dt,
            final(self).size == old(self).size,
            final(self).velocity == old(self).velocity,
            final(self).velocity_prev == old(self).velocity_prev,
            final(self).domain() == old(self).domain(),
            final(self).density_prev@ == old(self).density@,
            final(self).density@ == advect_spec(
                old(self).domain(),
                old(self).density@,
                old(self).density@,
                old(self).velocity@,
                old(self).dt.0,
            ),
    {
        self.density_prev.copy_from(&self.density);
        Self::advect(self.dt, &mut self.density, &self.density_prev, &self.velocity);
        proof {
            lemma_advect_full(
                old(self).domain(),
                old(self).density@,
                old(self).density@,
                old(self).velocity@,
                old(self).dt.0,
            );
        }
    }

    /// Advance the simulation one timestep: diffuse, project, self-advect
    /// and re-project the velocity, then diffuse the dye and advect it
    /// along the now divergence-free velocity.
    pub fn tick(&mut self)
        requires
            old(self).wf(),
        ensures
            final(self).wf(),
            final(self).diff == old(self).diff,
            final(self).viscosity == old(self).viscosity,
            final(self).dt == old(self).dt,
            final(self).size == old(self).size,
            final(self).domain() == old(self).domain(),
            final(self).velocity@ == tick_spec(
                old(self).domain(),
                old(self).velocity@,
                old(self).density@,
                old(self).diff.0,
                old(self).dt.0,
            ).0,
            final(self).velocity_prev@ == tick_spec(
                old(self).domain(),
                old(self).velocity@,
                old(self).density@,
                old(self).diff.0,
                old(self).dt.0,
            ).1,
            final(self).density@ == tick_spec(
                old(self).domain(),
                old(self).velocity@,
                old(self).density@,
                old(self).diff.0,
                old(self).dt.0,
            ).2,
            final(self).density_prev@ == tick_spec(
                old(self).domain(),
                old(self).velocity@,
                old(self).density@,
                old(self).diff.0,
                old(self).dt.0,
            ).3,
    {
        self.diffuse_velocity();
        self.project_velocity();
        self.advect_velocity();
        self.project_velocity();
        self.diffuse_density();
        self.advect_density();
    }
}

/// Mirror boundary law: after the boundary fix-up on a vector field, the
/// component normal to an edge at every pure-edge cell is the negation of
/// the corresponding component of its single inward neighbor, and the
/// tangential component equals the neighbor's exactly.
pub proof fn lemma_mirror_boundary(rect: Rect, s: Seq<Option<Vector2>>, x: int, y: int)
    requires
        rect.wf(),
        s.len() == rect.width * rect.height,
        all_present(s),
        rect.contains_spec(x, y),
        classify(rect.width as int, rect.height as int, x, y) is Edge,
    ensures
        ({
            let e = classify(rect.width as int, rect.height as int, x, y)->Edge_0;
            let t = set_bnd_spec(rect, s);
            let fixed = cell_at(rect, t, x, y)->Some_0;
            let nv = cell_at(rect, t, inward_x(e, x), inward_y(e, y))->Some_0;
            &&& cell_at(rect, t, x, y) is Some
            &&& cell_at(rect, t, inward_x(e, x), inward_y(e, y)) is Some
            &&& (crate::coords::edge_axis(e) == crate::coords::Axis::X ==> fixed.x == scalar_neg(
                nv.x,
            ) && fixed.y == nv.y)
            &&& (crate::coords::edge_axis(e) == crate::coords::Axis::Y ==> fixed.y == scalar_neg(
                nv.y,
            ) && fixed.x == nv.x)
        }),
{
    let w = rect.width as int;
    let h = rect.height as int;
    let e = classify(w, h, x, y)->Edge_0;
    let e1 = fix_edges_spec(rect, s);
    let t = set_bnd_spec(rect, s);
    let nx = inward_x(e, x);
    let ny = inward_y(e, y);
    lemma_cell_index_bounds(rect, x, y);
    vstd::arithmetic::div_mod::lemma_fundamental_div_mod_converse(y * w + x, w, y, x);
    assert(classify(w, h, nx, ny) is Neither);
    lemma_cell_index_bounds(rect, nx, ny);
    vstd::arithmetic::div_mod::lemma_fundamental_div_mod_converse(ny * w + nx, w, ny, nx);
    crate::coords::lemma_boundary_coords_complete(rect, x, y);
    assert(e1[cell_index(rect, x, y)] == Some(edge_cell_value(rect, s, e, x, y)));
    assert(t[cell_index(rect, x, y)] == e1[cell_index(rect, x, y)]);
    assert(t[cell_index(rect, nx, ny)] == s[cell_index(rect, nx, ny)]);
}

/// Corner averaging law: after the boundary fix-up, every corner cell's
/// value is the mean of its two adjacent boundary cells' (just fixed)
/// values: the horizontal neighbor plus the vertical one, divided by two.
pub proof fn lemma_corner_average<T: FieldValue + ValueAtEdge>(
    rect: Rect,
    s: Seq<Option<T>>,
    x: int,
    y: int,
)
    requires
        rect.wf(),
        s.len() == rect.width * rect.height,
        all_present(s),
        rect.contains_spec(x, y),
        classify(rect.width as int, rect.height as int, x, y) is Corner,
    ensures
        ({
            let t = set_bnd_spec(rect, s);
            let xn = if x == 0 {
                x + 1
            } else {
                x - 1
            };
            let yn = if y == 0 {
                y + 1
            } else {
                y - 1
            };
            let v1 = cell_at(rect, t, xn, y)->Some_0;
            let v2 = cell_at(rect, t, x, yn)->Some_0;
            &&& cell_at(rect, t, x, y) is Some
            &&& cell_at(rect, t, xn, y) is Some
            &&& cell_at(rect, t, x, yn) is Some
            &&& cell_at(rect, t, x, y)->Some_0 == T::div_spec(
                T::add_spec(v1, v2),
                scalar_of_int(2),
            )
        }),
{
    let w = rect.width as int;
    let h = rect.height as int;
    let e1 = fix_edges_spec(rect, s);
    let t = set_bnd_spec(rect, s);
    let xn = if x == 0 {
        x + 1
    } else {
        x - 1
    };
    let yn = if y == 0 {
        y + 1
    } else {
        y - 1
    };
    lemma_cell_index_bounds(rect, x, y);
    vstd::arithmetic::div_mod::lemma_fundamental_div_mod_converse(y * w + x, w, y, x);
    lemma_cell_index_bounds(rect, xn, y);
    vstd::arithmetic::div_mod::lemma_fundamental_div_mod_converse(y * w + xn, w, y, xn);
    lemma_cell_index_bounds(rect, x, yn);
    vstd::arithmetic::div_mod::lemma_fundamental_div_mod_converse(yn * w + x, w, yn, x);
    // the corner's two in-domain neighbors are pure edge cells, so the
    // corner pass leaves them at their edge-fixed values
    assert(classify(w, h, xn, y) is Edge);
    assert(classify(w, h, x, yn) is Edge);
    assert(t[cell_index(rect, xn, y)] == e1[cell_index(rect, xn, y)]);
    assert(t[cell_index(rect, x, yn)] == e1[cell_index(rect, x, yn)]);
    assert(t[cell_index(rect, x, y)] == corner_fixed(rect, e1, x, y));
    let v1 = cell_value(rect, e1, xn, y);
    let v2 = cell_value(rect, e1, x, yn);
    // the other two cardinal positions fall outside the domain, so the
    // neighbor sum reduces to the two edge values
    assert(cell_value(rect, e1, x - 1, y) == if x == 0 {
        T::zero_spec()
    } else {
        v1
    });
    assert(cell_value(rect, e1, x + 1, y) == if x == 0 {
        v1
    } else {
        T::zero_spec()
    });
    assert(cell_value(rect, e1, x, y - 1) == if y == 0 {
        T::zero_spec()
    } else {
        v2
    });
    assert(cell_value(rect, e1, x, y + 1) == if y == 0 {
        v2
    } else {
        T::zero_spec()
    });
    assert(neighbor_sum(rect, e1, x, y) == T::add_spec(v1, v2)) by {
        T::lemma_add_zero(T::zero_spec());
        T::lemma_add_zero(v1);
        T::lemma_add_zero(v2);
        T::lemma_add_zero(T::add_spec(v1, v2));
    }
}

/// Pure advection with a zero velocity field is the identity on the field:
/// every cell (interior cells are rewritten, boundary cells untouched)
/// keeps its value exactly, so in particular the field's total content is
/// unchanged.
pub proof fn lemma_advect_zero_velocity<T: FieldValue>(
    rect: Rect,
    d: Seq<Option<T>>,
    vel: Seq<Option<Vector2>>,
    dt: Scalar,
)
    requires
        rect.wf(),
        d.len() == rect.width * rect.height,
        all_present(d),
        forall|x: int, y: int|
            rect.contains_spec(x, y) ==> #[trigger] cell_value(rect, vel, x, y) == (Vector2 {
                x: Scalar { bits: 0 },
                y: Scalar { bits: 0 },
            }),
    ensures
        advect_spec(rect, d, d, vel, dt) == d,
{
    let w = rect.width as int;
    let h = rect.height as int;
    let r = advect_spec(rect, d, d, vel, dt);
    assert forall|i: int| 0 <= i < r.len() implies r[i] == d[i] by {
        lemma_index_to_coords(rect, i);
        let x = i % w;
        let y = i / w;
        if rect.interior_spec(x, y) {
            let v = cell_value(rect, vel, x, y);
            let ts = scalar_mul(dt, scalar_of_int(w));
            assert(scalar_mul(v.x, ts) == Scalar { bits: 0 } && scalar_mul(v.y, ts) == Scalar {
                bits: 0,
            }) by {
                assert(crate::scalar::mul_bits(0, ts.bits as int) == 0);
            }
            assert(0 <= x * SCALE_ONE <= 0x7fff_ffff * 0x1_0000 && 0 <= y * SCALE_ONE
                <= 0x7fff_ffff * 0x1_0000 && SCALE_ONE <= x * SCALE_ONE && SCALE_ONE <= y
                * SCALE_ONE && x * SCALE_ONE <= (w - 2) * SCALE_ONE && y * SCALE_ONE <= (h - 2)
                * SCALE_ONE && (w - 2) * SCALE_ONE == (w - 1) * SCALE_ONE - SCALE_ONE && (h - 2)
                * SCALE_ONE == (h - 1) * SCALE_ONE - SCALE_ONE && 0 <= (w - 1) * SCALE_ONE
                <= 0x7fff_ffff * 0x1_0000 && 0 <= (h - 1) * SCALE_ONE <= 0x7fff_ffff * 0x1_0000)
                by (nonlinear_arith)
                requires
                    1 <= x <= w - 2,
                    1 <= y <= h - 2,
                    3 <= w <= 0x7fff_ffff,
                    3 <= h <= 0x7fff_ffff,
                    SCALE_ONE == 0x1_0000,
            ;
            assert(backtrace_x(rect, v, dt, x) == scalar_of_int(x));
            assert(backtrace_y(rect, v, dt, y) == scalar_of_int(y));
            crate::matrix::lemma_interpolate_identity(rect, d, x, y);
        }
    }
    assert(r =~= d);
}

} // verus!
