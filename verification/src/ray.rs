//! The lattice raycaster: a DDA walk over the voxel graph. `advance` takes a
//! single step across one cell, `raycast` chains steps through neighbor links
//! until an opaque cell or the step budget is reached.
//!
//! Positions are fixed-point offsets in `[0, ONE]` per axis; directions are
//! signed fixed-point components. The parametric exit distance of axis `a` is
//! the exact rational `exit_num / exit_den`; all comparisons are done by
//! cross-multiplication, so the choice of crossed axis is exact.

use vstd::prelude::*;
use vstd::arithmetic::div_mod::{lemma_div_is_ordered, lemma_div_by_multiple};
use vstd::arithmetic::mul::lemma_mul_upper_bound;
use crate::num::{ONE, isqrt, sqrt_floor, lemma_sqrt_floor_unique};
use crate::world::{World, VoxelPair, spec_neighbor};

verus! {

/// Largest direction-component magnitude the raycaster accepts.
pub const DIR_MAX: u64 = 2147483648;

/// A local position as a mathematical triple.
pub open spec fn pos_view(p: [u64; 3]) -> Seq<int> {
    seq![p[0] as int, p[1] as int, p[2] as int]
}

/// A direction as a mathematical triple.
pub open spec fn dir_view(d: [i64; 3]) -> Seq<int> {
    seq![d[0] as int, d[1] as int, d[2] as int]
}

/// A local position: one coordinate per axis, each within the unit cube.
pub open spec fn pos_ok(ps: Seq<int>) -> bool {
    &&& ps.len() == 3
    &&& forall|a: int| 0 <= a < 3 ==> 0 <= #[trigger] ps[a] <= ONE
}

/// A usable ray direction: bounded components, not all zero.
pub open spec fn dir_ok(ds: Seq<int>) -> bool {
    &&& ds.len() == 3
    &&& forall|a: int| 0 <= a < 3 ==> -(DIR_MAX as int) <= #[trigger] ds[a] <= DIR_MAX as int
    &&& (ds[0] != 0 || ds[1] != 0 || ds[2] != 0)
}

/// Numerator of the parametric distance at which the ray leaves the unit
/// cube through axis `a`: the gap to the face on the side the ray points to.
pub open spec fn exit_num(ps: Seq<int>, ds: Seq<int>, a: int) -> int {
    if ds[a] >= 0 {
        ONE - ps[a]
    } else {
        ps[a]
    }
}

/// Denominator of that parametric distance: the component's magnitude.
pub open spec fn exit_den(ds: Seq<int>, a: int) -> int {
    if ds[a] >= 0 {
        ds[a]
    } else {
        -ds[a]
    }
}

/// Exit distance of axis `a` is at most that of axis `b`, as exact rationals
/// compared by cross-multiplication (meaningful when both denominators are
/// positive).
pub open spec fn exit_le(ps: Seq<int>, ds: Seq<int>, a: int, b: int) -> bool {
    exit_num(ps, ds, a) * exit_den(ds, b) <= exit_num(ps, ds, b) * exit_den(ds, a)
}

/// The axis whose face the ray crosses first. Axes with a zero component
/// never exit; on an exact tie the lowest axis wins.
pub open spec fn crossed_axis(ps: Seq<int>, ds: Seq<int>) -> int {
    if ds[0] != 0 && (ds[1] == 0 || exit_le(ps, ds, 0, 1)) && (ds[2] == 0 || exit_le(ps, ds, 0, 2)) {
        0
    } else if ds[1] != 0 && (ds[2] == 0 || exit_le(ps, ds, 1, 2)) {
        1
    } else {
        2
    }
}

/// Magnitude of the displacement taken on axis `b` during the step, rounded
/// toward zero so the step never overshoots a face.
pub open spec fn step_mag(ps: Seq<int>, ds: Seq<int>, b: int) -> int {
    let a = crossed_axis(ps, ds);
    exit_num(ps, ds, a) * exit_den(ds, b) / exit_den(ds, a)
}

/// Coordinate of axis `b` after the step, already expressed in the frame of
/// the next cell: the crossed axis wraps to the opposite face.
pub open spec fn step_coord(ps: Seq<int>, ds: Seq<int>, b: int) -> int {
    let a = crossed_axis(ps, ds);
    if b == a {
        if ds[a] >= 0 {
            0
        } else {
            ONE as int
        }
    } else if ds[b] >= 0 {
        ps[b] + step_mag(ps, ds, b)
    } else {
        ps[b] - step_mag(ps, ds, b)
    }
}

/// The whole position after the step.
pub open spec fn step_pos(ps: Seq<int>, ds: Seq<int>) -> Seq<int> {
    seq![step_coord(ps, ds, 0), step_coord(ps, ds, 1), step_coord(ps, ds, 2)]
}

/// Squared Euclidean length of the displacement taken during the step.
pub open spec fn step_len_sq(ps: Seq<int>, ds: Seq<int>) -> int {
    step_mag(ps, ds, 0) * step_mag(ps, ds, 0) + step_mag(ps, ds, 1) * step_mag(ps, ds, 1)
        + step_mag(ps, ds, 2) * step_mag(ps, ds, 2)
}

/// Euclidean length of the displacement, at fixed-point scale.
pub open spec fn step_len(ps: Seq<int>, ds: Seq<int>) -> int {
    sqrt_floor(step_len_sq(ps, ds))
}

/// Comparison of nonnegative fractions by cross-multiplication is transitive.
proof fn lemma_frac_le_trans(na: int, da: int, nb: int, db: int, nc: int, dc: int)
    by (nonlinear_arith)
    requires
        na >= 0,
        nb >= 0,
        nc >= 0,
        da > 0,
        db > 0,
        dc > 0,
        na * db <= nb * da,
        nb * dc <= nc * db,
    ensures
        na * dc <= nc * da,
{
}

/// Transitivity of `exit_le` through an axis with a nonzero component.
proof fn lemma_exit_le_trans(ps: Seq<int>, ds: Seq<int>, a: int, b: int, c: int)
    requires
        pos_ok(ps),
        dir_ok(ds),
        0 <= a < 3,
        0 <= b < 3,
        0 <= c < 3,
        ds[a] != 0,
        ds[b] != 0,
        ds[c] != 0,
        exit_le(ps, ds, a, b),
        exit_le(ps, ds, b, c),
    ensures
        exit_le(ps, ds, a, c),
{
    lemma_frac_le_trans(
        exit_num(ps, ds, a),
        exit_den(ds, a),
        exit_num(ps, ds, b),
        exit_den(ds, b),
        exit_num(ps, ds, c),
        exit_den(ds, c),
    );
}

/// The crossed axis is a valid axis with a nonzero component; its exit
/// distance is minimal among the axes that can exit; and every lower-numbered
/// axis that can exit does so strictly later, so the tie-break toward the
/// lowest axis is exact.
pub proof fn lemma_crossed_axis(ps: Seq<int>, ds: Seq<int>)
    requires
        pos_ok(ps),
        dir_ok(ds),
    ensures
        0 <= crossed_axis(ps, ds) < 3,
        ds[crossed_axis(ps, ds)] != 0,
        forall|b: int|
            0 <= b < 3 && ds[b] != 0 ==> exit_le(ps, ds, crossed_axis(ps, ds), b),
        forall|b: int|
            0 <= b < crossed_axis(ps, ds) && ds[b] != 0 ==> !exit_le(ps, ds, b, crossed_axis(ps, ds)),
{
    let a = crossed_axis(ps, ds);
    if a == 0 {
        assert forall|b: int| 0 <= b < 3 && ds[b] != 0 implies exit_le(ps, ds, 0, b) by {
            if b == 0 {
                assert(exit_le(ps, ds, 0, 0));
            }
        }
    } else if a == 1 {
        assert(ds[1] != 0);
        if ds[0] != 0 {
            if exit_le(ps, ds, 0, 1) {
                // axis 0 was passed over, so some comparison failed; with
                // exit_le(0, 1) holding, it must be exit_le(0, 2) that failed
                assert(ds[2] != 0 && !exit_le(ps, ds, 0, 2));
                assert(exit_le(ps, ds, 1, 2));
                assert(exit_le(ps, ds, 2, 0));
                lemma_exit_le_trans(ps, ds, 1, 2, 0);
                // but then exit_le(1, 0) and exit_le(0, 1) give a cycle through 2
                lemma_exit_le_trans(ps, ds, 0, 1, 2);
                assert(false);
            }
            assert(exit_le(ps, ds, 1, 0));
        }
        assert forall|b: int| 0 <= b < 3 && ds[b] != 0 implies exit_le(ps, ds, 1, b) by {
            if b == 1 {
                assert(exit_le(ps, ds, 1, 1));
            }
        }
    } else {
        // neither axis 0 nor axis 1 was chosen
        if ds[2] == 0 {
            if ds[1] != 0 {
                assert(false);
            } else {
                assert(ds[0] != 0);
                assert(false);
            }
        }
        assert(ds[2] != 0);
        if ds[1] != 0 {
            assert(!exit_le(ps, ds, 1, 2));
            assert(exit_le(ps, ds, 2, 1));
        }
        if ds[0] != 0 {
            if exit_le(ps, ds, 0, 2) {
                // axis 0 must then have lost against axis 1
                assert(ds[1] != 0 && !exit_le(ps, ds, 0, 1));
                assert(exit_le(ps, ds, 1, 0));
                lemma_exit_le_trans(ps, ds, 1, 0, 2);
                assert(exit_le(ps, ds, 1, 2));
                assert(false);
            }
            assert(exit_le(ps, ds, 2, 0));
        }
        assert forall|b: int| 0 <= b < 3 && ds[b] != 0 implies exit_le(ps, ds, 2, b) by {
            if b == 2 {
                assert(exit_le(ps, ds, 2, 2));
            }
        }
    }
}

/// One step of the raycaster: the new local position, the crossing that was
/// taken, and the Euclidean length of the displacement.
pub struct Step {
    /// The local position in the frame of the next cell.
    pub pos: [u64; 3],
    /// The axis whose face was crossed.
    pub axis: usize,
    /// Whether the crossing was through the positive face.
    pub positive: bool,
    /// Fixed-point Euclidean length of the displacement taken.
    pub len: u64,
}

fn exit_num_at(p: &[u64; 3], d: &[i64; 3], a: usize) -> (n: u64)
    requires
        a < 3,
        pos_ok(pos_view(*p)),
    ensures
        n == exit_num(pos_view(*p), dir_view(*d), a as int),
        n <= ONE,
{
    if d[a] >= 0 {
        ONE - p[a]
    } else {
        p[a]
    }
}

fn exit_den_at(d: &[i64; 3], a: usize) -> (n: u64)
    requires
        a < 3,
        dir_ok(dir_view(*d)),
    ensures
        n == exit_den(dir_view(*d), a as int),
        n <= DIR_MAX,
        (n == 0) == (d[a as int] == 0),
{
    if d[a] >= 0 {
        d[a] as u64
    } else {
        (-d[a]) as u64
    }
}

fn exit_leq(na: u64, ea: u64, nb: u64, eb: u64) -> (r: bool)
    requires
        na <= ONE,
        nb <= ONE,
        ea <= DIR_MAX,
        eb <= DIR_MAX,
    ensures
        r == (na * eb <= nb * ea),
{
    proof {
        lemma_mul_upper_bound(na as int, ONE as int, eb as int, DIR_MAX as int);
        lemma_mul_upper_bound(nb as int, ONE as int, ea as int, DIR_MAX as int);
    }
    na * eb <= nb * ea
}

/// Advance the ray by one cell: find the axis whose face is hit first (ties
/// go to the lowest axis), move there, and wrap the crossed coordinate into
/// the next cell's frame. Every coordinate of the result is back in the unit
/// range.
pub fn advance(p: [u64; 3], d: [i64; 3]) -> (s: Step)
    requires
        pos_ok(pos_view(p)),
        dir_ok(dir_view(d)),
    ensures
        s.axis as int == crossed_axis(pos_view(p), dir_view(d)),
        s.positive == (d[s.axis as int] >= 0),
        pos_view(s.pos) == step_pos(pos_view(p), dir_view(d)),
        pos_ok(pos_view(s.pos)),
        s.len == step_len(pos_view(p), dir_view(d)),
        s.len < 2 * ONE,
{
    let ghost ps = pos_view(p);
    let ghost ds = dir_view(d);
    proof {
        lemma_crossed_axis(ps, ds);
    }
    let n0 = exit_num_at(&p, &d, 0);
    let e0 = exit_den_at(&d, 0);
    let n1 = exit_num_at(&p, &d, 1);
    let e1 = exit_den_at(&d, 1);
    let n2 = exit_num_at(&p, &d, 2);
    let e2 = exit_den_at(&d, 2);
    let axis: usize = if d[0] != 0 && (d[1] == 0 || exit_leq(n0, e0, n1, e1)) && (d[2] == 0
        || exit_leq(n0, e0, n2, e2)) {
        0
    } else if d[1] != 0 && (d[2] == 0 || exit_leq(n1, e1, n2, e2)) {
        1
    } else {
        2
    };
    assert(axis as int == crossed_axis(ps, ds));
    let na = exit_num_at(&p, &d, axis);
    let ea = exit_den_at(&d, axis);
    let positive = d[axis] >= 0;

    let mut q: [u64; 3] = [0, 0, 0];
    let mut mags: [u64; 3] = [0, 0, 0];
    let mut b: usize = 0;
    while b < 3
        invariant
            b <= 3,
            pos_ok(ps),
            dir_ok(ds),
            ps == pos_view(p),
            ds == dir_view(d),
            axis as int == crossed_axis(ps, ds),
            na == exit_num(ps, ds, axis as int),
            ea == exit_den(ds, axis as int),
            na <= ONE,
            1 <= ea <= DIR_MAX,
            positive == (ds[axis as int] >= 0),
            forall|j: int| 0 <= j < b ==> #[trigger] q[j] == step_coord(ps, ds, j),
            forall|j: int| 0 <= j < b ==> #[trigger] mags[j] == step_mag(ps, ds, j),
            forall|j: int| 0 <= j < b ==> #[trigger] q[j] <= ONE,
            forall|j: int| 0 <= j < b ==> #[trigger] mags[j] <= ONE,
        decreases 3 - b,
    {
        proof {
            lemma_crossed_axis(ps, ds);
        }
        let eb = exit_den_at(&d, b);
        proof {
            lemma_mul_upper_bound(na as int, ONE as int, eb as int, DIR_MAX as int);
        }
        let m = na * eb / ea;
        proof {
            if d[b as int] != 0 {
                // minimality of the crossed axis bounds the displacement by
                // the gap to the facing face of axis b
                let nb = exit_num(ps, ds, b as int);
                assert(na * eb <= nb * ea);
                lemma_div_is_ordered((na * eb) as int, nb * ea, ea as int);
                lemma_div_by_multiple(nb, ea as int);
                assert(m <= nb);
            } else {
                assert(eb == 0);
                assert(m == 0);
            }
            assert(m == step_mag(ps, ds, b as int));
            assert(m <= ONE);
        }
        mags[b] = m;
        if b == axis {
            q[b] = if positive {
                0
            } else {
                ONE
            };
        } else if d[b] >= 0 {
            assert(d[b as int] != 0 ==> m + p[b as int] <= ONE);
            q[b] = p[b] + m;
        } else {
            q[b] = p[b] - m;
        }
        assert(q[b as int] == step_coord(ps, ds, b as int));
        b = b + 1;
    }
    proof {
        lemma_mul_upper_bound(mags[0] as int, ONE as int, mags[0] as int, ONE as int);
        lemma_mul_upper_bound(mags[1] as int, ONE as int, mags[1] as int, ONE as int);
        lemma_mul_upper_bound(mags[2] as int, ONE as int, mags[2] as int, ONE as int);
    }
    let sq = mags[0] * mags[0] + mags[1] * mags[1] + mags[2] * mags[2];
    assert(sq == step_len_sq(ps, ds));
    let len = isqrt(sq);
    assert(len < 2 * ONE) by (nonlinear_arith)
        requires
            len * len <= sq,
            sq <= 3 * (ONE * ONE),
    ;
    let s = Step { pos: q, axis, positive, len };
    assert(pos_view(s.pos) =~= step_pos(ps, ds));
    s
}

/// Largest step budget the raycaster accepts; keeps the accumulated distance
/// far below the integer limit.
pub const MAX_RAY_STEPS: usize = 1000000;

/// Result of a raycast: whether an opaque cell was found, the cell and local
/// position where the walk ended, the accumulated physical distance at
/// fixed-point scale, and the number of boundary crossings taken. A miss
/// carries the physical distance too, so the two cases stay comparable.
pub struct RayResult {
    pub hit: bool,
    pub cell: usize,
    pub pos: [u64; 3],
    pub dist: u64,
    pub steps: usize,
}

/// Raycast outcome at the mathematical level.
pub ghost struct RayOutcome {
    pub hit: bool,
    pub cell: int,
    pub pos: Seq<int>,
    pub dist: int,
    pub steps: int,
}

/// The walk itself: step across the current cell, follow the crossed face's
/// neighbor link, stop as soon as the cell just entered is opaque, give up
/// when the fuel runs out.
pub open spec fn spec_raycast(
    cells: Seq<VoxelPair>,
    i: int,
    ps: Seq<int>,
    ds: Seq<int>,
    fuel: nat,
) -> RayOutcome
    decreases fuel,
{
    if fuel == 0 {
        RayOutcome { hit: false, cell: i, pos: ps, dist: 0, steps: 0 }
    } else {
        let a = crossed_axis(ps, ds);
        let np = step_pos(ps, ds);
        let dl = step_len(ps, ds);
        let ni = spec_neighbor(cells, i, a, ds[a] >= 0);
        if !cells[ni].voxel.transparent {
            RayOutcome { hit: true, cell: ni, pos: np, dist: dl, steps: 1 }
        } else {
            let rest = spec_raycast(cells, ni, np, ds, (fuel - 1) as nat);
            RayOutcome {
                hit: rest.hit,
                cell: rest.cell,
                pos: rest.pos,
                dist: dl + rest.dist,
                steps: 1 + rest.steps,
            }
        }
    }
}

/// Walk the graph from `vox_id` along `ray` until a newly entered cell is
/// opaque or `max_steps` crossings have been taken.
pub fn raycast(
    world: &World,
    vox_id: usize,
    basepoint: [u64; 3],
    ray: [i64; 3],
    max_steps: usize,
) -> (r: RayResult)
    requires
        world.wf(),
        vox_id < world.cells@.len(),
        pos_ok(pos_view(basepoint)),
        dir_ok(dir_view(ray)),
        max_steps <= MAX_RAY_STEPS,
    ensures
        ({
            let o = spec_raycast(
                world.cells@,
                vox_id as int,
                pos_view(basepoint),
                dir_view(ray),
                max_steps as nat,
            );
            &&& r.hit == o.hit
            &&& r.cell == o.cell
            &&& pos_view(r.pos) == o.pos
            &&& r.dist == o.dist
            &&& r.steps == o.steps
        }),
        r.cell < world.cells@.len(),
        pos_ok(pos_view(r.pos)),
        r.hit ==> !world.cells@[r.cell as int].voxel.transparent,
        !r.hit ==> r.steps == max_steps,
        r.dist <= 2 * ONE * max_steps,
{
    let ghost cells = world.cells@;
    let ghost ds = dir_view(ray);
    let ghost full = spec_raycast(cells, vox_id as int, pos_view(basepoint), ds, max_steps as nat);
    let mut i = vox_id;
    let mut x = basepoint;
    let mut dist: u64 = 0;
    let mut step: usize = 0;
    while step < max_steps
        invariant
            world.wf(),
            cells == world.cells@,
            ds == dir_view(ray),
            dir_ok(ds),
            full == spec_raycast(cells, vox_id as int, pos_view(basepoint), ds, max_steps as nat),
            max_steps <= MAX_RAY_STEPS,
            step <= max_steps,
            i < cells.len(),
            pos_ok(pos_view(x)),
            dist <= 2 * ONE * step,
            ({
                let rem = spec_raycast(cells, i as int, pos_view(x), ds, (max_steps - step) as nat);
                &&& full.hit == rem.hit
                &&& full.cell == rem.cell
                &&& full.pos == rem.pos
                &&& full.dist == dist + rem.dist
                &&& full.steps == step + rem.steps
            }),
        decreases max_steps - step,
    {
        let ghost rem = spec_raycast(cells, i as int, pos_view(x), ds, (max_steps - step) as nat);
        let s = advance(x, ray);
        let ni = world.neighbor(i, s.axis, s.positive);
        assert(ni == spec_neighbor(cells, i as int, crossed_axis(pos_view(x), ds), ds[
            crossed_axis(pos_view(x), ds)] >= 0));
        proof {
            assert(2 * ONE == 131072);
            assert(2 * ONE * step == 131072 * step);
            assert(2 * ONE * (step + 1) == 131072 * (step + 1));
        }
        x = s.pos;
        i = ni;
        dist = dist + s.len;
        step = step + 1;
        if !world.transparent(i) {
            assert(rem.hit && rem.cell == i && rem.pos == pos_view(x) && rem.dist == s.len
                && rem.steps == 1);
            return RayResult { hit: true, cell: i, pos: x, dist, steps: step };
        }
    }
    assert(spec_raycast(cells, i as int, pos_view(x), ds, 0) == RayOutcome {
        hit: false,
        cell: i as int,
        pos: pos_view(x),
        dist: 0,
        steps: 0,
    });
    RayResult { hit: false, cell: i, pos: x, dist, steps: step }
}

/// A ray whose first crossing enters an opaque cell hits that cell after
/// exactly one step, at the crossing point, and the reported distance is the
/// Euclidean length of that single step's displacement.
pub proof fn lemma_adjacent_hit(cells: Seq<VoxelPair>, i: int, ps: Seq<int>, ds: Seq<int>, fuel: nat)
    requires
        pos_ok(ps),
        dir_ok(ds),
        fuel >= 1,
        !cells[spec_neighbor(cells, i, crossed_axis(ps, ds), ds[crossed_axis(ps, ds)]
            >= 0)].voxel.transparent,
    ensures
        ({
            let o = spec_raycast(cells, i, ps, ds, fuel);
            &&& o.hit
            &&& o.cell == spec_neighbor(cells, i, crossed_axis(ps, ds), ds[crossed_axis(ps, ds)]
                >= 0)
            &&& o.steps == 1
            &&& o.pos == step_pos(ps, ds)
            &&& o.dist == step_len(ps, ds)
        }),
{
}

/// The cell reached after `m` crossings of one axis's links in one
/// direction.
pub open spec fn axis_chain(
    cells: Seq<VoxelPair>,
    i: int,
    axis: int,
    positive: bool,
    m: nat,
) -> int
    decreases m,
{
    if m == 0 {
        i
    } else {
        spec_neighbor(cells, axis_chain(cells, i, axis, positive, (m - 1) as nat), axis, positive)
    }
}

proof fn lemma_axis_chain_shift(cells: Seq<VoxelPair>, i: int, axis: int, positive: bool, m: nat)
    ensures
        axis_chain(cells, spec_neighbor(cells, i, axis, positive), axis, positive, m)
            == axis_chain(cells, i, axis, positive, (m + 1) as nat),
    decreases m,
{
    let ni = spec_neighbor(cells, i, axis, positive);
    if m == 0 {
        assert(axis_chain(cells, ni, axis, positive, 0) == ni);
        assert(axis_chain(cells, i, axis, positive, 0) == i);
        assert(axis_chain(cells, i, axis, positive, 1) == spec_neighbor(
            cells,
            axis_chain(cells, i, axis, positive, 0),
            axis,
            positive,
        ));
    } else {
        lemma_axis_chain_shift(cells, i, axis, positive, (m - 1) as nat);
    }
}

/// A direction aligned with one axis: that component nonzero and bounded,
/// every other component zero.
pub open spec fn axis_dir_ok(ds: Seq<int>, axis: int, positive: bool) -> bool {
    &&& ds.len() == 3
    &&& 0 <= axis < 3
    &&& ds[axis] != 0
    &&& positive == (ds[axis] >= 0)
    &&& -(DIR_MAX as int) <= ds[axis] <= DIR_MAX as int
    &&& forall|b: int| 0 <= b < 3 && b != axis ==> ds[b] == 0
}

/// A ray aligned with one axis walks that axis's chain of links: when the
/// first `n - 1` cells after the start are see-through and the `n`-th is
/// opaque, the raycast hits that cell after exactly `n` crossings, whatever
/// the starting offset inside the cell, and the accumulated distance is the
/// gap to the first face plus one full cell per further crossing.
pub proof fn lemma_straight_run(
    cells: Seq<VoxelPair>,
    i: int,
    ps: Seq<int>,
    ds: Seq<int>,
    axis: int,
    positive: bool,
    n: nat,
    fuel: nat,
)
    requires
        pos_ok(ps),
        axis_dir_ok(ds, axis, positive),
        1 <= n <= fuel,
        forall|m: nat|
            1 <= m < n ==> cells[#[trigger] axis_chain(
                cells,
                i,
                axis,
                positive,
                m,
            )].voxel.transparent,
        !cells[axis_chain(cells, i, axis, positive, n)].voxel.transparent,
    ensures
        ({
            let o = spec_raycast(cells, i, ps, ds, fuel);
            &&& o.hit
            &&& o.cell == axis_chain(cells, i, axis, positive, n)
            &&& o.steps == n
            &&& o.dist == exit_num(ps, ds, axis) + (n - 1) * ONE
        }),
    decreases n,
{
    let gap = exit_num(ps, ds, axis);
    let den = exit_den(ds, axis);
    assert(den > 0);
    assert(0 <= gap <= ONE);
    assert(crossed_axis(ps, ds) == axis);
    let ni = spec_neighbor(cells, i, axis, positive);
    assert(axis_chain(cells, i, axis, positive, 0) == i);
    assert(ni == axis_chain(cells, i, axis, positive, 1));
    let np = step_pos(ps, ds);
    // the two other axes do not move: their components are zero
    assert forall|b: int| 0 <= b < 3 && b != axis implies #[trigger] step_mag(ps, ds, b) == 0 by {
        assert(exit_den(ds, b) == 0);
        assert(gap * exit_den(ds, b) == 0) by (nonlinear_arith)
            requires
                exit_den(ds, b) == 0,
        ;
        vstd::arithmetic::div_mod::lemma_div_of0(den);
    }
    // the crossed axis moves by exactly the gap, and the step's length is it
    assert(step_mag(ps, ds, axis) == (gap * den) / den);
    lemma_div_by_multiple(gap, den);
    assert(step_mag(ps, ds, axis) == gap);
    assert(step_len_sq(ps, ds) == gap * gap);
    assert(gap * gap < (gap + 1) * (gap + 1)) by (nonlinear_arith)
        requires
            gap >= 0,
    ;
    lemma_sqrt_floor_unique(gap * gap, gap);
    assert(step_len(ps, ds) == gap);
    assert(np[axis] == if positive { 0int } else { ONE as int });
    assert(forall|b: int| 0 <= b < 3 && b != axis ==> np[b] == ps[b]);
    assert(pos_ok(np));
    assert(exit_num(np, ds, axis) == ONE);
    if n == 1 {
        assert(!cells[ni].voxel.transparent);
    } else {
        assert(cells[axis_chain(cells, i, axis, positive, 1)].voxel.transparent);
        assert(cells[ni].voxel.transparent);
        assert forall|m: nat| 1 <= m < n - 1 implies cells[#[trigger] axis_chain(
            cells,
            ni,
            axis,
            positive,
            m,
        )].voxel.transparent by {
            lemma_axis_chain_shift(cells, i, axis, positive, m);
            assert(cells[axis_chain(cells, i, axis, positive, (m + 1) as nat)].voxel.transparent);
        }
        lemma_axis_chain_shift(cells, i, axis, positive, (n - 1) as nat);
        assert(!cells[axis_chain(cells, ni, axis, positive, (n - 1) as nat)].voxel.transparent);
        lemma_straight_run(cells, ni, np, ds, axis, positive, (n - 1) as nat, (fuel - 1) as nat);
        let rest = spec_raycast(cells, ni, np, ds, (fuel - 1) as nat);
        assert(rest.dist == ONE + (n - 2) * ONE);
        assert(gap + rest.dist == gap + (n - 1) * ONE);
    }
}

} // verus!
