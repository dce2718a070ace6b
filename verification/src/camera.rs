//! The camera controller: player position as (cell index, local offset),
//! movement from held keys along a look basis, gravity with a ground check,
//! per-axis cell rebasing after boundary crossings, and the two block edits,
//! all built on the raycaster and the neighbor links.

use vstd::prelude::*;
use vstd::arithmetic::div_mod::{lemma_div_is_ordered, lemma_div_multiples_vanish};
use vstd::arithmetic::mul::lemma_mul_upper_bound;
use crate::num::{ONE, isqrt, sqrt_floor};
use crate::ray::{pos_ok, dir_ok, pos_view, dir_view, raycast, spec_raycast, MAX_RAY_STEPS};
use crate::world::{World, VoxelPair, spec_neighbor};

verus! {

/// Local height at and below which a cell above opaque ground counts as
/// standing on it: half a cell.
pub const GROUND_LEVEL: u64 = 32768;

/// Per-tick decrease of the upward velocity while airborne.
pub const GRAVITY_DECREMENT: i64 = 655;

/// Upward velocity set by a jump from the ground.
pub const JUMP_VELOCITY: i64 = 13107;

/// Largest fall speed; capping here keeps every per-tick displacement within
/// one cell, so a single rebase per axis always restores the local offset.
pub const MAX_FALL: i64 = 49152;

/// Largest movement speed the controller accepts, for the same reason.
pub const MAX_MOVE: u64 = 16384;

/// The player camera: current cell, local offset within it, configured
/// movement speed and current vertical velocity, all at fixed-point scale.
pub struct Camera {
    pub i: usize,
    pub position: [u64; 3],
    pub movement_speed: u64,
    pub upward_velocity: i64,
}

impl Camera {
    /// The camera sits in a valid cell, inside the unit cube, with bounded
    /// speed and velocity.
    pub open spec fn wf(self, world_len: int) -> bool {
        &&& self.i < world_len
        &&& pos_ok(pos_view(self.position))
        &&& self.movement_speed <= MAX_MOVE
        &&& -MAX_FALL <= self.upward_velocity <= MAX_FALL
    }
}

/// The held movement keys of one tick.
pub struct MoveKeys {
    pub forward: bool,
    pub back: bool,
    pub left: bool,
    pub right: bool,
    pub down: bool,
    pub jump: bool,
}

/// A basis vector handed in by the frontend: a unit vector at fixed-point
/// scale, so each component's magnitude is at most `ONE`.
pub open spec fn basis_ok(v: Seq<int>) -> bool {
    &&& v.len() == 3
    &&& forall|a: int| 0 <= a < 3 ==> -(ONE as int) <= #[trigger] v[a] <= ONE as int
}

/// Desired direction accumulated from the held keys: forward/back along the
/// look vector, strafing along the right vector, straight down when
/// descending.
pub open spec fn key_delta(look: Seq<int>, rightv: Seq<int>, keys: MoveKeys, a: int) -> int {
    (if keys.forward { look[a] } else { 0 }) - (if keys.back { look[a] } else { 0 }) + (if keys.right { rightv[a] } else { 0 })
        - (if keys.left { rightv[a] } else { 0 }) - (if keys.down && a == 1 { ONE as int } else { 0 })
}

/// The full desired-direction vector.
pub open spec fn key_vec(look: Seq<int>, rightv: Seq<int>, keys: MoveKeys) -> Seq<int> {
    seq![
        key_delta(look, rightv, keys, 0),
        key_delta(look, rightv, keys, 1),
        key_delta(look, rightv, keys, 2),
    ]
}

/// Fixed-point Euclidean norm of a vector.
pub open spec fn vec_norm(v: Seq<int>) -> int {
    sqrt_floor(v[0] * v[0] + v[1] * v[1] + v[2] * v[2])
}

/// One component of the desired direction normalized to unit length and
/// scaled by the movement speed; a zero vector stays exactly zero.
pub open spec fn scaled_comp(v: Seq<int>, speed: int, a: int) -> int {
    let n = vec_norm(v);
    if n == 0 {
        0
    } else if v[a] >= 0 {
        v[a] * speed / n
    } else {
        -((-v[a]) * speed / n)
    }
}

/// One component of the desired movement direction for the held keys.
fn key_comp(look: &[i64; 3], rightv: &[i64; 3], keys: &MoveKeys, a: usize) -> (c: i64)
    requires
        basis_ok(dir_view(*look)),
        basis_ok(dir_view(*rightv)),
        a < 3,
    ensures
        c == key_delta(dir_view(*look), dir_view(*rightv), *keys, a as int),
        -3 * (ONE as int) <= c <= 3 * (ONE as int),
{
    let mut c: i64 = 0;
    if keys.forward {
        c = c + look[a];
    }
    if keys.back {
        c = c - look[a];
    }
    if keys.right {
        c = c + rightv[a];
    }
    if keys.left {
        c = c - rightv[a];
    }
    if keys.down && a == 1 {
        c = c - (ONE as i64);
    }
    c
}

/// Accumulate the desired movement direction from the held keys.
pub fn movement_delta(look: [i64; 3], rightv: [i64; 3], keys: &MoveKeys) -> (d: [i64; 3])
    requires
        basis_ok(dir_view(look)),
        basis_ok(dir_view(rightv)),
    ensures
        forall|a: int|
            0 <= a < 3 ==> #[trigger] dir_view(d)[a] == key_delta(
                dir_view(look),
                dir_view(rightv),
                *keys,
                a,
            ),
        forall|a: int| 0 <= a < 3 ==> -3 * (ONE as int) <= #[trigger] dir_view(d)[a] <= 3 * (
        ONE as int),
{
    let d: [i64; 3] = [
        key_comp(&look, &rightv, keys, 0),
        key_comp(&look, &rightv, keys, 1),
        key_comp(&look, &rightv, keys, 2),
    ];
    assert(dir_view(d)[0] == key_delta(dir_view(look), dir_view(rightv), *keys, 0));
    assert(dir_view(d)[1] == key_delta(dir_view(look), dir_view(rightv), *keys, 1));
    assert(dir_view(d)[2] == key_delta(dir_view(look), dir_view(rightv), *keys, 2));
    d
}

/// Normalize the desired direction and scale it by the movement speed. A
/// zero vector stays zero rather than failing; every component of the result
/// is bounded by the speed.
pub fn normalize_scale(d: [i64; 3], speed: u64) -> (r: [i64; 3])
    requires
        speed <= MAX_MOVE,
        forall|a: int| 0 <= a < 3 ==> -3 * (ONE as int) <= #[trigger] dir_view(d)[a] <= 3 * (
        ONE as int),
    ensures
        forall|a: int|
            0 <= a < 3 ==> #[trigger] dir_view(r)[a] == scaled_comp(
                dir_view(d),
                speed as int,
                a,
            ),
        forall|a: int|
            0 <= a < 3 ==> -(speed as int) <= #[trigger] dir_view(r)[a] <= speed as int,
{
    proof {
        assert(-3 * (ONE as int) <= dir_view(d)[0] <= 3 * (ONE as int));
        assert(-3 * (ONE as int) <= dir_view(d)[1] <= 3 * (ONE as int));
        assert(-3 * (ONE as int) <= dir_view(d)[2] <= 3 * (ONE as int));
    }
    let m0: u64 = if d[0] >= 0 {
        d[0] as u64
    } else {
        (-d[0]) as u64
    };
    let m1: u64 = if d[1] >= 0 {
        d[1] as u64
    } else {
        (-d[1]) as u64
    };
    let m2: u64 = if d[2] >= 0 {
        d[2] as u64
    } else {
        (-d[2]) as u64
    };
    proof {
        lemma_mul_upper_bound(m0 as int, 3 * ONE as int, m0 as int, 3 * ONE as int);
        lemma_mul_upper_bound(m1 as int, 3 * ONE as int, m1 as int, 3 * ONE as int);
        lemma_mul_upper_bound(m2 as int, 3 * ONE as int, m2 as int, 3 * ONE as int);
    }
    let sq = m0 * m0 + m1 * m1 + m2 * m2;
    let ghost dv = dir_view(d);
    proof {
        assert((m0 as int) * (m0 as int) == dv[0] * dv[0]) by (nonlinear_arith)
            requires
                m0 == dv[0] || m0 as int == -dv[0],
        ;
        assert((m1 as int) * (m1 as int) == dv[1] * dv[1]) by (nonlinear_arith)
            requires
                m1 == dv[1] || m1 as int == -dv[1],
        ;
        assert((m2 as int) * (m2 as int) == dv[2] * dv[2]) by (nonlinear_arith)
            requires
                m2 == dv[2] || m2 as int == -dv[2],
        ;
    }
    assert(sq == dv[0] * dv[0] + dv[1] * dv[1] + dv[2] * dv[2]);
    let n = isqrt(sq);
    if n == 0 {
        assert(m0 * m0 >= 0 && m1 * m1 >= 0 && m2 * m2 >= 0);
        let r: [i64; 3] = [0, 0, 0];
        assert(forall|a: int|
            0 <= a < 3 ==> #[trigger] dir_view(r)[a] == scaled_comp(dv, speed as int, a));
        r
    } else {
        proof {
            // each component's square is below the total, so each magnitude
            // is bounded by the norm
            assert(m0 * m0 <= sq && m1 * m1 <= sq && m2 * m2 <= sq);
            assert(m0 <= n && m1 <= n && m2 <= n) by (nonlinear_arith)
                requires
                    m0 * m0 <= sq && m1 * m1 <= sq && m2 * m2 <= sq && (n + 1) * (n + 1) > sq && n
                        >= 0 && m0 >= 0 && m1 >= 0 && m2 >= 0,
            ;
            lemma_mul_upper_bound(m0 as int, 3 * ONE as int, speed as int, MAX_MOVE as int);
            lemma_mul_upper_bound(m1 as int, 3 * ONE as int, speed as int, MAX_MOVE as int);
            lemma_mul_upper_bound(m2 as int, 3 * ONE as int, speed as int, MAX_MOVE as int);
            vstd::arithmetic::mul::lemma_mul_inequality(m0 as int, n as int, speed as int);
            vstd::arithmetic::mul::lemma_mul_inequality(m1 as int, n as int, speed as int);
            vstd::arithmetic::mul::lemma_mul_inequality(m2 as int, n as int, speed as int);
            lemma_div_is_ordered((m0 * speed) as int, (n * speed) as int, n as int);
            lemma_div_is_ordered((m1 * speed) as int, (n * speed) as int, n as int);
            lemma_div_is_ordered((m2 * speed) as int, (n * speed) as int, n as int);
            lemma_div_multiples_vanish(speed as int, n as int);
        }
        let s0 = m0 * speed / n;
        let s1 = m1 * speed / n;
        let s2 = m2 * speed / n;
        let r: [i64; 3] = [
            if d[0] >= 0 {
                s0 as i64
            } else {
                -(s0 as i64)
            },
            if d[1] >= 0 {
                s1 as i64
            } else {
                -(s1 as i64)
            },
            if d[2] >= 0 {
                s2 as i64
            } else {
                -(s2 as i64)
            },
        ];
        r
    }
}

/// Standing on ground: the cell below is opaque and the camera sits in the
/// lower half of its cell.
pub open spec fn spec_on_ground(cells: Seq<VoxelPair>, cam: Camera) -> bool {
    &&& !cells[spec_neighbor(cells, cam.i as int, 1, false)].voxel.transparent
    &&& cam.position[1] <= GROUND_LEVEL
}

/// The vertical velocity after one tick: reset on the ground, set by a jump
/// from the ground, otherwise pulled down by gravity to at most the terminal
/// fall speed.
pub open spec fn next_velocity(on_ground: bool, jump: bool, v: int) -> int {
    let v1 = if on_ground {
        0
    } else if v - GRAVITY_DECREMENT >= -(MAX_FALL as int) {
        v - GRAVITY_DECREMENT
    } else {
        -(MAX_FALL as int)
    };
    if jump && on_ground {
        JUMP_VELOCITY as int
    } else {
        v1
    }
}

/// The local coordinate of axis `a` after movement and gravity, before
/// rebasing; it can leave the unit range by less than one cell.
pub open spec fn raw_coord(
    cells: Seq<VoxelPair>,
    cam: Camera,
    look: Seq<int>,
    rightv: Seq<int>,
    keys: MoveKeys,
    a: int,
) -> int {
    cam.position[a] + scaled_comp(key_vec(look, rightv, keys), cam.movement_speed as int, a) + (
    if a == 1 {
        next_velocity(spec_on_ground(cells, cam), keys.jump, cam.upward_velocity as int)
    } else {
        0
    })
}

/// The cell after rebasing one axis: crossing below zero moves to the
/// negative neighbor, crossing above one to the positive neighbor.
pub open spec fn rebase_cell(cells: Seq<VoxelPair>, i: int, a: int, c: int) -> int {
    if c < 0 {
        spec_neighbor(cells, i, a, false)
    } else if c > ONE {
        spec_neighbor(cells, i, a, true)
    } else {
        i
    }
}

/// The local coordinate after rebasing one axis, shifted back into the unit
/// range of the new cell's frame.
pub open spec fn rebase_coord(c: int) -> int {
    if c < 0 {
        c + ONE
    } else if c > ONE {
        c - ONE
    } else {
        c
    }
}

/// The camera's cell after one tick: each axis rebased in turn.
pub open spec fn tick_cell(
    cells: Seq<VoxelPair>,
    cam: Camera,
    look: Seq<int>,
    rightv: Seq<int>,
    keys: MoveKeys,
) -> int {
    let i1 = rebase_cell(cells, cam.i as int, 0, raw_coord(cells, cam, look, rightv, keys, 0));
    let i2 = rebase_cell(cells, i1, 1, raw_coord(cells, cam, look, rightv, keys, 1));
    rebase_cell(cells, i2, 2, raw_coord(cells, cam, look, rightv, keys, 2))
}

/// The camera's local coordinate of axis `a` after one tick: rebased, and on
/// the vertical axis clamped to the ground level while standing on ground.
pub open spec fn tick_coord(
    cells: Seq<VoxelPair>,
    cam: Camera,
    look: Seq<int>,
    rightv: Seq<int>,
    keys: MoveKeys,
    a: int,
) -> int {
    let c = rebase_coord(raw_coord(cells, cam, look, rightv, keys, a));
    if a == 1 && spec_on_ground(cells, cam) && c < GROUND_LEVEL {
        GROUND_LEVEL as int
    } else {
        c
    }
}

/// With no keys held, gravity alone moves the camera: the movement
/// contribution vanishes on every axis, the vertical coordinate changes by
/// exactly the new velocity, and while the camera is airborne and not rising
/// it strictly descends each tick; on the ground the velocity resets to
/// zero. Together with `camera_tick`'s exact per-tick contract this pins the
/// fall toward the ground.
pub proof fn lemma_gravity_descends(
    cells: Seq<VoxelPair>,
    cam: Camera,
    look: Seq<int>,
    rightv: Seq<int>,
    keys: MoveKeys,
)
    requires
        !keys.forward && !keys.back && !keys.left && !keys.right && !keys.down && !keys.jump,
    ensures
        forall|a: int|
            0 <= a < 3 ==> scaled_comp(
                key_vec(look, rightv, keys),
                cam.movement_speed as int,
                a,
            ) == 0,
        raw_coord(cells, cam, look, rightv, keys, 1) == cam.position[1] + next_velocity(
            spec_on_ground(cells, cam),
            false,
            cam.upward_velocity as int,
        ),
        !spec_on_ground(cells, cam) && cam.upward_velocity <= 0 ==> raw_coord(
            cells,
            cam,
            look,
            rightv,
            keys,
            1,
        ) < cam.position[1],
        spec_on_ground(cells, cam) ==> next_velocity(
            spec_on_ground(cells, cam),
            keys.jump,
            cam.upward_velocity as int,
        ) == 0,
{
    let kv = key_vec(look, rightv, keys);
    assert(kv[0] == 0 && kv[1] == 0 && kv[2] == 0);
    assert(vec_norm(kv) == sqrt_floor(0));
    assert(sqrt_floor(0) == 0);
    assert(forall|a: int|
        0 <= a < 3 ==> scaled_comp(kv, cam.movement_speed as int, a) == 0);
}

/// Whether the camera currently stands on opaque ground.
pub fn on_ground(world: &World, cam: &Camera) -> (g: bool)
    requires
        world.wf(),
        cam.i < world.cells@.len(),
    ensures
        g == spec_on_ground(world.cells@, *cam),
{
    let below = world.neighbor(cam.i, 1, false);
    !world.transparent(below) && cam.position[1] <= GROUND_LEVEL
}

/// Rebase one axis: follow the neighbor link if the coordinate left the unit
/// range and shift the coordinate into the new cell's frame.
fn rebase_axis(world: &World, i: usize, axis: usize, c: i64) -> (r: (usize, u64))
    requires
        world.wf(),
        i < world.cells@.len(),
        axis < 3,
        -(ONE as int) <= c <= 2 * (ONE as int),
    ensures
        r.0 == rebase_cell(world.cells@, i as int, axis as int, c as int),
        r.1 == rebase_coord(c as int),
        r.0 < world.cells@.len(),
        r.1 <= ONE,
{
    if c < 0 {
        (world.neighbor(i, axis, false), (c + ONE as i64) as u64)
    } else if c > ONE as i64 {
        (world.neighbor(i, axis, true), (c - ONE as i64) as u64)
    } else {
        (i, c as u64)
    }
}

/// One tick of the camera controller: integrate held-key movement along the
/// look basis, apply gravity or a jump, rebase each axis that crossed a cell
/// boundary, and clamp to the ground level while standing on ground. The
/// vertical velocity resets to zero exactly when the camera stands on ground
/// and does not jump.
pub fn camera_tick(
    cam: &mut Camera,
    world: &World,
    look: [i64; 3],
    rightv: [i64; 3],
    keys: &MoveKeys,
)
    requires
        world.wf(),
        old(cam).wf(world.cells@.len() as int),
        basis_ok(dir_view(look)),
        basis_ok(dir_view(rightv)),
    ensures
        final(cam).wf(world.cells@.len() as int),
        final(cam).movement_speed == old(cam).movement_speed,
        final(cam).upward_velocity == next_velocity(
            spec_on_ground(world.cells@, *old(cam)),
            keys.jump,
            old(cam).upward_velocity as int,
        ),
        spec_on_ground(world.cells@, *old(cam)) && !keys.jump ==> final(cam).upward_velocity == 0,
        final(cam).i == tick_cell(world.cells@, *old(cam), dir_view(look), dir_view(rightv), *keys),
        forall|a: int|
            0 <= a < 3 ==> pos_view(final(cam).position)[a] == tick_coord(
                world.cells@,
                *old(cam),
                dir_view(look),
                dir_view(rightv),
                *keys,
                a,
            ),
{
    let ghost cells = world.cells@;
    let ghost cam0 = *cam;
    let og = on_ground(world, cam);
    let mut v = cam.upward_velocity;
    if og {
        v = 0;
    } else if v - GRAVITY_DECREMENT >= -MAX_FALL {
        v = v - GRAVITY_DECREMENT;
    } else {
        v = -MAX_FALL;
    }
    if keys.jump && og {
        v = JUMP_VELOCITY;
    }
    assert(v == next_velocity(og, keys.jump, cam0.upward_velocity as int));
    let dd = movement_delta(look, rightv, keys);
    let mv = normalize_scale(dd, cam.movement_speed);
    proof {
        assert(dir_view(dd) =~= key_vec(dir_view(look), dir_view(rightv), *keys));
        assert(0 <= pos_view(cam0.position)[0] <= ONE);
        assert(0 <= pos_view(cam0.position)[1] <= ONE);
        assert(0 <= pos_view(cam0.position)[2] <= ONE);
        assert(-(cam0.movement_speed as int) <= dir_view(mv)[0] <= cam0.movement_speed);
        assert(-(cam0.movement_speed as int) <= dir_view(mv)[1] <= cam0.movement_speed);
        assert(-(cam0.movement_speed as int) <= dir_view(mv)[2] <= cam0.movement_speed);
    }
    let raw0 = cam.position[0] as i64 + mv[0];
    let raw1 = cam.position[1] as i64 + mv[1] + v;
    let raw2 = cam.position[2] as i64 + mv[2];
    let (i1, c0) = rebase_axis(world, cam.i, 0, raw0);
    let (i2, c1) = rebase_axis(world, i1, 1, raw1);
    let (i3, c2) = rebase_axis(world, i2, 2, raw2);
    let c1f = if og && c1 < GROUND_LEVEL {
        GROUND_LEVEL
    } else {
        c1
    };
    cam.i = i3;
    cam.position = [c0, c1f, c2];
    cam.upward_velocity = v;
    proof {
        assert(raw0 == raw_coord(cells, cam0, dir_view(look), dir_view(rightv), *keys, 0));
        assert(raw1 == raw_coord(cells, cam0, dir_view(look), dir_view(rightv), *keys, 1));
        assert(raw2 == raw_coord(cells, cam0, dir_view(look), dir_view(rightv), *keys, 2));
        assert(pos_view(cam.position)[0] == c0);
        assert(pos_view(cam.position)[1] == c1f);
        assert(pos_view(cam.position)[2] == c2);
    }
}

/// Negation of a direction.
pub open spec fn neg_dir(ds: Seq<int>) -> Seq<int> {
    seq![-ds[0], -ds[1], -ds[2]]
}

/// Raycast along the look direction up to `reach` crossings and make the
/// targeted cell see-through, as the break edit does. Exactly the targeted
/// cell changes, and only its appearance.
pub fn break_block(world: &mut World, start: usize, pos: [u64; 3], look: [i64; 3], reach: usize)
    requires
        old(world).wf(),
        start < old(world).cells@.len(),
        pos_ok(pos_view(pos)),
        dir_ok(dir_view(look)),
        reach <= MAX_RAY_STEPS,
    ensures
        ({
            let t = spec_raycast(
                old(world).cells@,
                start as int,
                pos_view(pos),
                dir_view(look),
                reach as nat,
            );
            &&& final(world).cells@.len() == old(world).cells@.len()
            &&& final(world).wf()
            &&& final(world).cells@[t.cell].voxel.transparent
            &&& final(world).cells@[t.cell].voxel.color == old(world).cells@[t.cell].voxel.color
            &&& final(world).cells@[t.cell].neighbors == old(world).cells@[t.cell].neighbors
            &&& forall|m: int|
                0 <= m < old(world).cells@.len() && m != t.cell ==> final(world).cells@[m] == old(
                    world,
                ).cells@[m]
        }),
{
    let t = raycast(world, start, pos, look, reach);
    world.break_cell(t.cell);
}

/// Raycast along the look direction up to `reach` crossings; if the targeted
/// cell is opaque, step once backward from the hit point to the adjacent
/// cell the player faces and fill it with the chosen color, as the place
/// edit does. If the targeted cell is see-through nothing changes.
pub fn place_block(
    world: &mut World,
    start: usize,
    pos: [u64; 3],
    look: [i64; 3],
    reach: usize,
    color: [u64; 4],
)
    requires
        old(world).wf(),
        start < old(world).cells@.len(),
        pos_ok(pos_view(pos)),
        dir_ok(dir_view(look)),
        reach <= MAX_RAY_STEPS,
        crate::world::color_ok(color),
    ensures
        final(world).cells@.len() == old(world).cells@.len(),
        final(world).wf(),
        crate::world::colors_ok(old(world).cells@) ==> crate::world::colors_ok(
            final(world).cells@,
        ),
        ({
            let t = spec_raycast(
                old(world).cells@,
                start as int,
                pos_view(pos),
                dir_view(look),
                reach as nat,
            );
            if !old(world).cells@[t.cell].voxel.transparent {
                let b = spec_raycast(
                    old(world).cells@,
                    t.cell,
                    t.pos,
                    neg_dir(dir_view(look)),
                    1,
                );
                &&& !final(world).cells@[b.cell].voxel.transparent
                &&& final(world).cells@[b.cell].voxel.color == color
                &&& final(world).cells@[b.cell].neighbors == old(world).cells@[b.cell].neighbors
                &&& forall|m: int|
                    0 <= m < old(world).cells@.len() && m != b.cell ==> final(world).cells@[m]
                        == old(world).cells@[m]
            } else {
                final(world).cells@ == old(world).cells@
            }
        }),
{
    let t = raycast(world, start, pos, look, reach);
    if !world.transparent(t.cell) {
        let back: [i64; 3] = [-look[0], -look[1], -look[2]];
        proof {
            assert(dir_view(back) =~= neg_dir(dir_view(look)));
        }
        let b = raycast(world, t.cell, t.pos, back, 1);
        world.fill_cell(b.cell, color);
    }
}

} // verus!
