//! The per-pixel renderer: build a ray direction from the look basis and the
//! pixel's angular offsets, raycast it through the world, and resolve a
//! distance-fogged color against an ambient background. Each pixel reads the
//! world and camera only, so a frontend may compute pixels in parallel.

use vstd::prelude::*;
use vstd::arithmetic::div_mod::{lemma_div_is_ordered, lemma_div_by_multiple};
use vstd::arithmetic::mul::lemma_mul_upper_bound;
use crate::num::ONE;
use crate::ray::{pos_ok, dir_ok, pos_view, dir_view, raycast, spec_raycast, MAX_RAY_STEPS};
use crate::world::{World, color_ok, colors_ok};
use crate::camera::basis_ok;

verus! {

/// Largest angular coefficient accepted per pixel, two units: the arctangent
/// warp stays below a right angle, well within it.
pub const COEFF_MAX: u64 = 131072;

/// Numerator of the fog scale: the diagonal of a unit cube, so fog saturates
/// roughly when the traveled distance reaches the view distance times the
/// cube diagonal fraction.
pub const FOG_NUM: u64 = 17321;

/// Denominator of the fog scale.
pub const FOG_DEN: u64 = 10000;

/// Product of two fixed-point factors, scaled back to fixed point, rounded
/// toward zero.
pub open spec fn muldiv_one(c: int, v: int) -> int {
    if c >= 0 && v >= 0 {
        c * v / (ONE as int)
    } else if c < 0 && v < 0 {
        (-c) * (-v) / (ONE as int)
    } else if c < 0 {
        -((-c) * v / (ONE as int))
    } else {
        -(c * (-v) / (ONE as int))
    }
}

/// Multiply an angular coefficient by a basis component, at fixed-point
/// scale.
fn scale_basis(c: i64, v: i64) -> (r: i64)
    requires
        -(COEFF_MAX as int) <= c <= COEFF_MAX as int,
        -(ONE as int) <= v <= ONE as int,
    ensures
        r == muldiv_one(c as int, v as int),
        -(COEFF_MAX as int) <= r <= COEFF_MAX as int,
{
    let mc: u64 = if c >= 0 {
        c as u64
    } else {
        (-c) as u64
    };
    let mv: u64 = if v >= 0 {
        v as u64
    } else {
        (-v) as u64
    };
    proof {
        lemma_mul_upper_bound(mc as int, COEFF_MAX as int, mv as int, ONE as int);
        lemma_div_is_ordered((mc * mv) as int, (COEFF_MAX * ONE) as int, ONE as int);
        lemma_div_by_multiple(COEFF_MAX as int, ONE as int);
        assert((mc * mv) as int / (ONE as int) <= COEFF_MAX as int);
        assert(((mc as int) * (mv as int) == c * v) || ((mc as int) * (mv as int) == -(c * v)))
            by (nonlinear_arith)
            requires
                (mc == c || mc as int == -c) && (mv == v || mv as int == -v),
        ;
    }
    let p = mc * mv / ONE;
    if (c >= 0) == (v >= 0) {
        proof {
            if c >= 0 && v >= 0 {
                assert((mc as int) * (mv as int) == c * v) by (nonlinear_arith)
                    requires
                        mc == c && mv == v,
                ;
            } else {
                assert((mc as int) * (mv as int) == (-c) * (-v)) by (nonlinear_arith)
                    requires
                        mc as int == -c && mv as int == -v,
                ;
            }
        }
        p as i64
    } else {
        proof {
            if c < 0 {
                assert((mc as int) * (mv as int) == (-c) * v) by (nonlinear_arith)
                    requires
                        mc as int == -c && mv == v,
                ;
            } else {
                assert((mc as int) * (mv as int) == c * (-v)) by (nonlinear_arith)
                    requires
                        mc == c && mv as int == -v,
                ;
            }
        }
        -(p as i64)
    }
}

/// One component of the ray through a pixel: the look direction, deflected
/// sideways by the right-offset and upward by the negated up-offset.
pub open spec fn pixel_ray_comp(
    look: Seq<int>,
    up: Seq<int>,
    rightv: Seq<int>,
    rc: int,
    uc: int,
    a: int,
) -> int {
    look[a] + muldiv_one(rc, rightv[a]) - muldiv_one(uc, up[a])
}

/// Build the ray direction for a pixel whose angular offsets along the right
/// and up basis vectors are `rc` and `uc`.
pub fn pixel_ray(look: [i64; 3], up: [i64; 3], rightv: [i64; 3], rc: i64, uc: i64) -> (ray: [i64;
    3])
    requires
        basis_ok(dir_view(look)),
        basis_ok(dir_view(up)),
        basis_ok(dir_view(rightv)),
        -(COEFF_MAX as int) <= rc <= COEFF_MAX as int,
        -(COEFF_MAX as int) <= uc <= COEFF_MAX as int,
    ensures
        forall|a: int|
            0 <= a < 3 ==> #[trigger] dir_view(ray)[a] == pixel_ray_comp(
                dir_view(look),
                dir_view(up),
                dir_view(rightv),
                rc as int,
                uc as int,
                a,
            ),
        forall|a: int|
            0 <= a < 3 ==> -5 * (ONE as int) <= #[trigger] dir_view(ray)[a] <= 5 * (ONE as int),
{
    proof {
        assert(-(ONE as int) <= dir_view(look)[0] <= ONE && -(ONE as int) <= dir_view(look)[1]
            <= ONE && -(ONE as int) <= dir_view(look)[2] <= ONE);
        assert(-(ONE as int) <= dir_view(up)[0] <= ONE && -(ONE as int) <= dir_view(up)[1] <= ONE
            && -(ONE as int) <= dir_view(up)[2] <= ONE);
        assert(-(ONE as int) <= dir_view(rightv)[0] <= ONE && -(ONE as int) <= dir_view(rightv)[1]
            <= ONE && -(ONE as int) <= dir_view(rightv)[2] <= ONE);
    }
    let r0 = look[0] + scale_basis(rc, rightv[0]) - scale_basis(uc, up[0]);
    let r1 = look[1] + scale_basis(rc, rightv[1]) - scale_basis(uc, up[1]);
    let r2 = look[2] + scale_basis(rc, rightv[2]) - scale_basis(uc, up[2]);
    let ray: [i64; 3] = [r0, r1, r2];
    assert(dir_view(ray)[0] == pixel_ray_comp(
        dir_view(look),
        dir_view(up),
        dir_view(rightv),
        rc as int,
        uc as int,
        0,
    ));
    assert(dir_view(ray)[1] == pixel_ray_comp(
        dir_view(look),
        dir_view(up),
        dir_view(rightv),
        rc as int,
        uc as int,
        1,
    ));
    assert(dir_view(ray)[2] == pixel_ray_comp(
        dir_view(look),
        dir_view(up),
        dir_view(rightv),
        rc as int,
        uc as int,
        2,
    ));
    ray
}

/// The fog blend weight for a traveled distance, saturating at full fog.
pub open spec fn fog_fade(dist: int, view_steps: int) -> int {
    let f = (FOG_NUM as int) * dist / ((FOG_DEN as int) * view_steps);
    if f > ONE {
        ONE as int
    } else {
        f
    }
}

/// The fog weight pulled halfway toward full fog, dimming the targeted cell.
pub open spec fn highlight(f: int) -> int {
    (f + ONE) / 2
}

/// One color channel blended between the ambient background and the hit
/// cell's color by the fog weight.
pub open spec fn blend_channel(f: int, amb: int, col: int) -> int {
    (f * amb + (ONE - f) * col) / (ONE as int)
}

/// Blend one channel.
fn blend_one(f: u64, amb: u64, col: u64) -> (r: u64)
    requires
        f <= ONE,
        amb <= ONE,
        col <= ONE,
    ensures
        r == blend_channel(f as int, amb as int, col as int),
{
    proof {
        lemma_mul_upper_bound(f as int, ONE as int, amb as int, ONE as int);
        lemma_mul_upper_bound((ONE - f) as int, ONE as int, col as int, ONE as int);
    }
    (f * amb + (ONE - f) * col) / ONE
}

/// A rendered pixel: the resolved color and the raw traveled distance, kept
/// for reuse by depth-based effects.
pub struct Pixel {
    pub color: [u64; 4],
    pub dist: u64,
}

/// Render one pixel: raycast from the camera cell along the pixel's ray out
/// to the view-distance budget, fade the hit cell's color into the ambient
/// background with the traveled distance, and dim the pixel when it shows
/// the currently targeted cell. A degenerate all-zero ray yields the plain
/// ambient background at distance zero.
pub fn render_pixel(
    world: &World,
    cam_i: usize,
    cam_pos: [u64; 3],
    ray: [i64; 3],
    target: usize,
    view_steps: usize,
    ambient: [u64; 4],
) -> (px: Pixel)
    requires
        world.wf(),
        colors_ok(world.cells@),
        cam_i < world.cells@.len(),
        pos_ok(pos_view(cam_pos)),
        forall|a: int| 0 <= a < 3 ==> -5 * (ONE as int) <= #[trigger] dir_view(ray)[a] <= 5 * (
        ONE as int),
        1 <= view_steps <= MAX_RAY_STEPS,
        color_ok(ambient),
    ensures
        ({
            if dir_ok(dir_view(ray)) {
                let o = spec_raycast(
                    world.cells@,
                    cam_i as int,
                    pos_view(cam_pos),
                    dir_view(ray),
                    view_steps as nat,
                );
                let f0 = fog_fade(o.dist, view_steps as int);
                let f = if o.cell == target {
                    highlight(f0)
                } else {
                    f0
                };
                &&& px.dist == o.dist
                &&& forall|c: int|
                    0 <= c < 4 ==> color_view(px.color)[c] == blend_channel(
                        f,
                        color_view(ambient)[c],
                        color_view(world.cells@[o.cell].voxel.color)[c],
                    )
            } else {
                px.dist == 0 && px.color == ambient
            }
        }),
{
    if ray[0] == 0 && ray[1] == 0 && ray[2] == 0 {
        assert(!dir_ok(dir_view(ray)));
        return Pixel { color: ambient, dist: 0 };
    }
    assert(dir_ok(dir_view(ray)));
    let r = raycast(world, cam_i, cam_pos, ray, view_steps);
    proof {
        assert(2 * ONE == 131072);
        assert(2 * ONE * view_steps == 131072 * (view_steps as int));
        lemma_mul_upper_bound(FOG_NUM as int, FOG_NUM as int, r.dist as int, 131072000000int);
        lemma_mul_upper_bound(
            FOG_DEN as int,
            FOG_DEN as int,
            view_steps as int,
            MAX_RAY_STEPS as int,
        );
        assert(FOG_DEN * view_steps >= FOG_DEN) by (nonlinear_arith)
            requires
                view_steps >= 1,
        ;
    }
    let num = FOG_NUM * r.dist;
    let den = FOG_DEN * (view_steps as u64);
    let f0 = num / den;
    let fc = if f0 > ONE {
        ONE
    } else {
        f0
    };
    let f = if r.cell == target {
        (fc + ONE) / 2
    } else {
        fc
    };
    let col = world.color(r.cell);
    proof {
        assert(color_ok(world.cells@[r.cell as int].voxel.color));
    }
    let out: [u64; 4] = [
        blend_one(f, ambient[0], col[0]),
        blend_one(f, ambient[1], col[1]),
        blend_one(f, ambient[2], col[2]),
        blend_one(f, ambient[3], col[3]),
    ];
    let px = Pixel { color: out, dist: r.dist };
    assert(color_view(px.color)[0] == blend_channel(f as int, ambient[0] as int, col[0] as int));
    assert(color_view(px.color)[1] == blend_channel(f as int, ambient[1] as int, col[1] as int));
    assert(color_view(px.color)[2] == blend_channel(f as int, ambient[2] as int, col[2] as int));
    assert(color_view(px.color)[3] == blend_channel(f as int, ambient[3] as int, col[3] as int));
    px
}

/// A color as a mathematical quadruple.
pub open spec fn color_view(c: [u64; 4]) -> Seq<int> {
    seq![c[0] as int, c[1] as int, c[2] as int, c[3] as int]
}

} // verus!
