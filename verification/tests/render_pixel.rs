use voxeltorus::num::ONE;
use voxeltorus::render::{pixel_ray, render_pixel};
use voxeltorus::world::{Neighbors, Voxel, VoxelPair, World};

fn two_cell_world(hit_color: [u64; 4]) -> World {
    let mut cells = Vec::new();
    for m in 0..2usize {
        cells.push(VoxelPair {
            voxel: Voxel {
                color: if m == 1 { hit_color } else { [0, 0, 0, ONE] },
                transparent: m == 0,
            },
            neighbors: Neighbors {
                up_x: 1 - m,
                down_x: 1 - m,
                up_y: m,
                down_y: m,
                up_z: m,
                down_z: m,
            },
        });
    }
    World { cells }
}

#[test]
fn pixel_ray_combines_the_basis_exactly() {
    let look = [65536, 0, 0];
    let up = [0, 65536, 0];
    let rightv = [0, 0, 65536];
    // a quarter unit to the right, an eighth unit downward on screen
    let ray = pixel_ray(look, up, rightv, 16384, -8192);
    assert_eq!(ray, [65536, 8192, 16384]);
    // centered pixel: the ray is the look direction itself
    let ray = pixel_ray(look, up, rightv, 0, 0);
    assert_eq!(ray, [65536, 0, 0]);
}

#[test]
fn fog_blends_toward_ambient_with_distance() {
    let w = two_cell_world([ONE, ONE, ONE, ONE]);
    // half a cell of travel against a 16-cell view budget
    let px = render_pixel(&w, 0, [32768, 32768, 32768], [65536, 0, 0], 999, 16, [0, 0, 0, ONE]);
    assert_eq!(px.dist, 32768);
    // fade = 17321 * 32768 / (10000 * 16) = 3547; each white channel drops by it
    let fade = 17321u64 * 32768 / (10000 * 16);
    assert_eq!(fade, 3547);
    let expected = (ONE - fade) * ONE / ONE;
    assert_eq!(px.color[0], expected);
    assert_eq!(px.color[1], expected);
    assert_eq!(px.color[2], expected);
    // the ambient's full fourth channel pulls the blend back up
    assert_eq!(px.color[3], (fade * ONE + (ONE - fade) * ONE) / ONE);
}

#[test]
fn targeted_cell_is_dimmed_halfway() {
    let w = two_cell_world([ONE, ONE, ONE, ONE]);
    let plain = render_pixel(&w, 0, [32768, 32768, 32768], [65536, 0, 0], 999, 16, [0, 0, 0, ONE]);
    let marked = render_pixel(&w, 0, [32768, 32768, 32768], [65536, 0, 0], 1, 16, [0, 0, 0, ONE]);
    let fade = 3547u64;
    let dimmed = (fade + ONE) / 2;
    assert_eq!(marked.color[0], (ONE - dimmed) * ONE / ONE);
    assert!(marked.color[0] < plain.color[0]);
    assert_eq!(marked.dist, plain.dist);
}

#[test]
fn far_miss_saturates_into_ambient() {
    // nothing opaque at all: the walk runs out its budget far away
    let mut w = two_cell_world([0, 0, 0, ONE]);
    w.cells[1].voxel.transparent = true;
    let ambient = [4096, 8192, 12288, ONE];
    let px = render_pixel(&w, 0, [32768, 32768, 32768], [65536, 0, 0], 999, 64, ambient);
    // 63.5 cells of travel over a 64-cell budget saturates the fog
    assert_eq!(px.color, ambient);
}

#[test]
fn degenerate_ray_yields_plain_ambient() {
    let w = two_cell_world([ONE, ONE, ONE, ONE]);
    let ambient = [100, 200, 300, ONE];
    let px = render_pixel(&w, 0, [32768, 32768, 32768], [0, 0, 0], 999, 16, ambient);
    assert_eq!(px.color, ambient);
    assert_eq!(px.dist, 0);
}
