use voxeltorus::num::ONE;
use voxeltorus::world::{build_world, furl, BAND, HALF};

#[test]
fn torus_adjacency_is_invertible() {
    let w = build_world(3, 4, 5);
    for m in 0..w.cells.len() {
        let nb = &w.cells[m].neighbors;
        assert_eq!(w.cells[nb.up_x].neighbors.down_x, m);
        assert_eq!(w.cells[nb.down_x].neighbors.up_x, m);
        assert_eq!(w.cells[nb.up_y].neighbors.down_y, m);
        assert_eq!(w.cells[nb.down_y].neighbors.up_y, m);
        assert_eq!(w.cells[nb.up_z].neighbors.down_z, m);
        assert_eq!(w.cells[nb.down_z].neighbors.up_z, m);
    }
}

#[test]
fn torus_adjacency_is_invertible_in_degenerate_lattices() {
    // extents of one wrap straight back to the same cell
    for (nx, ny, nz) in [(1, 1, 1), (1, 2, 3), (2, 1, 1)] {
        let w = build_world(nx, ny, nz);
        for m in 0..w.cells.len() {
            let nb = &w.cells[m].neighbors;
            assert_eq!(w.cells[nb.up_x].neighbors.down_x, m);
            assert_eq!(w.cells[nb.down_y].neighbors.up_y, m);
            assert_eq!(w.cells[nb.up_z].neighbors.down_z, m);
        }
    }
}

#[test]
fn torus_links_wrap_at_the_edges() {
    let w = build_world(4, 4, 4);
    let corner = furl(3, 0, 3, 4, 4);
    let nb = &w.cells[corner].neighbors;
    assert_eq!(nb.up_x, furl(0, 0, 3, 4, 4));
    assert_eq!(nb.down_y, furl(3, 3, 3, 4, 4));
    assert_eq!(nb.up_z, furl(3, 0, 0, 4, 4));
}

#[test]
fn ground_half_is_opaque_with_banded_colors() {
    let w = build_world(4, 4, 4);
    for i in 0..4 {
        for j in 0..4 {
            for k in 0..4 {
                let v = &w.cells[furl(i, j, k, 4, 4)].voxel;
                if j < 2 {
                    assert!(!v.transparent);
                    for c in 0..3 {
                        assert!(HALF <= v.color[c] && v.color[c] <= HALF + BAND);
                    }
                } else {
                    assert!(v.transparent);
                }
                assert_eq!(v.color[3], ONE);
            }
        }
    }
}

#[test]
fn break_then_fill_restores_opacity_with_new_color() {
    let mut w = build_world(2, 2, 2);
    let ground = furl(0, 0, 0, 2, 2);
    let before = w.cells[ground].voxel.color;
    w.break_cell(ground);
    assert!(w.cells[ground].voxel.transparent);
    let chosen = [32768, 26214, 19660, ONE];
    w.fill_cell(ground, chosen);
    assert!(!w.cells[ground].voxel.transparent);
    assert_eq!(w.cells[ground].voxel.color, chosen);
    assert_ne!(w.cells[ground].voxel.color, before);
}

#[test]
fn edits_touch_only_the_edited_cell() {
    let mut w = build_world(3, 3, 3);
    let snapshot: Vec<(bool, [u64; 4])> =
        w.cells.iter().map(|p| (p.voxel.transparent, p.voxel.color)).collect();
    let target = furl(1, 1, 1, 3, 3);
    w.break_cell(target);
    w.fill_cell(target, [40000, 40000, 40000, ONE]);
    for m in 0..w.cells.len() {
        if m != target {
            assert_eq!(w.cells[m].voxel.transparent, snapshot[m].0);
            assert_eq!(w.cells[m].voxel.color, snapshot[m].1);
        }
    }
}
