use voxeltorus::num::ONE;
use voxeltorus::ray::{advance, raycast};
use voxeltorus::world::{Neighbors, Voxel, VoxelPair, World, build_world, furl};

fn line_world(len: usize, opaque_at: usize) -> World {
    // a closed loop of cells along x; every other link points at the cell itself
    let mut cells = Vec::new();
    for m in 0..len {
        cells.push(VoxelPair {
            voxel: Voxel { color: [0, 0, 0, ONE], transparent: m != opaque_at },
            neighbors: Neighbors {
                up_x: (m + 1) % len,
                down_x: (m + len - 1) % len,
                up_y: m,
                down_y: m,
                up_z: m,
                down_z: m,
            },
        });
    }
    World { cells }
}

#[test]
fn advance_keeps_coordinates_in_unit_range() {
    let cases: [([u64; 3], [i64; 3]); 5] = [
        ([100, 30000, 65000], [3, -7, 11]),
        ([0, 0, 0], [1, 1, 1]),
        ([65536, 65536, 65536], [-1, -1, -1]),
        ([32768, 32768, 32768], [0, 0, -5]),
        ([11111, 22222, 44444], [-65536, 65536, 12345]),
    ];
    for (p, d) in cases {
        let s = advance(p, d);
        for a in 0..3 {
            assert!(s.pos[a] <= ONE, "coordinate left the unit range");
        }
        assert!(s.axis < 3);
        assert!(d[s.axis] != 0);
    }
}

#[test]
fn advance_tie_prefers_lowest_axis() {
    // from the center with equal components the exit parameters tie on all axes
    let s = advance([32768, 32768, 32768], [5, 5, 5]);
    assert_eq!(s.axis, 0);
    assert!(s.positive);
    // tie between the last two axes only
    let s = advance([32768, 16384, 16384], [0, 4, 4]);
    assert_eq!(s.axis, 1);
    // negative direction crossing wraps the coordinate to the far face
    let s = advance([32768, 32768, 32768], [-3, 0, 0]);
    assert_eq!(s.axis, 0);
    assert!(!s.positive);
    assert_eq!(s.pos[0], ONE);
}

#[test]
fn adjacent_opaque_cell_hits_in_one_step() {
    let w = line_world(4, 1);
    let r = raycast(&w, 0, [32768, 32768, 32768], [1, 0, 0], 16);
    assert!(r.hit);
    assert_eq!(r.cell, 1);
    assert_eq!(r.steps, 1);
    // half a cell of straight travel, exactly at fixed-point scale
    assert_eq!(r.dist, 32768);
    // the entry point sits on the crossed face
    assert_eq!(r.pos, [0, 32768, 32768]);
}

#[test]
fn straight_transparent_run_takes_one_step_per_cell() {
    for n in 1..6 {
        let w = line_world(8, n);
        let r = raycast(&w, 0, [32768, 32768, 32768], [9, 0, 0], 100);
        assert!(r.hit);
        assert_eq!(r.cell, n);
        assert_eq!(r.steps, n);
        // half a cell out of the start, then one full cell per crossing
        assert_eq!(r.dist, 32768 + (n as u64 - 1) * 65536);
    }
}

#[test]
fn straight_run_works_along_a_negative_axis_too() {
    // a 1x8x1 torus column; carve a shaft so that two see-through cells
    // stand between the start and the next opaque one below
    let mut w = build_world(1, 8, 1);
    w.break_cell(furl(0, 3, 0, 8, 1));
    w.break_cell(furl(0, 2, 0, 8, 1));
    let start = furl(0, 4, 0, 8, 1);
    let r = raycast(&w, start, [32768, 32768, 32768], [0, -7, 0], 100);
    assert!(r.hit);
    assert_eq!(r.cell, furl(0, 1, 0, 8, 1));
    assert_eq!(r.steps, 3);
    assert_eq!(r.dist, 32768 + 2 * 65536);
}

#[test]
fn miss_reports_budget_steps_and_physical_distance() {
    let w = line_world(4, 0);
    // start inside the only opaque cell: the walk never enters it anew within
    // a short budget that ends among transparent cells
    let r = raycast(&w, 1, [32768, 32768, 32768], [1, 0, 0], 2);
    assert!(!r.hit);
    assert_eq!(r.steps, 2);
    // half a cell, then one whole cell
    assert_eq!(r.dist, 32768 + 65536);
}

#[test]
fn diagonal_raycast_across_torus_reaches_corner_cell() {
    // a 4x4x4 lattice, all transparent except cell (0,0,0)
    let mut w = build_world(4, 4, 4);
    let total = 4 * 4 * 4;
    for m in 0..total {
        w.break_cell(m);
    }
    w.fill_cell(0, [40000, 40000, 40000, ONE]);
    let start = furl(2, 2, 2, 4, 4);
    let r = raycast(&w, start, [32768, 32768, 32768], [-1, -1, -1], 128);
    assert!(r.hit);
    assert_eq!(r.cell, 0);
    // six axis crossings: x, y, z out of (2,2,2), then x, y, z into (0,0,0)
    assert_eq!(r.steps, 6);
    // the straight-line length to the entry corner of (0,0,0) is 1.5 * sqrt(3)
    // cells; the fixed-point walk accumulates it to within a few ticks
    let expected = 1.5_f64 * 3.0_f64.sqrt() * 65536.0;
    assert!((r.dist as f64 - expected).abs() < 4.0, "dist {} vs {}", r.dist, expected);
    assert_eq!(r.dist, 170266);
}
