use voxeltorus::camera::{
    break_block, camera_tick, on_ground, place_block, Camera, MoveKeys, GROUND_LEVEL,
    JUMP_VELOCITY,
};
use voxeltorus::num::ONE;
use voxeltorus::world::{build_world, furl};

fn no_keys() -> MoveKeys {
    MoveKeys { forward: false, back: false, left: false, right: false, down: false, jump: false }
}

const LOOK_X: [i64; 3] = [65536, 0, 0];
const RIGHT_Z: [i64; 3] = [0, 0, 65536];

#[test]
fn gravity_steps_down_to_ground_then_velocity_resets() {
    // ny = 2: the cell (0,1,0) floats directly above opaque ground
    let w = build_world(2, 2, 2);
    let mut cam = Camera {
        i: furl(0, 1, 0, 2, 2),
        position: [32768, 39322, 32768],  // local y = 0.6
        movement_speed: 6554,
        upward_velocity: 0,
    };
    assert!(!on_ground(&w, &cam));
    let mut ticks = 0;
    while !on_ground(&w, &cam) {
        camera_tick(&mut cam, &w, LOOK_X, RIGHT_Z, &no_keys());
        ticks += 1;
        assert!(ticks < 100, "never reached the ground");
        // falling: the camera only ever moves down
        assert!(cam.upward_velocity < 0);
    }
    assert!(cam.position[1] <= GROUND_LEVEL);
    // the next tick stands on ground: velocity resets and the height clamps
    camera_tick(&mut cam, &w, LOOK_X, RIGHT_Z, &no_keys());
    assert_eq!(cam.upward_velocity, 0);
    assert_eq!(cam.position[1], GROUND_LEVEL);
}

#[test]
fn jump_from_ground_sets_fixed_upward_velocity() {
    let w = build_world(2, 2, 2);
    let mut cam = Camera {
        i: furl(0, 1, 0, 2, 2),
        position: [32768, GROUND_LEVEL, 32768],
        movement_speed: 6554,
        upward_velocity: 0,
    };
    assert!(on_ground(&w, &cam));
    let mut keys = no_keys();
    keys.jump = true;
    camera_tick(&mut cam, &w, LOOK_X, RIGHT_Z, &keys);
    assert_eq!(cam.upward_velocity, JUMP_VELOCITY);
    assert_eq!(cam.position[1], GROUND_LEVEL + JUMP_VELOCITY as u64);
}

#[test]
fn still_keys_leave_the_camera_in_place() {
    let w = build_world(2, 2, 2);
    let start = furl(0, 1, 0, 2, 2);
    let mut cam = Camera {
        i: start,
        position: [32768, GROUND_LEVEL, 32768],
        movement_speed: 6554,
        upward_velocity: 0,
    };
    camera_tick(&mut cam, &w, LOOK_X, RIGHT_Z, &no_keys());
    assert_eq!(cam.i, start);
    assert_eq!(cam.position, [32768, GROUND_LEVEL, 32768]);
}

#[test]
fn forward_movement_scales_to_the_movement_speed() {
    let w = build_world(2, 2, 2);
    let mut cam = Camera {
        i: furl(0, 1, 0, 2, 2),
        position: [16384, GROUND_LEVEL, 32768],
        movement_speed: 6554,
        upward_velocity: 0,
    };
    let mut keys = no_keys();
    keys.forward = true;
    camera_tick(&mut cam, &w, LOOK_X, RIGHT_Z, &keys);
    // the look vector is a unit vector, so the step is the full speed
    assert_eq!(cam.position[0], 16384 + 6554);
}

#[test]
fn crossing_a_boundary_rebases_into_the_neighbor_cell() {
    let w = build_world(2, 2, 2);
    let start = furl(0, 1, 0, 2, 2);
    let mut cam = Camera {
        i: start,
        position: [ONE - 1000, GROUND_LEVEL, 32768],
        movement_speed: 6554,
        upward_velocity: 0,
    };
    let mut keys = no_keys();
    keys.forward = true;
    camera_tick(&mut cam, &w, LOOK_X, RIGHT_Z, &keys);
    assert_eq!(cam.i, w.cells[start].neighbors.up_x);
    assert_eq!(cam.position[0], ONE - 1000 + 6554 - ONE);
}

#[test]
fn diagonal_keys_move_no_faster_than_the_speed() {
    let w = build_world(2, 2, 2);
    let mut cam = Camera {
        i: furl(0, 1, 0, 2, 2),
        position: [32768, GROUND_LEVEL, 32768],
        movement_speed: 6554,
        upward_velocity: 0,
    };
    let mut keys = no_keys();
    keys.forward = true;
    keys.right = true;
    camera_tick(&mut cam, &w, LOOK_X, RIGHT_Z, &keys);
    let dx = cam.position[0] as i64 - 32768;
    let dz = cam.position[2] as i64 - 32768;
    let len2 = dx * dx + dz * dz;
    assert!(len2 <= 6554 * 6554);
    // and it still moves at nearly full speed
    assert!(len2 >= 6400 * 6400);
}

#[test]
fn break_block_clears_the_targeted_cell() {
    let w = &mut build_world(2, 2, 2);
    let eye = furl(0, 1, 0, 2, 2);
    let ground = furl(0, 0, 0, 2, 2);
    assert!(!w.cells[ground].voxel.transparent);
    // look straight down at the ground cell
    break_block(w, eye, [32768, 32768, 32768], [0, -65536, 0], 16);
    assert!(w.cells[ground].voxel.transparent);
}

#[test]
fn place_block_fills_the_cell_in_front_of_the_hit_face() {
    let w = &mut build_world(4, 4, 4);
    let eye = furl(0, 2, 0, 4, 4);
    let chosen = [32768, 26214, 19660, ONE];
    // look straight down: the hit cell is the ground below, and the cell in
    // front of the hit face is the eye's own cell
    place_block(w, eye, [32768, 32768, 32768], [0, -65536, 0], 16, chosen);
    assert!(!w.cells[eye].voxel.transparent);
    assert_eq!(w.cells[eye].voxel.color, chosen);
}

#[test]
fn place_block_does_nothing_on_a_transparent_target() {
    let w = &mut build_world(2, 4, 2);
    // looking up from open space: nothing opaque within reach, the miss cell
    // is transparent, so nothing may change
    let eye = furl(0, 2, 0, 4, 2);
    let before: Vec<bool> = w.cells.iter().map(|p| p.voxel.transparent).collect();
    place_block(w, eye, [32768, 32768, 32768], [0, 65536, 0], 1, [1, 2, 3, 4]);
    for m in 0..w.cells.len() {
        assert_eq!(w.cells[m].voxel.transparent, before[m]);
    }
}
