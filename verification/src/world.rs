//! The voxel graph: a flat arena of cells, each carrying its appearance and
//! the indices of its six face neighbors. Topology is whatever the links say;
//! the regular 3-torus is produced by `build_world`.

use vstd::prelude::*;
use vstd::arithmetic::div_mod::{lemma_fundamental_div_mod_converse, lemma_small_mod};
use vstd::arithmetic::mul::lemma_mul_is_associative;
use crate::num::ONE;

verus! {

/// Appearance of one unit-cube cell: a see-through flag and a fixed-point
/// RGBA color whose channels lie in `[0, ONE]` (the fourth channel is kept
/// at `ONE`).
#[derive(Clone, Copy)]
pub struct Voxel {
    pub color: [u64; 4],
    pub transparent: bool,
}

/// The six neighbor links of a cell, one per axis and direction.
#[derive(Clone, Copy)]
pub struct Neighbors {
    pub up_x: usize,
    pub down_x: usize,
    pub up_y: usize,
    pub down_y: usize,
    pub up_z: usize,
    pub down_z: usize,
}

/// One arena slot: a cell's appearance together with its links.
#[derive(Clone, Copy)]
pub struct VoxelPair {
    pub voxel: Voxel,
    pub neighbors: Neighbors,
}

/// The whole world: an arena of cells addressed by index.
pub struct World {
    pub cells: Vec<VoxelPair>,
}

/// A color whose channels all lie within the fixed-point unit range.
pub open spec fn color_ok(c: [u64; 4]) -> bool {
    c[0] <= ONE && c[1] <= ONE && c[2] <= ONE && c[3] <= ONE
}

/// Every cell's color channels lie within the fixed-point unit range.
pub open spec fn colors_ok(cells: Seq<VoxelPair>) -> bool {
    forall|m: int| 0 <= m < cells.len() ==> color_ok((#[trigger] cells[m]).voxel.color)
}

/// The neighbor index stored at `i` for the given axis and direction.
pub open spec fn spec_neighbor(cells: Seq<VoxelPair>, i: int, axis: int, positive: bool) -> int {
    let n = cells[i].neighbors;
    if axis == 0 {
        if positive { n.up_x as int } else { n.down_x as int }
    } else if axis == 1 {
        if positive { n.up_y as int } else { n.down_y as int }
    } else {
        if positive { n.up_z as int } else { n.down_z as int }
    }
}

impl World {
    /// Every neighbor link points back into the arena.
    pub open spec fn wf(self) -> bool {
        forall|i: int, axis: int, positive: bool|
            0 <= i < self.cells@.len() && 0 <= axis < 3 ==> 0 <= #[trigger] spec_neighbor(
                self.cells@,
                i,
                axis,
                positive,
            ) < self.cells@.len()
    }

    pub fn len(&self) -> (n: usize)
        ensures
            n == self.cells@.len(),
    {
        self.cells.len()
    }

    /// Follow one neighbor link.
    pub fn neighbor(&self, i: usize, axis: usize, positive: bool) -> (j: usize)
        requires
            self.wf(),
            i < self.cells@.len(),
            axis < 3,
        ensures
            j == spec_neighbor(self.cells@, i as int, axis as int, positive),
            j < self.cells@.len(),
    {
        proof {
            assert(0 <= spec_neighbor(self.cells@, i as int, axis as int, positive)
                < self.cells@.len());
        }
        let n = &self.cells[i].neighbors;
        if axis == 0 {
            if positive { n.up_x } else { n.down_x }
        } else if axis == 1 {
            if positive { n.up_y } else { n.down_y }
        } else {
            if positive { n.up_z } else { n.down_z }
        }
    }

    pub fn transparent(&self, i: usize) -> (t: bool)
        requires
            i < self.cells@.len(),
        ensures
            t == self.cells@[i as int].voxel.transparent,
    {
        self.cells[i].voxel.transparent
    }

    pub fn color(&self, i: usize) -> (c: [u64; 4])
        requires
            i < self.cells@.len(),
        ensures
            c == self.cells@[i as int].voxel.color,
    {
        self.cells[i].voxel.color
    }

    /// Make the cell see-through, as a block-break edit does. Appearance of
    /// every other cell, all colors and all links stay as they were.
    pub fn break_cell(&mut self, i: usize)
        requires
            i < old(self).cells@.len(),
        ensures
            final(self).cells@.len() == old(self).cells@.len(),
            final(self).cells@[i as int].voxel.transparent,
            final(self).cells@[i as int].voxel.color == old(self).cells@[i as int].voxel.color,
            final(self).cells@[i as int].neighbors == old(self).cells@[i as int].neighbors,
            forall|m: int|
                0 <= m < old(self).cells@.len() && m != i ==> final(self).cells@[m] == old(
                    self,
                ).cells@[m],
            old(self).wf() ==> final(self).wf(),
            colors_ok(old(self).cells@) ==> colors_ok(final(self).cells@),
    {
        let p = self.cells[i];
        self.cells[i] = VoxelPair {
            voxel: Voxel { color: p.voxel.color, transparent: true },
            neighbors: p.neighbors,
        };
        proof {
            if old(self).wf() {
                assert forall|m: int, axis: int, positive: bool|
                    0 <= m < self.cells@.len() && 0 <= axis < 3 implies 0 <= #[trigger]
                    spec_neighbor(self.cells@, m, axis, positive) < self.cells@.len() by {
                    assert(spec_neighbor(self.cells@, m, axis, positive) == spec_neighbor(
                        old(self).cells@,
                        m,
                        axis,
                        positive,
                    ));
                }
            }
        }
    }

    /// Make the cell opaque with the given color, as a block-place edit does.
    /// Appearance of every other cell and all links stay as they were.
    pub fn fill_cell(&mut self, i: usize, color: [u64; 4])
        requires
            i < old(self).cells@.len(),
            color_ok(color),
        ensures
            final(self).cells@.len() == old(self).cells@.len(),
            !final(self).cells@[i as int].voxel.transparent,
            final(self).cells@[i as int].voxel.color == color,
            final(self).cells@[i as int].neighbors == old(self).cells@[i as int].neighbors,
            forall|m: int|
                0 <= m < old(self).cells@.len() && m != i ==> final(self).cells@[m] == old(
                    self,
                ).cells@[m],
            old(self).wf() ==> final(self).wf(),
            colors_ok(old(self).cells@) ==> colors_ok(final(self).cells@),
    {
        let p = self.cells[i];
        self.cells[i] = VoxelPair {
            voxel: Voxel { color, transparent: false },
            neighbors: p.neighbors,
        };
        proof {
            if old(self).wf() {
                assert forall|m: int, axis: int, positive: bool|
                    0 <= m < self.cells@.len() && 0 <= axis < 3 implies 0 <= #[trigger]
                    spec_neighbor(self.cells@, m, axis, positive) < self.cells@.len() by {
                    assert(spec_neighbor(self.cells@, m, axis, positive) == spec_neighbor(
                        old(self).cells@,
                        m,
                        axis,
                        positive,
                    ));
                }
            }
        }
    }
}

/// Breaking a cell and then filling the same cell — each step changing that
/// cell alone, as `break_cell` and `fill_cell` promise — restores opacity
/// with the newly chosen color, whatever the cell held before, and leaves
/// every other cell exactly as it started.
pub proof fn lemma_break_then_fill(w0: World, w1: World, w2: World, i: int, color: [u64; 4])
    requires
        0 <= i < w0.cells@.len(),
        w1.cells@.len() == w0.cells@.len(),
        w1.cells@[i].voxel.transparent,
        forall|m: int| 0 <= m < w0.cells@.len() && m != i ==> w1.cells@[m] == w0.cells@[m],
        w2.cells@.len() == w1.cells@.len(),
        !w2.cells@[i].voxel.transparent,
        w2.cells@[i].voxel.color == color,
        forall|m: int| 0 <= m < w1.cells@.len() && m != i ==> w2.cells@[m] == w1.cells@[m],
    ensures
        !w2.cells@[i].voxel.transparent,
        w2.cells@[i].voxel.color == color,
        forall|m: int| 0 <= m < w0.cells@.len() && m != i ==> w2.cells@[m] == w0.cells@[m],
{
}

/// Row-major flattening of lattice coordinates into a cell index.
pub open spec fn spec_furl(i: int, j: int, k: int, ny: int, nz: int) -> int {
    i * ny * nz + j * nz + k
}

/// A lattice coordinate triple maps into the arena of an `nx * ny * nz`
/// lattice.
pub proof fn lemma_furl_range(i: int, j: int, k: int, nx: int, ny: int, nz: int)
    by (nonlinear_arith)
    requires
        0 <= i < nx,
        0 <= j < ny,
        0 <= k < nz,
    ensures
        0 <= spec_furl(i, j, k, ny, nz) < nx * ny * nz,
{
}

/// Flattening respects lexicographic order of the coordinates.
pub proof fn lemma_furl_mono(
    i1: int,
    j1: int,
    k1: int,
    i2: int,
    j2: int,
    k2: int,
    ny: int,
    nz: int,
)
    by (nonlinear_arith)
    requires
        0 <= i1,
        0 <= j1 < ny,
        0 <= k1 < nz,
        0 <= i2,
        0 <= j2 < ny,
        0 <= k2 < nz,
        i1 < i2 || (i1 == i2 && j1 < j2) || (i1 == i2 && j1 == j2 && k1 < k2),
    ensures
        spec_furl(i1, j1, k1, ny, nz) < spec_furl(i2, j2, k2, ny, nz),
{
}

/// Flatten a coordinate triple. The arithmetic stays within the machine
/// range whenever the flattened index does.
pub fn furl(i: usize, j: usize, k: usize, ny: usize, nz: usize) -> (n: usize)
    requires
        j < ny,
        k < nz,
        spec_furl(i as int, j as int, k as int, ny as int, nz as int) <= usize::MAX,
    ensures
        n == spec_furl(i as int, j as int, k as int, ny as int, nz as int),
{
    proof {
        lemma_mul_is_associative(i as int, ny as int, nz as int);
        assert(i * ny <= i * ny * nz && 0 <= i * ny && j * nz <= j * nz + k) by (nonlinear_arith)
            requires
                0 <= i,
                0 <= j,
                0 <= k,
                0 < ny,
                0 < nz,
        ;
        assert(i * ny * nz + j * nz + k <= usize::MAX);
        assert(0 <= j * nz) by (nonlinear_arith)
            requires
                0 <= j,
                0 < nz,
        ;
    }
    i * ny * nz + j * nz + k
}

/// Next coordinate along an axis of extent `n`, wrapping at the end.
pub fn wrap_inc(i: usize, n: usize) -> (r: usize)
    requires
        i < n,
    ensures
        r == (i + 1) % (n as int),
        r < n,
{
    if i + 1 == n {
        proof {
            lemma_fundamental_div_mod_converse(i + 1, n as int, 1, 0);
        }
        0
    } else {
        proof {
            lemma_fundamental_div_mod_converse(i + 1, n as int, 0, i + 1 as int);
        }
        i + 1
    }
}

/// Previous coordinate along an axis of extent `n`, wrapping at the start.
pub fn wrap_dec(i: usize, n: usize) -> (r: usize)
    requires
        i < n,
    ensures
        r == (i - 1) % (n as int),
        r < n,
{
    if i == 0 {
        proof {
            lemma_fundamental_div_mod_converse(-1, n as int, -1, n - 1);
        }
        n - 1
    } else {
        proof {
            lemma_fundamental_div_mod_converse(i - 1, n as int, 0, i - 1);
        }
        i - 1
    }
}

/// Lower edge of the ground color band, half intensity.
pub const HALF: u64 = 32768;

/// Width of the ground color band, five hundredths of full intensity.
pub const BAND: u64 = 3276;

/// A channel drawn from the narrow mottled-ground band.
pub open spec fn ground_channel(c: int) -> bool {
    HALF <= c <= HALF + BAND
}

/// Map a random word into the ground color band: the word's remainder over
/// the band width, offset to the band's lower edge.
pub fn ground_channel_of(r: u32) -> (c: u64)
    ensures
        c as int == HALF as int + (r as int) % (BAND as int + 1),
        ground_channel(c as int),
        c <= ONE,
{
    HALF + (r as u64) % (BAND + 1)
}

/// Relies on macroquad::rand::rand: a pseudo-random 32-bit word from the
/// process-global generator. Nothing is promised of the value.
#[verifier::external_body]
fn random_u32() -> u32 {
    macroquad::rand::rand()
}

/// Where a walk up the positive-y links from `i` first meets a see-through
/// cell, stopping where the budget runs out.
pub open spec fn lift_spec(cells: Seq<VoxelPair>, i: int, budget: nat) -> int
    decreases budget,
{
    if cells[i].voxel.transparent || budget == 0 {
        i
    } else {
        lift_spec(cells, spec_neighbor(cells, i, 1, true), (budget - 1) as nat)
    }
}

/// Walk up the positive-y links until a see-through cell is found or the
/// budget runs out: lifts a spawn point out of solid ground.
pub fn lift_above_ground(world: &World, start: usize, budget: usize) -> (r: usize)
    requires
        world.wf(),
        start < world.cells@.len(),
    ensures
        r == lift_spec(world.cells@, start as int, budget as nat),
        r < world.cells@.len(),
{
    let mut i = start;
    let mut b = budget;
    while b > 0 && !world.transparent(i)
        invariant
            world.wf(),
            i < world.cells@.len(),
            b <= budget,
            lift_spec(world.cells@, start as int, budget as nat) == lift_spec(
                world.cells@,
                i as int,
                b as nat,
            ),
        decreases b,
    {
        i = world.neighbor(i, 1, true);
        b = b - 1;
    }
    i
}

/// The regular 3-torus link structure at coordinate (i, j, k): each neighbor
/// is the flattened index of the coordinate shifted by one along the axis,
/// modulo the lattice extent.
pub open spec fn torus_links_ok(
    cells: Seq<VoxelPair>,
    i: int,
    j: int,
    k: int,
    nx: int,
    ny: int,
    nz: int,
) -> bool {
    let c = cells[spec_furl(i, j, k, ny, nz)];
    &&& c.neighbors.up_x == spec_furl((i + 1) % nx, j, k, ny, nz)
    &&& c.neighbors.down_x == spec_furl((i - 1) % nx, j, k, ny, nz)
    &&& c.neighbors.up_y == spec_furl(i, (j + 1) % ny, k, ny, nz)
    &&& c.neighbors.down_y == spec_furl(i, (j - 1) % ny, k, ny, nz)
    &&& c.neighbors.up_z == spec_furl(i, j, (k + 1) % nz, ny, nz)
    &&& c.neighbors.down_z == spec_furl(i, j, (k - 1) % nz, ny, nz)
}

/// The initial terrain at coordinate (i, j, k): the lower half of the lattice
/// is opaque mottled ground, everything above is open space.
pub open spec fn terrain_ok(
    cells: Seq<VoxelPair>,
    i: int,
    j: int,
    k: int,
    ny: int,
    nz: int,
) -> bool {
    let v = cells[spec_furl(i, j, k, ny, nz)].voxel;
    &&& v.transparent == (j >= ny / 2)
    &&& !v.transparent ==> {
        &&& ground_channel(v.color[0] as int)
        &&& ground_channel(v.color[1] as int)
        &&& ground_channel(v.color[2] as int)
    }
    &&& v.transparent ==> v.color[0] == 0 && v.color[1] == 0 && v.color[2] == 0
    &&& v.color[3] == ONE
}

/// The whole lattice is a regular 3-torus of extents (nx, ny, nz).
pub open spec fn is_torus(cells: Seq<VoxelPair>, nx: int, ny: int, nz: int) -> bool {
    &&& nx >= 1 && ny >= 1 && nz >= 1
    &&& cells.len() == nx * ny * nz
    &&& forall|i: int, j: int, k: int|
        0 <= i < nx && 0 <= j < ny && 0 <= k < nz ==> torus_links_ok(cells, i, j, k, nx, ny, nz)
}

/// The whole lattice carries the initial terrain.
pub open spec fn has_initial_terrain(cells: Seq<VoxelPair>, nx: int, ny: int, nz: int) -> bool {
    forall|i: int, j: int, k: int|
        0 <= i < nx && 0 <= j < ny && 0 <= k < nz ==> terrain_ok(cells, i, j, k, ny, nz)
}

/// Stepping forward and back along an axis of extent `n` cancels out.
proof fn lemma_wrap_cancel(i: int, n: int)
    requires
        0 <= i < n,
    ensures
        ((i + 1) % n - 1) % n == i,
        ((i - 1) % n + 1) % n == i,
{
    if i + 1 < n {
        lemma_small_mod((i + 1) as nat, n as nat);
        lemma_small_mod(i as nat, n as nat);
    } else {
        lemma_fundamental_div_mod_converse(n, n, 1, 0);
        lemma_fundamental_div_mod_converse(-1, n, -1, n - 1);
    }
    if i == 0 {
        lemma_fundamental_div_mod_converse(-1, n, -1, n - 1);
        lemma_fundamental_div_mod_converse(n, n, 1, 0);
    } else {
        lemma_small_mod((i - 1) as nat, n as nat);
        lemma_small_mod(i as nat, n as nat);
    }
}

/// On any torus lattice, crossing a positive link and then the same axis's
/// negative link returns to the starting cell, and the other way around:
/// the adjacency is invertible, for every cell and every axis.
pub proof fn lemma_torus_adjacency_invertible(
    cells: Seq<VoxelPair>,
    nx: int,
    ny: int,
    nz: int,
    i: int,
    j: int,
    k: int,
)
    requires
        is_torus(cells, nx, ny, nz),
        0 <= i < nx,
        0 <= j < ny,
        0 <= k < nz,
    ensures
        ({
            let n = spec_furl(i, j, k, ny, nz);
            &&& cells[cells[n].neighbors.up_x as int].neighbors.down_x == n
            &&& cells[cells[n].neighbors.down_x as int].neighbors.up_x == n
            &&& cells[cells[n].neighbors.up_y as int].neighbors.down_y == n
            &&& cells[cells[n].neighbors.down_y as int].neighbors.up_y == n
            &&& cells[cells[n].neighbors.up_z as int].neighbors.down_z == n
            &&& cells[cells[n].neighbors.down_z as int].neighbors.up_z == n
        }),
{
    let n = spec_furl(i, j, k, ny, nz);
    assert(torus_links_ok(cells, i, j, k, nx, ny, nz));
    lemma_wrap_cancel(i, nx);
    lemma_wrap_cancel(j, ny);
    lemma_wrap_cancel(k, nz);
    assert(0 <= (i + 1) % nx < nx && 0 <= (i - 1) % nx < nx);
    assert(0 <= (j + 1) % ny < ny && 0 <= (j - 1) % ny < ny);
    assert(0 <= (k + 1) % nz < nz && 0 <= (k - 1) % nz < nz);
    assert(torus_links_ok(cells, (i + 1) % nx, j, k, nx, ny, nz));
    assert(torus_links_ok(cells, (i - 1) % nx, j, k, nx, ny, nz));
    assert(torus_links_ok(cells, i, (j + 1) % ny, k, nx, ny, nz));
    assert(torus_links_ok(cells, i, (j - 1) % ny, k, nx, ny, nz));
    assert(torus_links_ok(cells, i, j, (k + 1) % nz, nx, ny, nz));
    assert(torus_links_ok(cells, i, j, (k - 1) % nz, nx, ny, nz));
}

/// Every stored link points into an arena of `total` cells.
spec fn links_bounded(cells: Seq<VoxelPair>, total: int) -> bool {
    forall|m: int|
        0 <= m < cells.len() ==> {
            let nb = (#[trigger] cells[m]).neighbors;
            &&& nb.up_x < total
            &&& nb.down_x < total
            &&& nb.up_y < total
            &&& nb.down_y < total
            &&& nb.up_z < total
            &&& nb.down_z < total
        }
}

/// Everything `build_world` establishes for the cell at (i, j, k).
spec fn built_cell_ok(
    cells: Seq<VoxelPair>,
    i: int,
    j: int,
    k: int,
    nx: int,
    ny: int,
    nz: int,
) -> bool {
    &&& torus_links_ok(cells, i, j, k, nx, ny, nz)
    &&& terrain_ok(cells, i, j, k, ny, nz)
}

/// `build_world` has finished every coordinate lexicographically below
/// (i, j, k).
spec fn built_prefix(
    cells: Seq<VoxelPair>,
    i: int,
    j: int,
    k: int,
    nx: int,
    ny: int,
    nz: int,
) -> bool {
    forall|a: int, b: int, c: int|
        (0 <= a < nx && 0 <= b < ny && 0 <= c < nz && (a < i || (a == i && b < j) || (a == i && b
            == j && c < k))) ==> #[trigger] built_cell_ok(cells, a, b, c, nx, ny, nz)
}

/// Build the regular 3-torus world: every cell linked to its six wrapped
/// lattice neighbors, the lower half of the lattice filled with opaque
/// mottled ground, the upper half left as open space.
pub fn build_world(nx: usize, ny: usize, nz: usize) -> (w: World)
    requires
        1 <= nx,
        1 <= ny,
        1 <= nz,
        nx * ny * nz <= 100000000,
    ensures
        w.cells@.len() == nx * ny * nz,
        w.wf(),
        is_torus(w.cells@, nx as int, ny as int, nz as int),
        has_initial_terrain(w.cells@, nx as int, ny as int, nz as int),
        colors_ok(w.cells@),
{
    proof {
        lemma_mul_is_associative(nx as int, ny as int, nz as int);
        assert(ny * nz <= nx * (ny * nz) && 0 <= ny * nz) by (nonlinear_arith)
            requires
                1 <= nx && 1 <= ny && 1 <= nz,
        ;
    }
    let nynz = ny * nz;
    let total = nx * nynz;
    let mut cells: Vec<VoxelPair> = Vec::new();
    let mut i: usize = 0;
    while i < nx
        invariant
            1 <= nx && 1 <= ny && 1 <= nz,
            nx * ny * nz <= 100000000,
            nynz == ny * nz,
            total == nx * ny * nz,
            i <= nx,
            cells@.len() == spec_furl(i as int, 0, 0, ny as int, nz as int),
            built_prefix(cells@, i as int, 0, 0, nx as int, ny as int, nz as int),
            links_bounded(cells@, total as int),
            colors_ok(cells@),
        decreases nx - i,
    {
        let mut j: usize = 0;
        while j < ny
            invariant
                1 <= nx && 1 <= ny && 1 <= nz,
                nx * ny * nz <= 100000000,
                nynz == ny * nz,
                total == nx * ny * nz,
                i < nx,
                j <= ny,
                cells@.len() == spec_furl(i as int, j as int, 0, ny as int, nz as int),
                built_prefix(cells@, i as int, j as int, 0, nx as int, ny as int, nz as int),
                links_bounded(cells@, total as int),
                colors_ok(cells@),
            decreases ny - j,
        {
            let mut k: usize = 0;
            while k < nz
                invariant
                    1 <= nx && 1 <= ny && 1 <= nz,
                    nx * ny * nz <= 100000000,
                    nynz == ny * nz,
                    total == nx * ny * nz,
                    i < nx,
                    j < ny,
                    k <= nz,
                    cells@.len() == spec_furl(i as int, j as int, k as int, ny as int, nz as int),
                    built_prefix(
                        cells@,
                        i as int,
                        j as int,
                        k as int,
                        nx as int,
                        ny as int,
                        nz as int,
                    ),
                    links_bounded(cells@, total as int),
                    colors_ok(cells@),
                decreases nz - k,
            {
                proof {
                    lemma_furl_range(i as int, j as int, k as int, nx as int, ny as int, nz as int);
                    // each fresh link lands inside the arena
                    lemma_furl_range(
                        (i + 1) % (nx as int),
                        j as int,
                        k as int,
                        nx as int,
                        ny as int,
                        nz as int,
                    );
                    lemma_furl_range(
                        (i - 1) % (nx as int),
                        j as int,
                        k as int,
                        nx as int,
                        ny as int,
                        nz as int,
                    );
                    lemma_furl_range(
                        i as int,
                        (j + 1) % (ny as int),
                        k as int,
                        nx as int,
                        ny as int,
                        nz as int,
                    );
                    lemma_furl_range(
                        i as int,
                        (j - 1) % (ny as int),
                        k as int,
                        nx as int,
                        ny as int,
                        nz as int,
                    );
                    lemma_furl_range(
                        i as int,
                        j as int,
                        (k + 1) % (nz as int),
                        nx as int,
                        ny as int,
                        nz as int,
                    );
                    lemma_furl_range(
                        i as int,
                        j as int,
                        (k - 1) % (nz as int),
                        nx as int,
                        ny as int,
                        nz as int,
                    );
                }
                let ghost old_cells = cells@;
                let neighbors = Neighbors {
                    up_x: furl(wrap_inc(i, nx), j, k, ny, nz),
                    down_x: furl(wrap_dec(i, nx), j, k, ny, nz),
                    up_y: furl(i, wrap_inc(j, ny), k, ny, nz),
                    down_y: furl(i, wrap_dec(j, ny), k, ny, nz),
                    up_z: furl(i, j, wrap_inc(k, nz), ny, nz),
                    down_z: furl(i, j, wrap_dec(k, nz), ny, nz),
                };
                let transparent = j >= ny / 2;
                let voxel = if transparent {
                    Voxel { color: [0, 0, 0, ONE], transparent: true }
                } else {
                    Voxel {
                        color: [
                            ground_channel_of(random_u32()),
                            ground_channel_of(random_u32()),
                            ground_channel_of(random_u32()),
                            ONE,
                        ],
                        transparent: false,
                    }
                };
                cells.push(VoxelPair { voxel, neighbors });
                proof {
                    // cells finished earlier sit below the pushed index and
                    // are untouched by the push
                    assert forall|a: int, b: int, c: int|
                        (0 <= a < nx && 0 <= b < ny && 0 <= c < nz && (a < i || (a == i && b < j)
                            || (a == i && b == j && c < k + 1))) implies #[trigger] built_cell_ok(
                        cells@,
                        a,
                        b,
                        c,
                        nx as int,
                        ny as int,
                        nz as int,
                    ) by {
                        if a == i as int && b == j as int && c == k as int {
                            assert(built_cell_ok(
                                cells@,
                                a,
                                b,
                                c,
                                nx as int,
                                ny as int,
                                nz as int,
                            ));
                        } else {
                            lemma_furl_mono(a, b, c, i as int, j as int, k as int, ny as int,
                                nz as int);
                            lemma_furl_range(a, b, c, nx as int, ny as int, nz as int);
                            assert(built_cell_ok(
                                old_cells,
                                a,
                                b,
                                c,
                                nx as int,
                                ny as int,
                                nz as int,
                            ));
                            assert(cells@[spec_furl(a, b, c, ny as int, nz as int)] == old_cells[
                                spec_furl(a, b, c, ny as int, nz as int)]);
                        }
                    }
                }
                k = k + 1;
            }
            proof {
                assert(spec_furl(i as int, j as int, nz as int, ny as int, nz as int) == spec_furl(
                    i as int,
                    j + 1,
                    0,
                    ny as int,
                    nz as int,
                )) by (nonlinear_arith);
            }
            j = j + 1;
        }
        proof {
            assert(spec_furl(i as int, ny as int, 0, ny as int, nz as int) == spec_furl(
                i + 1,
                0,
                0,
                ny as int,
                nz as int,
            )) by (nonlinear_arith);
        }
        i = i + 1;
    }
    let w = World { cells };
    proof {
        assert(w.cells@.len() == nx * ny * nz) by {
            assert(spec_furl(nx as int, 0, 0, ny as int, nz as int) == nx * ny * nz)
                by (nonlinear_arith);
        }
        assert forall|a: int, b: int, c: int|
            0 <= a < nx && 0 <= b < ny && 0 <= c < nz implies #[trigger] torus_links_ok(
            w.cells@,
            a,
            b,
            c,
            nx as int,
            ny as int,
            nz as int,
        ) by {
            assert(built_cell_ok(w.cells@, a, b, c, nx as int, ny as int, nz as int));
        }
        assert forall|a: int, b: int, c: int|
            0 <= a < nx && 0 <= b < ny && 0 <= c < nz implies #[trigger] terrain_ok(
            w.cells@,
            a,
            b,
            c,
            ny as int,
            nz as int,
        ) by {
            assert(built_cell_ok(w.cells@, a, b, c, nx as int, ny as int, nz as int));
        }
        assert forall|m: int, axis: int, positive: bool|
            0 <= m < w.cells@.len() && 0 <= axis < 3 implies 0 <= #[trigger] spec_neighbor(
            w.cells@,
            m,
            axis,
            positive,
        ) < w.cells@.len() by {
            assert(links_bounded(w.cells@, total as int));
            let nb = w.cells@[m].neighbors;
            assert(nb.up_x < total && nb.down_x < total && nb.up_y < total && nb.down_y < total
                && nb.up_z < total && nb.down_z < total);
        }
    }
    w
}

} // verus!
