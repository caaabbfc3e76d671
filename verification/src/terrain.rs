//! The terrain synthesizer: per-column material layering and surface
//! decoration.
//!
//! The noise fields themselves are sampled outside this crate (they are
//! floating-point work); a column's samples arrive here as plain values, and
//! everything the synthesizer decides from them — the material stack of each
//! column and its decoration — is computed and specified here. Equal samples
//! give a bit-identical chunk.

use vstd::prelude::*;

use crate::block::BlockKind;
use crate::block::Chunk;

verus! {

/// Elevations strictly below this hold liquid where no terrain is.
pub const WATER_HEIGHT: usize = 55;

/// Five scalar noise-field seeds derived from a single world seed:
/// `seed`, `seed + 1` ... `seed + 4`, wrapping. Immutable for the process
/// lifetime and shared read-only by all workers.
#[derive(Clone, Copy, PartialEq, Eq, Structural, Debug)]
pub struct GenerationSeedState {
    pub density: u32,
    pub hilly: u32,
    pub stone: u32,
    pub gravel: u32,
    pub grass: u32,
}

impl GenerationSeedState {
    pub fn new(seed: u32) -> (r: GenerationSeedState)
        ensures
            r.density == seed,
            r.hilly == seed.wrapping_add(1),
            r.stone == seed.wrapping_add(2),
            r.gravel == seed.wrapping_add(3),
            r.grass == seed.wrapping_add(4),
    {
        GenerationSeedState {
            density: seed,
            hilly: seed.wrapping_add(1),
            stone: seed.wrapping_add(2),
            gravel: seed.wrapping_add(3),
            grass: seed.wrapping_add(4),
        }
    }
}

/// The noise samples one column needs, one value per elevation:
/// whether terrain is solid there, the elevation below which soil turns to
/// gravel, the soil depth the surface would start with, and the thresholded
/// grass density (0: bare, 1: short decoration, 2: tall decoration).
pub struct ColumnSamples {
    pub solid: Vec<bool>,
    pub gravel_height: Vec<i32>,
    pub surface_depth: Vec<u8>,
    pub grass_density: Vec<u8>,
}

impl ColumnSamples {
    pub open spec fn wf(self, height: usize) -> bool {
        &&& self.solid@.len() == height
        &&& self.gravel_height@.len() == height
        &&& self.surface_depth@.len() == height
        &&& self.grass_density@.len() == height
    }
}

/// The samples for a whole chunk: one `ColumnSamples` per column, stored at
/// index `x + 16 * z` like the chunk's own columns.
pub struct ChunkSamples {
    pub height: usize,
    pub columns: Vec<ColumnSamples>,
}

impl ChunkSamples {
    pub open spec fn wf(self) -> bool {
        &&& self.height <= 0x7fff_ffff
        &&& self.columns@.len() == 256
        &&& forall|i: int| 0 <= i < 256 ==> (#[trigger] self.columns@[i]).wf(self.height)
    }
}

/// The top of the contiguous solid run that elevation `y` belongs to: the
/// greatest `s >= y` with terrain solid everywhere in `y..=s`.
pub open spec fn surface_of(solid: Seq<bool>, y: int) -> int
    decreases solid.len() - y,
{
    if y + 1 >= solid.len() || !solid[y + 1] {
        y
    } else {
        surface_of(solid, y + 1)
    }
}

/// A cell's surface lies at or above it, within the column.
pub proof fn lemma_surface_of_bounds(solid: Seq<bool>, y: int)
    requires
        0 <= y < solid.len(),
    ensures
        y <= surface_of(solid, y) < solid.len(),
    decreases solid.len() - y,
{
    if !(y + 1 >= solid.len() || !solid[y + 1]) {
        lemma_surface_of_bounds(solid, y + 1);
    }
}

/// The material of the base (undecorated) column at elevation `y`.
///
/// A non-solid cell is liquid below the liquid level and empty above it. A
/// solid cell depends on its distance `k` down from the surface of its run:
/// the surface itself bears vegetation-capable material above the liquid
/// band and soil or gravel below; the first `surface_depth` cells under the
/// surface are soil (gravel where the cell lies below its gravel threshold);
/// everything deeper is stone.
pub open spec fn base_block(c: ColumnSamples, height: usize, y: int) -> BlockKind {
    if !c.solid@[y] {
        if y < WATER_HEIGHT {
            BlockKind::Water
        } else {
            BlockKind::Air
        }
    } else {
        let s = surface_of(c.solid@, y);
        let k = s - y;
        let d = c.surface_depth@[s] as int;
        if k == 0 {
            if y < c.gravel_height@[y] {
                BlockKind::Gravel
            } else if y < WATER_HEIGHT - 1 {
                BlockKind::Dirt
            } else {
                BlockKind::GrassBlock
            }
        } else if k <= d {
            if y < c.gravel_height@[y] {
                BlockKind::Gravel
            } else {
                BlockKind::Dirt
            }
        } else {
            BlockKind::Stone
        }
    }
}

/// Whether the decoration pass writes a short or tall-lower decoration at
/// `y`: an empty cell directly above a vegetation-bearing surface cell,
/// with enough grass density.
pub open spec fn places_decoration(c: ColumnSamples, height: usize, y: int) -> bool {
    &&& base_block(c, height, y) is Air
    &&& y >= 1
    &&& base_block(c, height, y - 1) == BlockKind::GrassBlock
    &&& c.grass_density@[y] >= 1
}

/// Whether the decoration at `y` grows two cells tall: density over the
/// higher threshold, and the cell above exists and is empty.
pub open spec fn grows_tall(c: ColumnSamples, height: usize, y: int) -> bool {
    &&& c.grass_density@[y] >= 2
    &&& y + 1 < height
    &&& base_block(c, height, y + 1) is Air
}

/// The decorated column: the base column with short decorations, and the
/// two halves of tall decorations, written over empty cells.
pub open spec fn decorated_block(c: ColumnSamples, height: usize, y: int) -> BlockKind {
    if places_decoration(c, height, y) {
        if grows_tall(c, height, y) {
            BlockKind::TallGrassLower
        } else {
            BlockKind::Grass
        }
    } else if y >= 1 && places_decoration(c, height, y - 1) && grows_tall(c, height, y - 1) {
        BlockKind::TallGrassUpper
    } else {
        base_block(c, height, y)
    }
}

/// The decorated column as seen when the decoration pass has handled every
/// elevation at or above `bound`.
spec fn partially_decorated(c: ColumnSamples, height: usize, bound: int, y: int) -> BlockKind {
    if y >= bound && places_decoration(c, height, y) {
        if grows_tall(c, height, y) {
            BlockKind::TallGrassLower
        } else {
            BlockKind::Grass
        }
    } else if y >= bound + 1 && places_decoration(c, height, y - 1) && grows_tall(
        c,
        height,
        y - 1,
    ) {
        BlockKind::TallGrassUpper
    } else {
        base_block(c, height, y)
    }
}

/// The soil depth left after walking `k` cells down from a surface whose
/// sample was `d`.
spec fn depth_left(d: int, k: int) -> int {
    if d - k >= 0 {
        d - k
    } else {
        0
    }
}

/// Fill one column's base material stack, scanning top-down as the
/// generator does: entering terrain at a surface seeds the soil depth
/// counter; the counter decides soil versus stone below.
fn base_column(samples: &ColumnSamples, height: usize) -> (col: Vec<BlockKind>)
    requires
        samples.wf(height),
        height <= 0x7fff_ffff,
    ensures
        col@.len() == height,
        forall|y: int| 0 <= y < height ==> #[trigger] col@[y] == base_block(*samples, height, y),
{
    let mut col: Vec<BlockKind> = Vec::new();
    let mut f: usize = 0;
    while f < height
        invariant
            f <= height,
            col@.len() == f,
        decreases height - f,
    {
        col.push(BlockKind::Air);
        f = f + 1;
    }
    let mut in_terrain = false;
    let mut depth: u8 = 0;
    let mut yi: usize = height;
    while yi > 0
        invariant
            yi <= height,
            samples.wf(height),
            height <= 0x7fff_ffff,
            col@.len() == height,
            forall|c: int| yi <= c < height ==> #[trigger] col@[c] == base_block(*samples, height, c),
            yi < height ==> in_terrain == samples.solid@[yi as int],
            yi < height && samples.solid@[yi as int] ==> depth == depth_left(
                samples.surface_depth@[surface_of(samples.solid@, yi as int)] as int,
                surface_of(samples.solid@, yi as int) - yi,
            ),
            yi < height && !samples.solid@[yi as int] ==> depth == 0,
            yi == height ==> !in_terrain && depth == 0,
        decreases yi,
    {
        let y = yi - 1;
        let ghost s = surface_of(samples.solid@, y as int);
        let block: BlockKind;
        if samples.solid[y] {
            proof {
                lemma_surface_of_bounds(samples.solid@, y as int);
                if in_terrain {
                    assert(y + 1 < height && samples.solid@[y + 1]);
                    lemma_surface_of_bounds(samples.solid@, y + 1);
                    assert(s == surface_of(samples.solid@, y + 1));
                    assert(s >= y + 1);
                } else {
                    assert(y + 1 >= height || !samples.solid@[y + 1]);
                    assert(s == y);
                }
            }
            let gh = samples.gravel_height[y];
            if in_terrain {
                if depth > 0 {
                    depth = depth - 1;
                    block = if (y as i32) < gh {
                        BlockKind::Gravel
                    } else {
                        BlockKind::Dirt
                    };
                } else {
                    block = BlockKind::Stone;
                }
            } else {
                in_terrain = true;
                depth = samples.surface_depth[y];
                block = if (y as i32) < gh {
                    BlockKind::Gravel
                } else if y < WATER_HEIGHT - 1 {
                    BlockKind::Dirt
                } else {
                    BlockKind::GrassBlock
                };
            }
        } else {
            in_terrain = false;
            depth = 0;
            block = if y < WATER_HEIGHT {
                BlockKind::Water
            } else {
                BlockKind::Air
            };
        }
        proof {
            assert(block == base_block(*samples, height, y as int));
        }
        col.set(y, block);
        yi = yi - 1;
    }
    col
}

/// Decorate one base column in place, scanning top-down: wherever a
/// vegetation-bearing surface cell lies directly under empty space, the
/// grass density sample decides between nothing, a short decoration, and a
/// two-cell decoration when the cell above is empty too.
fn decorate_column(col: &mut Vec<BlockKind>, samples: &ColumnSamples, height: usize)
    requires
        samples.wf(height),
        height <= 0x7fff_ffff,
        old(col)@.len() == height,
        forall|y: int|
            0 <= y < height ==> #[trigger] old(col)@[y] == base_block(*samples, height, y),
    ensures
        final(col)@.len() == height,
        forall|y: int|
            0 <= y < height ==> #[trigger] final(col)@[y] == decorated_block(*samples, height, y),
{
    let mut yi: usize = height;
    proof {
        assert forall|c: int| 0 <= c < height implies col@[c] == partially_decorated(
            *samples,
            height,
            height as int,
            c,
        ) by {}
    }
    while yi > 0
        invariant
            yi <= height,
            samples.wf(height),
            height <= 0x7fff_ffff,
            col@.len() == height,
            forall|c: int|
                0 <= c < height ==> #[trigger] col@[c] == partially_decorated(
                    *samples,
                    height,
                    yi as int,
                    c,
                ),
        decreases yi,
    {
        let y = yi - 1;
        let ghost cs = *samples;
        proof {
            assert(col@[y as int] == partially_decorated(cs, height, yi as int, y as int));
            assert(col@[y as int] == base_block(cs, height, y as int));
            if y >= 1 {
                assert(col@[y - 1] == partially_decorated(cs, height, yi as int, y - 1));
                assert(col@[y - 1] == base_block(cs, height, y - 1));
            }
        }
        let here_air = col[y].is_air();
        if here_air && y >= 1 {
            let below = col[y - 1];
            if below == BlockKind::GrassBlock {
                proof {
                    assert(base_block(cs, height, y as int) is Air);
                    assert(base_block(cs, height, y - 1) == BlockKind::GrassBlock);
                    if y + 1 < height {
                        assert(col@[y + 1] == partially_decorated(cs, height, yi as int, y + 1));
                        assert(!places_decoration(cs, height, y + 1));
                        assert(col@[y + 1] == base_block(cs, height, y + 1));
                    }
                }
                let d = samples.grass_density[y];
                if d >= 1 {
                    if d >= 2 && y + 1 < height && col[y + 1].is_air() {
                        col.set(y + 1, BlockKind::TallGrassUpper);
                        col.set(y, BlockKind::TallGrassLower);
                    } else {
                        col.set(y, BlockKind::Grass);
                    }
                }
            }
        }
        proof {
            assert forall|c: int| 0 <= c < height implies col@[c] == partially_decorated(
                cs,
                height,
                y as int,
                c,
            ) by {
                if c < y {
                    assert(col@[c] == partially_decorated(cs, height, yi as int, c));
                } else if c > y + 1 {
                    assert(col@[c] == partially_decorated(cs, height, yi as int, c));
                }
            }
        }
        yi = yi - 1;
    }
}

/// Synthesize the full chunk a worker owes for one coordinate: every
/// column's layered material stack with its surface decoration, purely from
/// the column samples. Equal samples give a bit-identical chunk.
pub fn synthesize_chunk(samples: &ChunkSamples) -> (c: Chunk)
    requires
        samples.wf(),
    ensures
        c.wf(),
        c.spec_height() == samples.height,
        forall|x: int, y: int, z: int|
            0 <= x < 16 && 0 <= y < samples.height && 0 <= z < 16 ==> #[trigger] c.spec_block(
                x,
                y,
                z,
            ) == decorated_block(samples.columns@[x + 16 * z], samples.height, y),
{
    let height = samples.height;
    let mut columns: Vec<Vec<BlockKind>> = Vec::new();
    let mut i: usize = 0;
    while i < 256
        invariant
            i <= 256,
            samples.wf(),
            height == samples.height,
            columns@.len() == i,
            forall|j: int| 0 <= j < i ==> (#[trigger] columns@[j])@.len() == height,
            forall|j: int, y: int|
                0 <= j < i && 0 <= y < height ==> #[trigger] columns@[j]@[y] == decorated_block(
                    samples.columns@[j],
                    height,
                    y,
                ),
        decreases 256 - i,
    {
        let mut col = base_column(&samples.columns[i], height);
        decorate_column(&mut col, &samples.columns[i], height);
        columns.push(col);
        i = i + 1;
    }
    Chunk { height, columns }
}

/// Generation determinism: the synthesizer's output is a function of the
/// samples alone. Two chunks that both satisfy `synthesize_chunk`'s
/// contract for the same samples agree on their height and on the material
/// of every cell — there is no hidden time- or thread-dependent state.
pub proof fn lemma_generation_deterministic(a: Chunk, b: Chunk, samples: ChunkSamples)
    requires
        samples.wf(),
        a.wf(),
        b.wf(),
        a.spec_height() == samples.height,
        b.spec_height() == samples.height,
        forall|x: int, y: int, z: int|
            0 <= x < 16 && 0 <= y < samples.height && 0 <= z < 16 ==> #[trigger] a.spec_block(
                x,
                y,
                z,
            ) == decorated_block(samples.columns@[x + 16 * z], samples.height, y),
        forall|x: int, y: int, z: int|
            0 <= x < 16 && 0 <= y < samples.height && 0 <= z < 16 ==> #[trigger] b.spec_block(
                x,
                y,
                z,
            ) == decorated_block(samples.columns@[x + 16 * z], samples.height, y),
    ensures
        a.spec_height() == b.spec_height(),
        forall|x: int, y: int, z: int|
            0 <= x < 16 && 0 <= y < samples.height && 0 <= z < 16 ==> #[trigger] a.spec_block(
                x,
                y,
                z,
            ) == #[trigger] b.spec_block(x, y, z),
{
}

} // verus!
