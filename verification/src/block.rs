//! Block materials and chunk data.

use vstd::prelude::*;

verus! {

/// The block materials this engine places.
#[derive(Clone, Copy, PartialEq, Eq, Structural, Debug)]
pub enum BlockKind {
    Air,
    Water,
    Stone,
    Dirt,
    Gravel,
    GrassBlock,
    Grass,
    TallGrassLower,
    TallGrassUpper,
    Sandstone,
}

impl BlockKind {
    pub open spec fn spec_is_air(self) -> bool {
        self is Air
    }

    pub fn is_air(self) -> (r: bool)
        ensures
            r == self.spec_is_air(),
    {
        match self {
            BlockKind::Air => true,
            _ => false,
        }
    }
}

/// Blocks per chunk side: a chunk covers 16 x 16 block columns.
pub const CHUNK_SIDE: usize = 16;

/// Owned, height-bounded 3D grid of block materials for one chunk
/// coordinate. Column `(x, z)` is stored at index `x + 16 * z`.
#[derive(PartialEq, Eq, Debug)]
pub struct Chunk {
    pub height: usize,
    pub columns: Vec<Vec<BlockKind>>,
}

impl Chunk {
    /// 256 columns, each exactly `height` blocks tall.
    pub open spec fn wf(self) -> bool {
        &&& self.columns@.len() == 256
        &&& forall|i: int|
            0 <= i < 256 ==> (#[trigger] self.columns@[i])@.len() == self.height
    }

    pub open spec fn spec_height(self) -> usize {
        self.height
    }

    /// The material at column-local coordinates.
    pub open spec fn spec_block(self, x: int, y: int, z: int) -> BlockKind {
        self.columns@[x + 16 * z]@[y]
    }

    /// An empty chunk of height zero, as used for a failed load in a flat
    /// world: resident, but without any block data.
    pub fn new() -> (r: Chunk)
        ensures
            r.wf(),
            r.spec_height() == 0,
    {
        let mut columns: Vec<Vec<BlockKind>> = Vec::new();
        let mut i: usize = 0;
        while i < 256
            invariant
                i <= 256,
                columns@.len() == i,
                forall|j: int| 0 <= j < i ==> (#[trigger] columns@[j])@.len() == 0,
            decreases 256 - i,
        {
            columns.push(Vec::new());
            i = i + 1;
        }
        Chunk { height: 0, columns }
    }

    /// A chunk whose every column holds `material` up to elevation `fill_to`
    /// and air above it, as used for fallback chunks.
    pub fn filled(height: usize, fill_to: usize, material: BlockKind) -> (r: Chunk)
        requires
            fill_to <= height,
        ensures
            r.wf(),
            r.spec_height() == height,
            forall|x: int, y: int, z: int|
                0 <= x < 16 && 0 <= y < height && 0 <= z < 16 ==> #[trigger] r.spec_block(x, y, z)
                    == (if y < fill_to {
                    material
                } else {
                    BlockKind::Air
                }),
    {
        let mut columns: Vec<Vec<BlockKind>> = Vec::new();
        let mut i: usize = 0;
        while i < 256
            invariant
                i <= 256,
                fill_to <= height,
                columns@.len() == i,
                forall|j: int| 0 <= j < i ==> (#[trigger] columns@[j])@.len() == height,
                forall|j: int, k: int|
                    0 <= j < i && 0 <= k < height ==> #[trigger] columns@[j]@[k] == (if k
                        < fill_to {
                        material
                    } else {
                        BlockKind::Air
                    }),
            decreases 256 - i,
        {
            columns.push(filled_column(height, fill_to, material));
            i = i + 1;
        }
        Chunk { height, columns }
    }

    pub fn height(&self) -> (r: usize)
        ensures
            r == self.spec_height(),
    {
        self.height
    }

    /// The material at column-local coordinates `(x, y, z)`.
    pub fn block(&self, x: usize, y: usize, z: usize) -> (r: BlockKind)
        requires
            self.wf(),
            x < 16,
            z < 16,
            y < self.spec_height(),
        ensures
            r == self.spec_block(x as int, y as int, z as int),
    {
        self.columns[x + 16 * z][y]
    }
}

/// One column of `height` blocks: `material` up to `fill_to`, air above.
fn filled_column(height: usize, fill_to: usize, material: BlockKind) -> (c: Vec<BlockKind>)
    requires
        fill_to <= height,
    ensures
        c@.len() == height,
        forall|k: int|
            0 <= k < height ==> #[trigger] c@[k] == (if k < fill_to {
                material
            } else {
                BlockKind::Air
            }),
{
    let mut column: Vec<BlockKind> = Vec::new();
    let mut y: usize = 0;
    while y < height
        invariant
            y <= height,
            column@.len() == y,
            forall|k: int|
                0 <= k < y ==> #[trigger] column@[k] == (if k < fill_to {
                    material
                } else {
                    BlockKind::Air
                }),
        decreases height - y,
    {
        if y < fill_to {
            column.push(material);
        } else {
            column.push(BlockKind::Air);
        }
        y = y + 1;
    }
    column
}

} // verus!
