use chunkstream::block::BlockKind;
use chunkstream::terrain::{synthesize_chunk, ChunkSamples, ColumnSamples, GenerationSeedState};

const HEIGHT: usize = 64;

fn uniform_column(
    height: usize,
    solid_to: usize,
    depth: u8,
    gravel_height: i32,
    grass: u8,
) -> ColumnSamples {
    ColumnSamples {
        solid: (0..height).map(|y| y < solid_to).collect(),
        gravel_height: vec![gravel_height; height],
        surface_depth: vec![depth; height],
        grass_density: vec![grass; height],
    }
}

fn samples_of(columns: Vec<ColumnSamples>) -> ChunkSamples {
    assert_eq!(columns.len(), 256);
    ChunkSamples {
        height: HEIGHT,
        columns,
    }
}

fn uniform_samples(solid_to: usize, depth: u8, gravel_height: i32, grass: u8) -> ChunkSamples {
    samples_of(
        (0..256)
            .map(|_| uniform_column(HEIGHT, solid_to, depth, gravel_height, grass))
            .collect(),
    )
}

#[test]
fn layering_above_water_is_grass_dirt_stone() {
    // Terrain solid up to y == 57, soil depth 2, gravel threshold 48.
    let chunk = synthesize_chunk(&uniform_samples(58, 2, 48, 0));
    assert_eq!(chunk.height(), HEIGHT);
    assert_eq!(chunk.block(8, 59, 8), BlockKind::Air);
    assert_eq!(chunk.block(8, 58, 8), BlockKind::Air);
    assert_eq!(chunk.block(8, 57, 8), BlockKind::GrassBlock);
    assert_eq!(chunk.block(8, 56, 8), BlockKind::Dirt);
    assert_eq!(chunk.block(8, 55, 8), BlockKind::Dirt);
    assert_eq!(chunk.block(8, 54, 8), BlockKind::Stone);
    assert_eq!(chunk.block(8, 20, 8), BlockKind::Stone);
}

#[test]
fn soil_below_gravel_threshold_is_gravel() {
    // Surface at y == 50, below the gravel threshold 52: the whole soil
    // band turns to gravel.
    let chunk = synthesize_chunk(&uniform_samples(51, 3, 52, 0));
    assert_eq!(chunk.block(0, 50, 0), BlockKind::Gravel);
    assert_eq!(chunk.block(0, 49, 0), BlockKind::Gravel);
    assert_eq!(chunk.block(0, 48, 0), BlockKind::Gravel);
    assert_eq!(chunk.block(0, 47, 0), BlockKind::Gravel);
    assert_eq!(chunk.block(0, 46, 0), BlockKind::Stone);
    // Water covers the exposed terrain up to the liquid level.
    assert_eq!(chunk.block(0, 51, 0), BlockKind::Water);
    assert_eq!(chunk.block(0, 54, 0), BlockKind::Water);
    assert_eq!(chunk.block(0, 55, 0), BlockKind::Air);
}

#[test]
fn submerged_surface_is_dirt_not_grass() {
    // Surface at y == 50, above the gravel threshold 40 but under the
    // liquid level: dirt, never a vegetation surface.
    let chunk = synthesize_chunk(&uniform_samples(51, 1, 40, 0));
    assert_eq!(chunk.block(3, 50, 3), BlockKind::Dirt);
    assert_eq!(chunk.block(3, 49, 3), BlockKind::Dirt);
    assert_eq!(chunk.block(3, 48, 3), BlockKind::Stone);
}

#[test]
fn zero_depth_surface_sits_on_stone() {
    let chunk = synthesize_chunk(&uniform_samples(58, 0, 48, 0));
    assert_eq!(chunk.block(8, 57, 8), BlockKind::GrassBlock);
    assert_eq!(chunk.block(8, 56, 8), BlockKind::Stone);
}

#[test]
fn empty_column_is_water_then_air() {
    let chunk = synthesize_chunk(&uniform_samples(0, 0, 48, 0));
    assert_eq!(chunk.block(0, 0, 0), BlockKind::Water);
    assert_eq!(chunk.block(0, 54, 0), BlockKind::Water);
    assert_eq!(chunk.block(0, 55, 0), BlockKind::Air);
    assert_eq!(chunk.block(0, 63, 0), BlockKind::Air);
}

#[test]
fn short_decoration_grows_on_grass() {
    let chunk = synthesize_chunk(&uniform_samples(58, 2, 48, 1));
    assert_eq!(chunk.block(8, 57, 8), BlockKind::GrassBlock);
    assert_eq!(chunk.block(8, 58, 8), BlockKind::Grass);
    assert_eq!(chunk.block(8, 59, 8), BlockKind::Air);
}

#[test]
fn tall_decoration_takes_two_cells() {
    let chunk = synthesize_chunk(&uniform_samples(58, 2, 48, 2));
    assert_eq!(chunk.block(8, 57, 8), BlockKind::GrassBlock);
    assert_eq!(chunk.block(8, 58, 8), BlockKind::TallGrassLower);
    assert_eq!(chunk.block(8, 59, 8), BlockKind::TallGrassUpper);
    assert_eq!(chunk.block(8, 60, 8), BlockKind::Air);
}

#[test]
fn tall_decoration_needs_room_above() {
    // The surface sits one cell below the top of the chunk: the cell above
    // the decoration does not exist, so only the short form is placed.
    let chunk = synthesize_chunk(&uniform_samples(HEIGHT - 1, 2, 48, 2));
    assert_eq!(chunk.block(8, HEIGHT - 2, 8), BlockKind::GrassBlock);
    assert_eq!(chunk.block(8, HEIGHT - 1, 8), BlockKind::Grass);
}

#[test]
fn no_decoration_under_water_or_without_density() {
    let dry = synthesize_chunk(&uniform_samples(58, 2, 48, 0));
    assert_eq!(dry.block(8, 58, 8), BlockKind::Air);
    // A submerged column has no vegetation surface to decorate.
    let wet = synthesize_chunk(&uniform_samples(51, 1, 40, 2));
    assert_eq!(wet.block(8, 51, 8), BlockKind::Water);
}

#[test]
fn seed_state_derives_five_consecutive_seeds() {
    let s = GenerationSeedState::new(42);
    assert_eq!(s.density, 42);
    assert_eq!(s.hilly, 43);
    assert_eq!(s.stone, 44);
    assert_eq!(s.gravel, 45);
    assert_eq!(s.grass, 46);

    let wrapped = GenerationSeedState::new(u32::MAX);
    assert_eq!(wrapped.density, u32::MAX);
    assert_eq!(wrapped.hilly, 0);
    assert_eq!(wrapped.grass, 3);
}

#[test]
fn synthesis_is_deterministic_for_equal_samples() {
    let a = synthesize_chunk(&uniform_samples(58, 2, 48, 2));
    let b = synthesize_chunk(&uniform_samples(58, 2, 48, 2));
    assert_eq!(a, b);
}
