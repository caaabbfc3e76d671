//! End-to-end: a single observer, the real noise fields, one generation
//! cycle over the real channels.

use chunkstream::block::{BlockKind, Chunk};
use chunkstream::coords::{ChunkPos, ChunkView, ObserverView};
use chunkstream::scheduler::{send_recv_chunks, update_client_views, GameState};
use chunkstream::terrain::{
    synthesize_chunk, ChunkSamples, ColumnSamples, GenerationSeedState, WATER_HEIGHT,
};
use chunkstream::world_store::WorldStore;
use noise::{NoiseFn, SuperSimplex};

const HEIGHT: usize = 384;

struct NoiseFields {
    density: SuperSimplex,
    hilly: SuperSimplex,
    stone: SuperSimplex,
    gravel: SuperSimplex,
    grass: SuperSimplex,
}

impl NoiseFields {
    fn new(seeds: &GenerationSeedState) -> Self {
        NoiseFields {
            density: SuperSimplex::new(seeds.density),
            hilly: SuperSimplex::new(seeds.hilly),
            stone: SuperSimplex::new(seeds.stone),
            gravel: SuperSimplex::new(seeds.gravel),
            grass: SuperSimplex::new(seeds.grass),
        }
    }
}

fn noise01(noise: &SuperSimplex, p: [f64; 3]) -> f64 {
    (noise.get(p) + 1.0) / 2.0
}

fn scale(p: [f64; 3], divisor: f64) -> [f64; 3] {
    [p[0] / divisor, p[1] / divisor, p[2] / divisor]
}

fn fbm(noise: &SuperSimplex, p: [f64; 3], octaves: u32, lacunarity: f64, persistence: f64) -> f64 {
    let mut freq = 1.0;
    let mut amp = 1.0;
    let mut amp_sum = 0.0;
    let mut sum = 0.0;
    for _ in 0..octaves {
        let n = noise01(noise, [p[0] * freq, p[1] * freq, p[2] * freq]);
        sum += n * amp;
        amp_sum += amp;
        freq *= lacunarity;
        amp *= persistence;
    }
    sum / amp_sum
}

fn lerp(a: f64, b: f64, t: f64) -> f64 {
    a * (1.0 - t) + b * t
}

fn lerpstep(edge0: f64, edge1: f64, x: f64) -> f64 {
    if x <= edge0 {
        0.0
    } else if x >= edge1 {
        1.0
    } else {
        (x - edge0) / (edge1 - edge0)
    }
}

fn has_terrain_at(fields: &NoiseFields, p: [f64; 3]) -> bool {
    let hilly = lerp(0.1, 1.0, noise01(&fields.hilly, scale(p, 400.0))).powi(2);
    let lower = 15.0 + 100.0 * hilly;
    let upper = lower + 100.0 * hilly;
    if p[1] <= lower {
        return true;
    } else if p[1] >= upper {
        return false;
    }
    let density = 1.0 - lerpstep(lower, upper, p[1]);
    let n = fbm(&fields.density, scale(p, 100.0), 4, 2.0, 0.5);
    n < density
}

fn column_samples(fields: &NoiseFields, x: i32, z: i32, height: usize) -> ColumnSamples {
    let water = WATER_HEIGHT as i32;
    let mut solid = Vec::with_capacity(height);
    for y in 0..height {
        let p = [f64::from(x), y as f64, f64::from(z)];
        solid.push(has_terrain_at(fields, p));
    }
    let mut gravel_height = vec![0i32; height];
    let mut surface_depth = vec![0u8; height];
    let mut grass_density = vec![0u8; height];
    for y in 0..height {
        let p = [f64::from(x), y as f64, f64::from(z)];
        if solid[y] {
            gravel_height[y] =
                water - 1 - (fbm(&fields.gravel, scale(p, 10.0), 3, 2.0, 0.5) * 6.0).floor() as i32;
            if y + 1 >= height || !solid[y + 1] {
                surface_depth[y] = (noise01(&fields.stone, scale(p, 15.0)) * 5.0).round() as u8;
            }
        } else if y >= 1 && solid[y - 1] {
            let d = fbm(&fields.grass, scale(p, 5.0), 4, 2.0, 0.7);
            grass_density[y] = if d > 0.7 {
                2
            } else if d > 0.55 {
                1
            } else {
                0
            };
        }
    }
    ColumnSamples {
        solid,
        gravel_height,
        surface_depth,
        grass_density,
    }
}

fn chunk_samples(fields: &NoiseFields, pos: ChunkPos, height: usize) -> ChunkSamples {
    let mut columns = Vec::with_capacity(256);
    for index in 0..256 {
        let x = (index % 16) as i32 + pos.x * 16;
        let z = (index / 16) as i32 + pos.z * 16;
        columns.push(column_samples(fields, x, z, height));
    }
    ChunkSamples { height, columns }
}

#[test]
fn one_generation_cycle_makes_the_observed_chunk_resident() {
    let seeds = GenerationSeedState::new(42);
    let fields = NoiseFields::new(&seeds);

    let (req_tx, req_rx) = flume::unbounded();
    let (res_tx, res_rx) = flume::unbounded();
    let mut state = GameState::new(req_tx, res_rx);
    let mut world = WorldStore::new();

    // One observer standing at world position (0, 70, 0): chunk (0, 0).
    let observer = ObserverView {
        view: ChunkView::new(ChunkPos::new(0, 0), 0),
        old_view: None,
    };

    update_client_views(&mut state, &world, &vec![observer]);
    let report = send_recv_chunks(&mut state, &mut world);
    assert_eq!(report.dispatched, vec![ChunkPos::new(0, 0)]);

    // Play the worker pool: generate what was requested and push it back.
    for pos in req_rx.drain() {
        let samples = chunk_samples(&fields, pos, HEIGHT);
        let chunk: Chunk = synthesize_chunk(&samples);
        res_tx.send((pos, chunk)).unwrap();
    }
    let report = send_recv_chunks(&mut state, &mut world);
    assert!(report.dispatched.is_empty());
    assert!(report.discarded.is_empty());

    // The chunk is resident, nothing for it stays pending, and the column
    // at (8, *, 8) holds material.
    let target = ChunkPos::new(0, 0);
    assert!(world.has(target));
    assert_eq!(state.pending.get(target), None);
    assert_eq!(state.pending.len(), 0);

    let chunk = world.get(target).expect("resident chunk");
    assert_eq!(chunk.height(), HEIGHT);
    let mut non_empty = 0usize;
    for y in 0..HEIGHT {
        if chunk.block(8, y, 8) != BlockKind::Air {
            non_empty += 1;
        }
    }
    assert!(non_empty > 0);

    // Generation is deterministic: the same coordinate and seed give a
    // bit-identical chunk.
    let again = synthesize_chunk(&chunk_samples(&fields, target, HEIGHT));
    assert_eq!(&again, chunk);
}
