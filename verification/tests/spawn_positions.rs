use temper_game::blocks::{BlockData, BlockRegistry, BlockStateId, Properties};
use temper_game::spawn::{
    chunk_ring, enqueue_columns, enqueue_spawn_positions_from_chunk, spawn_search_step, SpawnSearchStep, is_valid_spawn_surface, shuffled_chunk_ring,
    spawn_position_for_column, ChunkPos, ChunkSurface, SpawnQueue,
};
use temper_game::world::BlockPos;

fn block(name: &str, pairs: &[(&str, &str)]) -> BlockData {
    let properties = if pairs.is_empty() {
        None
    } else {
        let mut p = Properties::new();
        for (k, v) in pairs {
            p.insert(k.to_string(), v.to_string());
        }
        Some(p)
    };
    BlockData { name: format!("minecraft:{}", name), properties }
}

fn registry() -> BlockRegistry {
    BlockRegistry::new(vec![
        block("air", &[]),
        block("void_air", &[]),
        block("water", &[("level", "0")]),
        block("lava", &[("level", "0")]),
        block("grass_block", &[("snowy", "false")]),
        block("dirt", &[]),
        block("water", &[("level", "3")]),
    ])
}

const AIR: BlockStateId = BlockStateId(0);
const WATER: BlockStateId = BlockStateId(2);
const GRASS: BlockStateId = BlockStateId(4);

#[test]
fn spawn_surface_rejects_air_and_fluids() {
    let reg = registry();
    assert!(!is_valid_spawn_surface(&reg, BlockStateId(0)));
    assert!(!is_valid_spawn_surface(&reg, BlockStateId(1)));
    assert!(!is_valid_spawn_surface(&reg, BlockStateId(2)));
    assert!(!is_valid_spawn_surface(&reg, BlockStateId(3)));
    assert!(is_valid_spawn_surface(&reg, BlockStateId(4)));
    assert!(is_valid_spawn_surface(&reg, BlockStateId(5)));
}

#[test]
fn spawn_surface_rejects_every_fluid_level() {
    let reg = registry();
    assert!(!is_valid_spawn_surface(&reg, BlockStateId(6)));
}

#[test]
fn chunk_ring_starts_at_center_chunk() {
    let chunks = chunk_ring(ChunkPos::new(3, -2), 0);

    assert_eq!(chunks, vec![(3, -2)]);
}

#[test]
fn chunk_ring_visits_only_requested_radius() {
    let chunks = chunk_ring(ChunkPos::new(0, 0), 1);

    assert_eq!(chunks.len(), 8);
    assert!(chunks.contains(&(-1, -1)));
    assert!(chunks.contains(&(1, 1)));
    assert!(!chunks.contains(&(0, 0)));
}

#[test]
fn chunk_ring_is_ordered_by_x_then_z() {
    let chunks = chunk_ring(ChunkPos::new(10, 20), 1);
    assert_eq!(chunks, vec![(9, 19), (9, 20), (9, 21), (10, 19), (10, 21), (11, 19), (11, 20), (11, 21)]);
}

#[test]
fn chunk_ring_of_radius_two_has_sixteen_chunks() {
    let chunks = chunk_ring(ChunkPos::new(-5, 7), 2);
    assert_eq!(chunks.len(), 16);
    for (x, z) in chunks {
        let dx: i32 = x + 5;
        let dz: i32 = z - 7;
        assert_eq!(dx.abs().max(dz.abs()), 2);
    }
}

#[test]
fn shuffled_ring_holds_the_same_chunks() {
    let mut shuffled = shuffled_chunk_ring(ChunkPos::new(4, 4), 3);
    let mut ordered = chunk_ring(ChunkPos::new(4, 4), 3);
    shuffled.sort();
    ordered.sort();
    assert_eq!(shuffled, ordered);
    assert_eq!(ordered.len(), 24);
}

fn flat_chunk(surface: BlockStateId, height: i16) -> ChunkSurface {
    ChunkSurface::new(vec![height; 256], vec![surface; 256])
}

#[test]
fn spawn_position_is_the_column_surface() {
    let reg = registry();
    let chunk = flat_chunk(GRASS, 32);
    let pos = spawn_position_for_column(&reg, ChunkPos::new(5, 10), &chunk, 0, 0);
    assert_eq!(pos, Some(BlockPos::of(5, 32, 10)));
    let pos = spawn_position_for_column(&reg, ChunkPos::new(-3, 2), &chunk, 15, 4);
    assert_eq!(pos, Some(BlockPos::of(12, 32, 6)));
}

#[test]
fn no_spawn_position_on_water() {
    let reg = registry();
    let chunk = flat_chunk(WATER, 62);
    assert_eq!(spawn_position_for_column(&reg, ChunkPos::new(0, 0), &chunk, 3, 3), None);
}

#[test]
fn a_chunk_fills_the_queue_to_capacity() {
    let reg = registry();
    let chunk = flat_chunk(GRASS, 70);
    let mut queue = SpawnQueue::new(10);
    let pushed = enqueue_spawn_positions_from_chunk(&reg, ChunkPos::new(0, 0), &chunk, &mut queue);
    assert_eq!(pushed, 10);
    assert!(queue.is_full());
    for _ in 0..10 {
        let p = queue.pop().expect("queue holds ten positions");
        assert_eq!(p.y, 70);
        assert!((0..16).contains(&p.x) && (0..16).contains(&p.z));
    }
    assert!(queue.is_empty());
    assert_eq!(queue.pop(), None);
}

#[test]
fn a_chunk_adds_every_valid_column_once() {
    let reg = registry();
    let mut surfaces = vec![AIR; 256];
    surfaces[16 * 2 + 3] = GRASS;
    surfaces[16 * 9 + 14] = GRASS;
    let chunk = ChunkSurface::new(vec![40; 256], surfaces);
    let mut queue = SpawnQueue::new(100);
    assert_eq!(queue.push(BlockPos::of(1, 1, 1)), Ok(()));
    let pushed = enqueue_spawn_positions_from_chunk(&reg, ChunkPos::new(100, 200), &chunk, &mut queue);
    assert_eq!(pushed, 2);
    assert_eq!(queue.pop(), Some(BlockPos::of(1, 1, 1)));
    let mut rest = vec![queue.pop().unwrap(), queue.pop().unwrap()];
    rest.sort_by_key(|p| (p.x, p.z));
    assert_eq!(rest, vec![BlockPos::of(102, 40, 203), BlockPos::of(109, 40, 214)]);
    assert!(queue.is_empty());
}

#[test]
fn spawn_queue_refuses_pushes_when_full() {
    let mut queue = SpawnQueue::new(1);
    assert!(queue.is_empty());
    assert_eq!(queue.push(BlockPos::of(1, 2, 3)), Ok(()));
    assert!(queue.is_full());
    assert_eq!(queue.push(BlockPos::of(4, 5, 6)), Err(BlockPos::of(4, 5, 6)));
    assert_eq!(queue.pop(), Some(BlockPos::of(1, 2, 3)));
    assert_eq!(queue.pop(), None);
}

#[test]
fn chunk_ring_of_negative_radius_is_empty() {
    assert!(chunk_ring(ChunkPos::new(3, 3), -1).is_empty());
    assert!(chunk_ring(ChunkPos::new(0, 0), i32::MIN).is_empty());
}

#[test]
fn columns_are_enqueued_in_the_given_order() {
    let reg = registry();
    let mut surfaces = vec![GRASS; 256];
    surfaces[16 * 1 + 1] = WATER;
    let chunk = ChunkSurface::new(vec![50; 256], surfaces);
    let mut queue = SpawnQueue::new(2);
    let pushed = enqueue_columns(&reg, ChunkPos::new(0, 0), &chunk, &vec![(1, 1), (3, 4), (0, 2), (5, 5)], &mut queue);
    assert_eq!(pushed, 2);
    assert_eq!(queue.pop(), Some(BlockPos::of(3, 50, 4)));
    assert_eq!(queue.pop(), Some(BlockPos::of(0, 50, 2)));
    assert_eq!(queue.pop(), None);
}

#[test]
fn spawn_search_steps() {
    assert_eq!(spawn_search_step(true, true, true), SpawnSearchStep::Done);
    assert_eq!(spawn_search_step(false, true, true), SpawnSearchStep::OutOfTime);
    assert_eq!(spawn_search_step(false, false, true), SpawnSearchStep::Search);
    assert_eq!(spawn_search_step(false, false, false), SpawnSearchStep::Fallback);
}
