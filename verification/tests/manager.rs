use voxel_engine::chunk::Chunk;
use voxel_engine::chunk_manager::{
    despawn_chunks, reload_chunks, spawn_chunks, update_chunk_manager, ChunkManager, ConfigError,
    ReloadStep, RENDER_DISTANCE,
};
use voxel_engine::chunk_store::ChunkStore;
use voxel_engine::coord::{ChunkCoord, WorldPos};
use voxel_engine::mesh::MeshData;
use voxel_engine::scheduler::ChunkState;
use voxel_engine::voxel::{BlockType, Voxel};

fn at(x: i32, z: i32) -> ChunkCoord {
    ChunkCoord { x, y: 0, z }
}

fn square(cx: i32, cz: i32, r: i32) -> Vec<ChunkCoord> {
    let mut coords = Vec::new();
    for x in cx - r..=cx + r {
        for z in cz - r..=cz + r {
            coords.push(at(x, z));
        }
    }
    coords
}

fn load_all(manager: &mut ChunkManager, heights: &Vec<i32>) {
    while manager.load_chunk(heights).is_some() {}
}

fn count(queue: &Vec<ChunkCoord>, c: ChunkCoord) -> usize {
    queue.iter().filter(|q| **q == c).count()
}

#[test]
fn new_refuses_a_chunk_size_that_is_not_positive() {
    assert_eq!(ChunkManager::new(0, 8).err(), Some(ConfigError::NonPositiveChunkSize));
    assert_eq!(ChunkManager::new(-4, 8).err(), Some(ConfigError::NonPositiveChunkSize));
    assert_eq!(ChunkManager::new(i32::MIN, -1).err(), Some(ConfigError::NonPositiveChunkSize));
}

#[test]
fn new_refuses_a_chunk_size_beyond_the_maximum() {
    assert_eq!(ChunkManager::new(513, 8).err(), Some(ConfigError::ChunkSizeTooLarge));
    assert_eq!(ChunkManager::new(i32::MAX, -1).err(), Some(ConfigError::ChunkSizeTooLarge));
    assert!(ChunkManager::new(512, 0).is_ok());
}

#[test]
fn new_refuses_a_negative_render_distance() {
    assert_eq!(ChunkManager::new(4, -1).err(), Some(ConfigError::NegativeRenderDistance));
    assert_eq!(ChunkManager::new(1, i32::MIN).err(), Some(ConfigError::NegativeRenderDistance));
}

#[test]
fn config_errors_describe_themselves() {
    assert_eq!(ConfigError::NonPositiveChunkSize.message(), "chunk size must be positive");
    assert_eq!(
        ConfigError::ChunkSizeTooLarge.message(),
        "chunk size exceeds the supported maximum"
    );
    assert_eq!(
        ConfigError::NegativeRenderDistance.message(),
        "render distance must not be negative"
    );
}

#[test]
fn new_manager_is_empty() {
    let manager = ChunkManager::new(16, 3).unwrap();
    assert_eq!(manager.chunk_size(), 16);
    assert_eq!(manager.render_distance(), 3);
    assert_eq!(manager.store().len(), 0);
    assert!(manager.load_queue().is_empty());
    assert!(manager.unload_queue().is_empty());
    assert!(manager.reload_queue().is_empty());
    assert_eq!(manager.chunk_state(at(0, 0)), ChunkState::Unloaded);
}

#[test]
fn default_manager_uses_the_default_configuration() {
    let manager = ChunkManager::default();
    assert_eq!(manager.chunk_size(), 4);
    assert_eq!(manager.render_distance(), 8);
    assert_eq!(RENDER_DISTANCE, 8);
    assert_eq!(manager.store().len(), 0);
    assert!(manager.load_queue().is_empty());
}

#[test]
fn update_asks_for_the_square_around_the_viewpoint() {
    let mut manager = ChunkManager::new(4, 1).unwrap();
    manager.update(at(0, 0));
    assert_eq!(
        manager.load_queue(),
        vec![
            at(-1, -1),
            at(-1, 0),
            at(-1, 1),
            at(0, -1),
            at(0, 0),
            at(0, 1),
            at(1, -1),
            at(1, 0),
            at(1, 1)
        ]
    );
    assert!(manager.unload_queue().is_empty());
    assert_eq!(manager.store().len(), 0);
    for c in square(0, 0, 1) {
        assert_eq!(manager.chunk_state(c), ChunkState::PendingLoad);
    }
    assert_eq!(manager.chunk_state(at(2, 0)), ChunkState::Unloaded);
    assert_eq!(manager.chunk_state(ChunkCoord { x: 0, y: 1, z: 0 }), ChunkState::Unloaded);
}

#[test]
fn update_ignores_the_height_of_the_viewpoint() {
    let mut manager = ChunkManager::new(4, 1).unwrap();
    manager.update(ChunkCoord { x: 2, y: 7, z: -3 });
    assert_eq!(manager.load_queue(), square(2, -3, 1));
}

#[test]
fn update_with_radius_zero_wants_one_chunk() {
    let mut manager = ChunkManager::new(4, 0).unwrap();
    manager.update(at(5, -5));
    assert_eq!(manager.load_queue(), vec![at(5, -5)]);
}

#[test]
fn update_does_not_queue_a_position_twice() {
    let mut manager = ChunkManager::new(4, 1).unwrap();
    manager.update(at(0, 0));
    manager.update(at(0, 0));
    assert_eq!(manager.load_queue(), square(0, 0, 1));
    manager.update(at(1, 0));
    let queue = manager.load_queue();
    assert_eq!(queue.len(), 12);
    assert_eq!(queue[9..].to_vec(), vec![at(2, -1), at(2, 0), at(2, 1)]);
    for c in square(0, 0, 2) {
        assert!(count(&queue, c) <= 1);
    }
}

#[test]
fn update_does_not_ask_for_active_chunks() {
    let mut manager = ChunkManager::new(2, 1).unwrap();
    let heights = vec![1; 4];
    manager.update(at(0, 0));
    load_all(&mut manager, &heights);
    assert_eq!(manager.store().len(), 9);
    manager.update(at(0, 0));
    assert!(manager.load_queue().is_empty());
    assert!(manager.unload_queue().is_empty());
    assert_eq!(manager.store().len(), 9);
}

#[test]
fn update_near_the_edge_of_the_grid_stays_inside_it() {
    let mut manager = ChunkManager::new(4, 1).unwrap();
    manager.update(at(i32::MAX, i32::MIN));
    assert_eq!(
        manager.load_queue(),
        vec![
            at(i32::MAX - 1, i32::MIN),
            at(i32::MAX - 1, i32::MIN + 1),
            at(i32::MAX, i32::MIN),
            at(i32::MAX, i32::MIN + 1)
        ]
    );
}

#[test]
fn chunks_outside_the_square_move_to_the_unload_queue() {
    let mut manager = ChunkManager::new(2, 1).unwrap();
    let heights = vec![1; 4];
    manager.update(at(0, 0));
    load_all(&mut manager, &heights);
    manager.update(at(5, 0));
    assert_eq!(manager.unload_queue(), square(0, 0, 1));
    assert_eq!(manager.load_queue(), square(5, 0, 1));
    assert_eq!(manager.store().len(), 0);
    for c in square(0, 0, 1) {
        assert_eq!(manager.chunk_state(c), ChunkState::PendingUnload);
    }
}

#[test]
fn moving_one_chunk_over_unloads_one_row_and_loads_another() {
    let mut manager = ChunkManager::new(2, 1).unwrap();
    let heights = vec![1; 4];
    manager.update(at(0, 0));
    load_all(&mut manager, &heights);
    reload_chunks(&mut manager);
    manager.update(at(1, 0));
    assert_eq!(manager.unload_queue(), vec![at(-1, -1), at(-1, 0), at(-1, 1)]);
    assert_eq!(manager.load_queue(), vec![at(2, -1), at(2, 0), at(2, 1)]);
    assert_eq!(manager.store().len(), 6);
    assert_eq!(manager.store().chunk_at(0).position, at(0, -1));
    assert_eq!(manager.store().chunk_at(5).position, at(1, 1));
    assert_eq!(manager.chunk_state(at(0, 0)), ChunkState::Active);
    assert_eq!(manager.chunk_state(at(-1, 0)), ChunkState::PendingUnload);
    assert_eq!(manager.chunk_state(at(2, 0)), ChunkState::PendingLoad);
}

#[test]
fn a_chunk_that_waits_to_be_unloaded_is_not_asked_for_again() {
    let mut manager = ChunkManager::new(2, 0).unwrap();
    let heights = vec![1; 4];
    manager.update(at(0, 0));
    load_all(&mut manager, &heights);
    manager.update(at(3, 0));
    assert_eq!(manager.unload_queue(), vec![at(0, 0)]);
    manager.update(at(0, 0));
    assert_eq!(manager.chunk_state(at(0, 0)), ChunkState::PendingUnload);
    assert_eq!(manager.load_queue(), vec![at(3, 0)]);
    assert_eq!(manager.unload_chunk(), Some(at(0, 0)));
    assert_eq!(manager.chunk_state(at(0, 0)), ChunkState::Unloaded);
    manager.update(at(0, 0));
    assert_eq!(manager.chunk_state(at(0, 0)), ChunkState::PendingLoad);
    assert_eq!(manager.load_queue(), vec![at(3, 0), at(0, 0)]);
}

#[test]
fn load_chunk_on_an_empty_queue_does_nothing() {
    let mut manager = ChunkManager::new(2, 1).unwrap();
    assert_eq!(manager.load_chunk(&vec![1; 4]), None);
    assert_eq!(manager.store().len(), 0);
    assert!(manager.reload_queue().is_empty());
}

#[test]
fn load_chunk_moves_the_first_position_into_the_store() {
    let mut manager = ChunkManager::new(2, 1).unwrap();
    let heights = vec![1, 2, 0, 1];
    manager.update(at(0, 0));
    assert_eq!(manager.load_chunk(&heights), Some(at(-1, -1)));
    assert_eq!(manager.load_queue().len(), 8);
    assert_eq!(manager.load_queue()[0], at(-1, 0));
    assert_eq!(manager.store().len(), 1);
    assert_eq!(manager.chunk_state(at(-1, -1)), ChunkState::Active);
    let chunk = manager.store().get(at(-1, -1)).unwrap();
    assert_eq!(chunk.voxel_data.voxels, Chunk::new(at(-1, -1), 2, &heights).voxel_data.voxels);
    assert!(manager.reload_queue().is_empty());
}

#[test]
fn loading_beside_an_active_chunk_asks_it_to_reload_once() {
    let mut manager = ChunkManager::new(2, 1).unwrap();
    let heights = vec![1; 4];
    manager.update(at(0, 0));
    for _ in 0..7 {
        manager.load_chunk(&heights);
    }
    assert_eq!(manager.chunk_state(at(0, 0)), ChunkState::PendingReload);
    assert_eq!(count(&manager.reload_queue(), at(0, 0)), 1);
    assert_eq!(manager.load_chunk(&heights), Some(at(1, 0)));
    assert_eq!(count(&manager.reload_queue(), at(0, 0)), 1);
    assert_eq!(manager.load_chunk(&heights), Some(at(1, 1)));
    assert_eq!(
        manager.reload_queue(),
        vec![
            at(-1, -1),
            at(-1, 0),
            at(-1, 1),
            at(0, -1),
            at(0, 0),
            at(0, 1),
            at(1, -1),
            at(1, 0)
        ]
    );
}

#[test]
fn loading_after_the_reloads_were_done_asks_again_once() {
    let mut manager = ChunkManager::new(2, 1).unwrap();
    let heights = vec![1; 4];
    manager.update(at(0, 0));
    for _ in 0..7 {
        manager.load_chunk(&heights);
    }
    reload_chunks(&mut manager);
    assert!(manager.reload_queue().is_empty());
    assert_eq!(manager.chunk_state(at(0, 0)), ChunkState::Active);
    assert_eq!(manager.load_chunk(&heights), Some(at(1, 0)));
    assert_eq!(manager.reload_queue(), vec![at(0, -1), at(0, 0), at(0, 1), at(1, -1)]);
    assert_eq!(count(&manager.reload_queue(), at(0, 0)), 1);
    assert_eq!(manager.chunk_state(at(0, 0)), ChunkState::PendingReload);
    assert_eq!(manager.chunk_state(at(1, 0)), ChunkState::Active);
}

#[test]
fn unload_chunk_hands_out_the_positions_in_order() {
    let mut manager = ChunkManager::new(2, 1).unwrap();
    let heights = vec![1; 4];
    manager.update(at(0, 0));
    load_all(&mut manager, &heights);
    manager.update(at(1, 0));
    assert_eq!(manager.unload_chunk(), Some(at(-1, -1)));
    assert_eq!(manager.chunk_state(at(-1, -1)), ChunkState::Unloaded);
    assert_eq!(manager.unload_chunk(), Some(at(-1, 0)));
    assert_eq!(manager.unload_chunk(), Some(at(-1, 1)));
    assert_eq!(manager.unload_chunk(), None);
    assert_eq!(manager.store().len(), 6);
}

#[test]
fn reload_chunk_rebuilds_the_mesh_of_an_active_chunk() {
    let mut manager = ChunkManager::new(2, 1).unwrap();
    let heights = vec![1, 2, 0, 1];
    manager.update(at(0, 0));
    load_all(&mut manager, &heights);
    assert_eq!(manager.reload_queue()[0], at(-1, -1));
    let expected =
        MeshData::extract(manager.store().get(at(-1, -1)).unwrap(), manager.store());
    match manager.reload_chunk() {
        ReloadStep::Rebuilt(rebuilt) => {
            assert_eq!(rebuilt.position, at(-1, -1));
            assert_eq!(rebuilt.mesh.vertices, expected.vertices);
            assert_eq!(rebuilt.mesh.indices, expected.indices);
        }
        _ => panic!("the first position of the reload queue is active"),
    }
    assert_eq!(manager.reload_queue().len(), 7);
    assert_eq!(manager.chunk_state(at(-1, -1)), ChunkState::Active);
    assert_eq!(manager.store().len(), 9);
}

#[test]
fn reload_chunk_skips_a_chunk_that_has_gone() {
    let mut manager = ChunkManager::new(2, 1).unwrap();
    let heights = vec![1; 4];
    manager.update(at(0, 0));
    load_all(&mut manager, &heights);
    manager.update(at(9, 9));
    despawn_chunks(&mut manager);
    assert_eq!(manager.reload_queue().len(), 8);
    match manager.reload_chunk() {
        ReloadStep::Skipped(c) => assert_eq!(c, at(-1, -1)),
        _ => panic!("the chunk has been unloaded"),
    }
    assert_eq!(manager.reload_queue().len(), 7);
    assert!(reload_chunks(&mut manager).is_empty());
    assert!(manager.reload_queue().is_empty());
    assert!(matches!(manager.reload_chunk(), ReloadStep::Idle));
}

#[test]
fn spawn_chunks_loads_and_meshes_in_queue_order() {
    let mut manager = ChunkManager::new(2, 1).unwrap();
    manager.update(at(0, 0));
    let terrain: Vec<Vec<i32>> = (0..9).map(|i| vec![i % 3, 1, 2, 0]).collect();
    let meshes = spawn_chunks(&mut manager, &terrain);
    assert_eq!(meshes.len(), 9);
    assert!(manager.load_queue().is_empty());
    assert_eq!(manager.store().len(), 9);
    let order = square(0, 0, 1);
    let mut replay = ChunkStore::new(2);
    for i in 0..9 {
        assert_eq!(meshes[i].position, order[i]);
        replay.insert(Chunk::new(order[i], 2, &terrain[i]));
        let expected = MeshData::extract(&Chunk::new(order[i], 2, &terrain[i]), &replay);
        assert_eq!(meshes[i].mesh.vertices, expected.vertices);
        assert_eq!(meshes[i].mesh.indices, expected.indices);
    }
    assert_eq!(manager.reload_queue().len(), 8);
}

#[test]
fn spawn_chunks_loads_no_more_than_it_has_terrain_for() {
    let mut manager = ChunkManager::new(2, 1).unwrap();
    manager.update(at(0, 0));
    let terrain: Vec<Vec<i32>> = vec![vec![1; 4], vec![2; 4]];
    let meshes = spawn_chunks(&mut manager, &terrain);
    assert_eq!(meshes.len(), 2);
    assert_eq!(manager.store().len(), 2);
    assert_eq!(manager.load_queue().len(), 7);
    assert_eq!(manager.load_queue()[0], at(-1, 1));
    assert!(spawn_chunks(&mut manager, &Vec::new()).is_empty());
    assert_eq!(manager.load_queue().len(), 7);
}

#[test]
fn despawn_chunks_empties_the_unload_queue() {
    let mut manager = ChunkManager::new(2, 1).unwrap();
    let heights = vec![1; 4];
    manager.update(at(0, 0));
    load_all(&mut manager, &heights);
    manager.update(at(0, 2));
    let gone = despawn_chunks(&mut manager);
    assert_eq!(
        gone,
        vec![at(-1, -1), at(-1, 0), at(0, -1), at(0, 0), at(1, -1), at(1, 0)]
    );
    assert!(manager.unload_queue().is_empty());
    assert_eq!(manager.store().len(), 3);
    assert_eq!(manager.chunk_state(at(0, 0)), ChunkState::Unloaded);
    assert!(despawn_chunks(&mut manager).is_empty());
}

#[test]
fn reload_chunks_rebuilds_each_waiting_chunk_once() {
    let mut manager = ChunkManager::new(2, 1).unwrap();
    let heights = vec![1, 2, 0, 1];
    manager.update(at(0, 0));
    load_all(&mut manager, &heights);
    let waiting = manager.reload_queue();
    let meshes = reload_chunks(&mut manager);
    assert_eq!(meshes.len(), 8);
    for i in 0..8 {
        assert_eq!(meshes[i].position, waiting[i]);
        let expected =
            MeshData::extract(manager.store().get(waiting[i]).unwrap(), manager.store());
        assert_eq!(meshes[i].mesh.vertices, expected.vertices);
        assert_eq!(meshes[i].mesh.indices, expected.indices);
    }
    assert!(manager.reload_queue().is_empty());
    assert_eq!(manager.store().len(), 9);
    assert!(reload_chunks(&mut manager).is_empty());
}

#[test]
fn update_chunk_manager_floors_the_viewpoint() {
    let mut manager = ChunkManager::new(16, 0).unwrap();
    update_chunk_manager(&mut manager, WorldPos { x: -1, y: 40, z: 31 });
    assert_eq!(manager.load_queue(), vec![at(-1, 1)]);
    let mut other = ChunkManager::new(16, 0).unwrap();
    update_chunk_manager(&mut other, WorldPos { x: -16, y: -40, z: -17 });
    assert_eq!(other.load_queue(), vec![at(-1, -2)]);
    let mut third = ChunkManager::new(16, 0).unwrap();
    update_chunk_manager(&mut third, WorldPos { x: 15, y: 0, z: 16 });
    assert_eq!(third.load_queue(), vec![at(0, 1)]);
}

#[test]
fn update_chunk_manager_far_outside_the_grid_wants_nothing() {
    let mut manager = ChunkManager::new(1, 2).unwrap();
    update_chunk_manager(&mut manager, WorldPos { x: i64::MAX, y: 0, z: i64::MIN });
    assert!(manager.load_queue().is_empty());
    update_chunk_manager(&mut manager, WorldPos { x: i32::MAX as i64 + 2, y: 0, z: 0 });
    assert_eq!(
        manager.load_queue(),
        vec![
            at(i32::MAX, -2),
            at(i32::MAX, -1),
            at(i32::MAX, 0),
            at(i32::MAX, 1),
            at(i32::MAX, 2)
        ]
    );
}

#[test]
fn get_voxel_at_global_position_reads_active_chunks_only() {
    let mut manager = ChunkManager::new(2, 0).unwrap();
    manager.update(at(-1, 0));
    assert!(manager.get_voxel_at_global_position(WorldPos { x: -1, y: 0, z: 0 }).is_none());
    manager.load_chunk(&vec![0, 1, 0, 2]);
    assert_eq!(
        manager.get_voxel_at_global_position(WorldPos { x: -1, y: 0, z: 0 }),
        Some(&Voxel { is_active: true, block_type: BlockType::Grass })
    );
    assert_eq!(
        manager.get_voxel_at_global_position(WorldPos { x: -2, y: 0, z: 0 }),
        Some(&Voxel { is_active: false, block_type: BlockType::Default })
    );
    assert_eq!(
        manager.get_voxel_at_global_position(WorldPos { x: -1, y: 1, z: 1 }),
        Some(&Voxel { is_active: true, block_type: BlockType::Grass })
    );
    assert!(manager.get_voxel_at_global_position(WorldPos { x: 0, y: 0, z: 0 }).is_none());
    assert!(manager.get_voxel_at_global_position(WorldPos { x: -1, y: 2, z: 0 }).is_none());
}

#[test]
fn a_position_is_never_in_two_places() {
    let mut manager = ChunkManager::new(2, 1).unwrap();
    let heights = vec![1; 4];
    let path = [at(0, 0), at(1, 0), at(1, 1), at(3, 3), at(0, 0), at(-2, 1), at(0, 0)];
    for (step, viewpoint) in path.iter().enumerate() {
        manager.update(*viewpoint);
        if step % 2 == 0 {
            despawn_chunks(&mut manager);
        }
        for _ in 0..(step + 2) {
            manager.load_chunk(&heights);
        }
        if step % 3 == 0 {
            reload_chunks(&mut manager);
        }
        let load = manager.load_queue();
        let unload = manager.unload_queue();
        let reload = manager.reload_queue();
        for c in square(0, 0, 5) {
            let active = manager.store().contains_key(c) as usize;
            assert!(active + count(&load, c) + count(&unload, c) <= 1);
            assert!(count(&reload, c) <= 1);
        }
    }
}

#[test]
fn loading_leaves_meshes_that_are_not_rebuilt_as_they_were() {
    let mut manager = ChunkManager::new(2, 1).unwrap();
    let terrain = |c: ChunkCoord| vec![(c.x & 1) + 1, (c.z & 1) + 1, 1, 2];
    manager.update(at(0, 0));
    while let Some(next) = manager.load_queue().first().copied() {
        manager.load_chunk(&terrain(next));
    }
    reload_chunks(&mut manager);
    manager.update(at(1, 1));
    despawn_chunks(&mut manager);
    let active: Vec<ChunkCoord> =
        (0..manager.store().len()).map(|i| manager.store().chunk_at(i).position).collect();
    let before: Vec<MeshData> = active
        .iter()
        .map(|c| MeshData::extract(manager.store().get(*c).unwrap(), manager.store()))
        .collect();
    assert_eq!(manager.load_chunk(&terrain(at(0, 2))), Some(at(0, 2)));
    let waiting = manager.reload_queue();
    assert_eq!(waiting, vec![at(0, 1), at(1, 1)]);
    let mut unchanged = 0;
    let mut changed = 0;
    for (i, c) in active.iter().enumerate() {
        let after = MeshData::extract(manager.store().get(*c).unwrap(), manager.store());
        if !waiting.contains(c) {
            assert_eq!(after.vertices, before[i].vertices);
            assert_eq!(after.indices, before[i].indices);
            unchanged += 1;
        } else if after.indices != before[i].indices {
            changed += 1;
        }
    }
    assert_eq!(unchanged, 2);
    assert_eq!(changed, 1);
}
