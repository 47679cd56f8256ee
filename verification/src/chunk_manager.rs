//! The chunk manager: the chunk store together with the streaming
//! scheduler that fills and empties it as the viewpoint moves.

use crate::chunk::{Chunk, ChunkView, CHUNK_SIZE};
use crate::chunk_store::{at_position, ChunkStore};
use crate::coord::{chunk_index, floor_div, ChunkCoord, WorldPos};
use crate::mesh::MeshData;
use crate::scheduler::{
    clip_hi, clip_lo, lemma_square_cell, lemma_square_order, span, square_order, ChunkMeshView,
    ChunkState, SchedulerState,
};
use crate::seq_facts::lemma_filter_take;
use crate::voxel::{height_map_grid, lemma_volume, Voxel, VoxelGrid, MAX_CHUNK_SIZE};
use std::collections::VecDeque;
use vstd::prelude::*;

verus! {

/// Streaming radius, in chunks, where none is configured.
pub const RENDER_DISTANCE: i32 = 8;

/// Why a configuration was refused.
#[derive(Clone, Copy, Debug, PartialEq, Eq, Structural)]
pub enum ConfigError {
    /// The chunk edge length is zero or negative.
    NonPositiveChunkSize,
    /// The chunk edge length exceeds the largest supported one.
    ChunkSizeTooLarge,
    /// The streaming radius is negative.
    NegativeRenderDistance,
}

impl ConfigError {
    /// What is wrong with the configuration, in words.
    pub open spec fn message_text(self) -> Seq<char> {
        match self {
            ConfigError::NonPositiveChunkSize => "chunk size must be positive"@,
            ConfigError::ChunkSizeTooLarge => "chunk size exceeds the supported maximum"@,
            ConfigError::NegativeRenderDistance => "render distance must not be negative"@,
        }
    }

    /// What is wrong with the configuration, in words.
    pub fn message(&self) -> (text: String)
        ensures
            text@ == self.message_text(),
    {
        match self {
            ConfigError::NonPositiveChunkSize => "chunk size must be positive".to_string(),
            ConfigError::ChunkSizeTooLarge => "chunk size exceeds the supported maximum".to_string(),
            ConfigError::NegativeRenderDistance => "render distance must not be negative".to_string(),
        }
    }
}

/// The mesh of the chunk at a position.
#[derive(Debug)]
pub struct ChunkMesh {
    pub position: ChunkCoord,
    pub mesh: MeshData,
}

impl View for ChunkMesh {
    type V = ChunkMeshView;

    open spec fn view(&self) -> ChunkMeshView {
        ChunkMeshView { position: self.position, mesh: self.mesh@ }
    }
}

/// The meshes of a sequence, as mathematical values.
pub open spec fn mesh_views(meshes: Seq<ChunkMesh>) -> Seq<ChunkMeshView> {
    Seq::new(meshes.len(), |i: int| meshes[i]@)
}

/// The volumes that the height maps `terrain` describe, for chunks of edge
/// length `n`.
pub open spec fn terrain_grids(n: int, terrain: Seq<Vec<i32>>) -> Seq<VoxelGrid> {
    Seq::new(terrain.len(), |i: int| height_map_grid(n, terrain[i]@))
}

/// What one step of the reload queue did.
#[derive(Debug)]
pub enum ReloadStep {
    /// The reload queue was empty.
    Idle,
    /// The position left the queue; its chunk is no longer active, so no
    /// mesh was built.
    Skipped(ChunkCoord),
    /// The position left the queue and the mesh of its chunk was rebuilt.
    Rebuilt(ChunkMesh),
}

/// The chunk store and the queues of the streaming scheduler.
#[derive(Debug)]
pub struct ChunkManager {
    active_chunks: ChunkStore,
    load_queue: VecDeque<ChunkCoord>,
    unload_queue: VecDeque<ChunkCoord>,
    reload_queue: VecDeque<ChunkCoord>,
    render_distance: i32,
}

impl View for ChunkManager {
    type V = SchedulerState;

    closed spec fn view(&self) -> SchedulerState {
        SchedulerState {
            store: self.active_chunks@,
            load_queue: self.load_queue@,
            unload_queue: self.unload_queue@,
            reload_queue: self.reload_queue@,
            render_distance: self.render_distance as int,
        }
    }
}

/// Whether `queue` holds `coord`.
fn queue_contains(queue: &VecDeque<ChunkCoord>, coord: ChunkCoord) -> (found: bool)
    ensures
        found == queue@.contains(coord),
{
    let mut i: usize = 0;
    while i < queue.len()
        invariant
            i <= queue@.len(),
            forall|j: int| 0 <= j < i ==> queue@[j] != coord,
        decreases queue@.len() - i,
    {
        let c = queue[i];
        if c.x == coord.x && c.y == coord.y && c.z == coord.z {
            return true;
        }
        i = i + 1;
    }
    false
}

/// The positions of `queue`, first to last.
fn queue_to_vec(queue: &VecDeque<ChunkCoord>) -> (coords: Vec<ChunkCoord>)
    ensures
        coords@ == queue@,
{
    let mut coords: Vec<ChunkCoord> = Vec::new();
    let mut i: usize = 0;
    while i < queue.len()
        invariant
            i <= queue@.len(),
            coords@ == queue@.take(i as int),
        decreases queue@.len() - i,
    {
        coords.push(queue[i]);
        assert(queue@.take(i as int + 1) =~= queue@.take(i as int).push(queue@[i as int]));
        i = i + 1;
    }
    assert(queue@.take(i as int) =~= queue@);
    coords
}

/// The least and the greatest chunk index within `r` of `v`. Where the
/// first exceeds the second there is none.
fn clip_range(v: i64, r: i32) -> (range: (i64, i64))
    requires
        r >= 0,
    ensures
        range.0 == clip_lo(v as int, r as int),
        range.1 == clip_hi(v as int, r as int),
{
    let lo: i128 = v as i128 - r as i128;
    let hi: i128 = v as i128 + r as i128;
    let lo: i128 = if lo < -0x8000_0000 {
        -0x8000_0000
    } else {
        lo
    };
    let hi: i128 = if hi > 0x7fff_ffff {
        0x7fff_ffff
    } else {
        hi
    };
    (lo as i64, hi as i64)
}

/// The number of chunk indices within `r` of `v`.
fn span_of(v: i64, r: i32) -> (w: u128)
    requires
        r >= 0,
    ensures
        w == span(v as int, r as int),
        w <= 0x1_0000_0000,
{
    let (lo, hi) = clip_range(v, r);
    if hi < lo {
        0
    } else {
        (hi as i128 - lo as i128 + 1) as u128
    }
}

/// The number of positions of the square of radius `r` around column
/// `(vx, vz)`.
fn square_len(vx: i64, vz: i64, r: i32) -> (len: u128)
    requires
        r >= 0,
    ensures
        len == square_order(vx as int, vz as int, r as int).len(),
{
    let wx = span_of(vx, r);
    let wz = span_of(vz, r);
    assert(0 <= wx * wz <= 0x1_0000_0000 * 0x1_0000_0000) by (nonlinear_arith)
        requires
            0 <= wx <= 0x1_0000_0000,
            0 <= wz <= 0x1_0000_0000,
    ;
    wx * wz
}

/// The position at place `k` of the visiting order of the square of radius
/// `r` around column `(vx, vz)`.
fn square_cell(vx: i64, vz: i64, r: i32, k: u128) -> (c: ChunkCoord)
    requires
        r >= 0,
        k < square_order(vx as int, vz as int, r as int).len(),
    ensures
        c == square_order(vx as int, vz as int, r as int)[k as int],
{
    let wz = span_of(vz, r);
    let (xlo, _xhi) = clip_range(vx, r);
    let (zlo, _zhi) = clip_range(vz, r);
    proof {
        lemma_square_cell(vx as int, vz as int, r as int, k as int);
    }
    let x: i128 = xlo as i128 + (k / wz) as i128;
    let z: i128 = zlo as i128 + (k % wz) as i128;
    ChunkCoord { x: x as i32, y: 0, z: z as i32 }
}

impl Default for ChunkManager {
    /// A manager for chunks of the default edge length with the default
    /// streaming radius.
    fn default() -> (manager: ChunkManager)
        ensures
            manager@ == SchedulerState::initial(CHUNK_SIZE as int, RENDER_DISTANCE as int),
            manager.wf(),
    {
        ChunkManager {
            active_chunks: ChunkStore::new(CHUNK_SIZE),
            load_queue: VecDeque::new(),
            unload_queue: VecDeque::new(),
            reload_queue: VecDeque::new(),
            render_distance: RENDER_DISTANCE,
        }
    }
}

impl ChunkManager {
    /// The manager's store and queues are consistent: see
    /// [`SchedulerState::wf`].
    pub open spec fn wf(&self) -> bool {
        self@.wf()
    }

    /// A manager for chunks of edge length `chunk_size` that keeps the
    /// chunks within `render_distance` of the viewpoint. The edge length
    /// must lie between one and the largest supported one, and the radius
    /// must not be negative.
    pub fn new(chunk_size: i32, render_distance: i32) -> (made: Result<ChunkManager, ConfigError>)
        ensures
            match made {
                Ok(manager) => {
                    &&& 0 < chunk_size <= MAX_CHUNK_SIZE
                    &&& 0 <= render_distance
                    &&& manager@ == SchedulerState::initial(
                        chunk_size as int,
                        render_distance as int,
                    )
                    &&& manager.wf()
                },
                Err(ConfigError::NonPositiveChunkSize) => chunk_size <= 0,
                Err(ConfigError::ChunkSizeTooLarge) => chunk_size > MAX_CHUNK_SIZE,
                Err(ConfigError::NegativeRenderDistance) => 0 < chunk_size <= MAX_CHUNK_SIZE
                    && render_distance < 0,
            },
    {
        if chunk_size <= 0 {
            Err(ConfigError::NonPositiveChunkSize)
        } else if chunk_size > MAX_CHUNK_SIZE {
            Err(ConfigError::ChunkSizeTooLarge)
        } else if render_distance < 0 {
            Err(ConfigError::NegativeRenderDistance)
        } else {
            Ok(
                ChunkManager {
                    active_chunks: ChunkStore::new(chunk_size),
                    load_queue: VecDeque::new(),
                    unload_queue: VecDeque::new(),
                    reload_queue: VecDeque::new(),
                    render_distance,
                },
            )
        }
    }

    /// Edge length of the chunks, in voxels.
    pub fn chunk_size(&self) -> (n: i32)
        ensures
            n == self@.store.chunk_size,
    {
        self.active_chunks.chunk_size()
    }

    /// Streaming radius, in chunks.
    pub fn render_distance(&self) -> (r: i32)
        ensures
            r == self@.render_distance,
    {
        self.render_distance
    }

    /// The chunk store.
    pub fn store(&self) -> (store: &ChunkStore)
        ensures
            store@ == self@.store,
    {
        &self.active_chunks
    }

    /// The positions that wait to be loaded, first to last.
    pub fn load_queue(&self) -> (coords: Vec<ChunkCoord>)
        ensures
            coords@ == self@.load_queue,
    {
        queue_to_vec(&self.load_queue)
    }

    /// The positions that wait to be unloaded, first to last.
    pub fn unload_queue(&self) -> (coords: Vec<ChunkCoord>)
        ensures
            coords@ == self@.unload_queue,
    {
        queue_to_vec(&self.unload_queue)
    }

    /// The positions whose mesh is owed a rebuild, first to last.
    pub fn reload_queue(&self) -> (coords: Vec<ChunkCoord>)
        ensures
            coords@ == self@.reload_queue,
    {
        queue_to_vec(&self.reload_queue)
    }

    /// The state of position `coord`.
    pub fn chunk_state(&self, coord: ChunkCoord) -> (state: ChunkState)
        requires
            self.wf(),
        ensures
            state == self@.state(coord),
    {
        if queue_contains(&self.load_queue, coord) {
            ChunkState::PendingLoad
        } else if queue_contains(&self.unload_queue, coord) {
            ChunkState::PendingUnload
        } else if self.active_chunks.contains_key(coord) {
            if queue_contains(&self.reload_queue, coord) {
                ChunkState::PendingReload
            } else {
                ChunkState::Active
            }
        } else {
            ChunkState::Unloaded
        }
    }

    /// The voxel at world position `global_pos`, or `None` where the chunk
    /// that owns the position is not active.
    pub fn get_voxel_at_global_position(&self, global_pos: WorldPos) -> (found: Option<&Voxel>)
        requires
            self.wf(),
        ensures
            match found {
                Some(v) => self@.store.sample(
                    global_pos.x as int,
                    global_pos.y as int,
                    global_pos.z as int,
                ) == Some(*v),
                None => self@.store.sample(
                    global_pos.x as int,
                    global_pos.y as int,
                    global_pos.z as int,
                ) is None,
            },
    {
        self.active_chunks.sample_world(global_pos)
    }

    /// Asks for the chunk at `coord`: the position joins the load queue
    /// where it is unloaded. A position that is active or waits in a queue
    /// is passed over.
    fn request_load(&mut self, coord: ChunkCoord) -> (queued: bool)
        requires
            old(self).wf(),
        ensures
            final(self)@ == old(self)@.request_load(coord),
            queued == (old(self)@.state(coord) is Unloaded),
    {
        if self.active_chunks.contains_key(coord) || queue_contains(&self.load_queue, coord)
            || queue_contains(&self.unload_queue, coord) {
            false
        } else {
            self.load_queue.push_back(coord);
            true
        }
    }

    /// Asks for the chunks that a viewpoint in chunk column `(vx, vz)`
    /// wants: each position of the square of the streaming radius around
    /// the column joins the load queue, unless it is active or waits in a
    /// queue already.
    fn populate_load_queue(&mut self, vx: i64, vz: i64)
        requires
            old(self).wf(),
        ensures
            final(self)@ == old(self)@.populate_load_queue(vx as int, vz as int),
            final(self).wf(),
    {
        let ghost start = self@;
        let r: i32 = self.render_distance;
        let ghost order = square_order(vx as int, vz as int, r as int);
        let len: u128 = square_len(vx, vz, r);
        let mut k: u128 = 0;
        proof {
            lemma_square_order(vx as int, vz as int, r as int);
            assert(order.take(0).filter(start.loadable()) =~= Seq::empty()) by {
                reveal(Seq::filter);
            }
            assert(start.load_queue + Seq::empty() =~= start.load_queue);
        }
        while k < len
            invariant
                start.wf(),
                r == start.render_distance,
                order == square_order(vx as int, vz as int, r as int),
                order.no_duplicates(),
                len == order.len(),
                k <= len,
                self@ == start.enqueue_loads(order.take(k as int)),
            decreases len - k,
        {
            let c = square_cell(vx, vz, r, k);
            proof {
                start.lemma_enqueue_loads(order.take(k as int));
                start.lemma_enqueue_loads_step(order, k as int);
            }
            self.request_load(c);
            k = k + 1;
        }
        proof {
            assert(order.take(k as int) =~= order);
            start.lemma_populate_load_queue(vx as int, vz as int);
        }
    }

    /// Gives up the chunks that a viewpoint in chunk column `(vx, vz)` no
    /// longer wants: each active chunk outside the square of the streaming
    /// radius around the column leaves the store, and its position joins
    /// the unload queue.
    fn populate_unload_queue(&mut self, vx: i64, vz: i64)
        requires
            old(self).wf(),
        ensures
            final(self)@ == old(self)@.populate_unload_queue(vx as int, vz as int),
            final(self).wf(),
    {
        let ghost start = self@;
        let ghost keep = at_position(start.wanted(vx as int, vz as int));
        let ghost leave = start.unwanted(vx as int, vz as int);
        let r: i32 = self.render_distance;
        let (xlo, xhi) = clip_range(vx, r);
        let (zlo, zhi) = clip_range(vz, r);
        let mut i: usize = 0;
        let ghost mut k: int = 0;
        proof {
            start.store.lemma_coords();
            assert(start.store.chunks.take(0).filter(keep) =~= Seq::empty()) by {
                reveal(Seq::filter);
            }
            assert(start.store.coords().take(0).filter(leave) =~= Seq::empty()) by {
                reveal(Seq::filter);
            }
            assert(start.store.chunks.skip(0) =~= start.store.chunks);
            assert(Seq::<ChunkView>::empty() + start.store.chunks =~= start.store.chunks);
            assert(start.unload_queue + Seq::<ChunkCoord>::empty() =~= start.unload_queue);
        }
        while i < self.active_chunks.len()
            invariant
                start.wf(),
                r == start.render_distance,
                keep == at_position(start.wanted(vx as int, vz as int)),
                leave == start.unwanted(vx as int, vz as int),
                xlo == clip_lo(vx as int, r as int),
                xhi == clip_hi(vx as int, r as int),
                zlo == clip_lo(vz as int, r as int),
                zhi == clip_hi(vz as int, r as int),
                0 <= k <= start.store.chunks.len(),
                i == start.store.chunks.take(k).filter(keep).len(),
                self.active_chunks.wf(),
                self@.store.chunk_size == start.store.chunk_size,
                self@.store.chunks == start.store.chunks.take(k).filter(keep)
                    + start.store.chunks.skip(k),
                self@.unload_queue == start.unload_queue + start.store.coords().take(k).filter(
                    leave,
                ),
                self@.load_queue == start.load_queue,
                self@.reload_queue == start.reload_queue,
                self@.render_distance == start.render_distance,
            decreases start.store.chunks.len() - k,
        {
            let c = self.active_chunks.chunk_at(i).position;
            let ghost kept = start.store.chunks.take(k).filter(keep);
            proof {
                assert(self@.store.chunks[i as int] == start.store.chunks.skip(k)[0]);
                assert(c == start.store.chunks[k].position);
                assert(start.store.coords()[k] == c);
                lemma_filter_take(start.store.chunks, keep, k);
                lemma_filter_take(start.store.coords(), leave, k);
                assert(keep(start.store.chunks[k]) == start.desired(vx as int, vz as int, c));
                assert(leave(c) == !start.desired(vx as int, vz as int, c));
            }
            let wanted: bool = c.y == 0 && xlo <= c.x as i64 && c.x as i64 <= xhi && zlo
                <= c.z as i64 && c.z as i64 <= zhi;
            assert(wanted == start.desired(vx as int, vz as int, c));
            if wanted {
                proof {
                    assert(kept.push(start.store.chunks[k]) + start.store.chunks.skip(k + 1)
                        =~= kept + start.store.chunks.skip(k));
                }
                i = i + 1;
            } else {
                proof {
                    self@.store.lemma_index_of(i as int);
                    assert((kept + start.store.chunks.skip(k)).remove(i as int) =~= kept
                        + start.store.chunks.skip(k + 1));
                }
                self.active_chunks.remove(c);
                self.unload_queue.push_back(c);
            }
            proof {
                k = k + 1;
            }
        }
        proof {
            assert(start.store.chunks.skip(k) =~= Seq::empty());
            assert(start.store.chunks.take(k) =~= start.store.chunks);
            assert(start.store.coords().take(k) =~= start.store.coords());
            assert(start.store.chunks.filter(keep) + Seq::<ChunkView>::empty()
                =~= start.store.chunks.filter(keep));
            start.lemma_populate_unload_queue(vx as int, vz as int);
        }
    }

    /// Brings the queues up to date for a viewpoint in the chunk at
    /// `player_chunk_position`, of which only the column counts: the
    /// desired positions that are unloaded join the load queue, and the
    /// active chunks that are no longer desired leave the store for the
    /// unload queue.
    pub fn update(&mut self, player_chunk_position: ChunkCoord)
        requires
            old(self).wf(),
        ensures
            final(self)@ == old(self)@.update(
                player_chunk_position.x as int,
                player_chunk_position.z as int,
            ),
            final(self).wf(),
    {
        self.populate_load_queue(player_chunk_position.x as i64, player_chunk_position.z as i64);
        self.populate_unload_queue(player_chunk_position.x as i64, player_chunk_position.z as i64);
    }

    /// Loads the chunk at the first position of the load queue, with the
    /// terrain that the height map `heights` describes: `heights` holds one
    /// entry per column, that of column `(x, z)` at `x + z * n` for chunks
    /// of edge length `n`. The chunk enters the store, and each active
    /// chunk next to it joins the reload queue unless it waits there
    /// already, because its mesh now meets real data across the seam.
    /// Returns the position loaded, or `None` where the load queue was
    /// empty.
    pub fn load_chunk(&mut self, heights: &Vec<i32>) -> (loaded: Option<ChunkCoord>)
        requires
            old(self).wf(),
            heights@.len() == old(self)@.store.chunk_size * old(self)@.store.chunk_size,
        ensures
            final(self)@ == old(self)@.load_chunk(
                height_map_grid(old(self)@.store.chunk_size, heights@),
            ),
            final(self).wf(),
            loaded == (if old(self)@.load_queue.len() > 0 {
                Some(old(self)@.load_queue[0])
            } else {
                None
            }),
    {
        let ghost start = self@;
        let n: i32 = self.active_chunks.chunk_size();
        let ghost grid = height_map_grid(n as int, heights@);
        match self.load_queue.pop_front() {
            None => None,
            Some(c) => {
                let ghost order = square_order(c.x as int, c.z as int, 1);
                let len: u128 = square_len(c.x as i64, c.z as i64, 1);
                let mut k: u128 = 0;
                proof {
                    lemma_square_order(c.x as int, c.z as int, 1);
                    assert(order.take(0).filter(start.reloadable(c)) =~= Seq::empty()) by {
                        reveal(Seq::filter);
                    }
                    assert(start.reload_queue + Seq::empty() =~= start.reload_queue);
                }
                while k < len
                    invariant
                        start.wf(),
                        order == square_order(c.x as int, c.z as int, 1),
                        order.no_duplicates(),
                        len == order.len(),
                        k <= len,
                        self.active_chunks.wf(),
                        self@.store == start.store,
                        self@.load_queue == start.load_queue.drop_first(),
                        self@.unload_queue == start.unload_queue,
                        self@.render_distance == start.render_distance,
                        self@.reload_queue == start.enqueue_reloads(c, order.take(k as int)),
                    decreases len - k,
                {
                    let d = square_cell(c.x as i64, c.z as i64, 1, k);
                    proof {
                        start.lemma_enqueue_reloads_step(c, order, k as int);
                    }
                    let same: bool = d.x == c.x && d.y == c.y && d.z == c.z;
                    if !same && self.active_chunks.contains_key(d) && !queue_contains(
                        &self.reload_queue,
                        d,
                    ) {
                        self.reload_queue.push_back(d);
                    }
                    k = k + 1;
                }
                proof {
                    assert(order.take(k as int) =~= order);
                    lemma_volume(n as int);
                    start.lemma_load_chunk(grid);
                }
                let chunk = Chunk::new(c, n, heights);
                self.active_chunks.insert(chunk);
                Some(c)
            },
        }
    }

    /// Unloads the first position of the unload queue and returns it, as
    /// the signal that whatever was built for the chunk can be released.
    /// Returns `None` where the unload queue was empty.
    pub fn unload_chunk(&mut self) -> (unloaded: Option<ChunkCoord>)
        requires
            old(self).wf(),
        ensures
            final(self)@ == old(self)@.unload_chunk(),
            final(self).wf(),
            unloaded == (if old(self)@.unload_queue.len() > 0 {
                Some(old(self)@.unload_queue[0])
            } else {
                None
            }),
    {
        let ghost start = self@;
        match self.unload_queue.pop_front() {
            None => None,
            Some(c) => {
                proof {
                    start.lemma_unload_chunk();
                }
                self.active_chunks.remove(c);
                Some(c)
            },
        }
    }

    /// Takes the first position off the reload queue and, where its chunk
    /// is still active, rebuilds the chunk's mesh from the voxels as they
    /// are; the voxels are not touched.
    pub fn reload_chunk(&mut self) -> (step: ReloadStep)
        requires
            old(self).wf(),
        ensures
            final(self)@ == old(self)@.reload_chunk(),
            final(self).wf(),
            match step {
                ReloadStep::Idle => old(self)@.reload_queue.len() == 0,
                ReloadStep::Skipped(c) => old(self)@.reload_queue.len() > 0 && c == old(
                    self,
                )@.reload_queue[0] && !old(self)@.store.contains(c),
                ReloadStep::Rebuilt(rebuilt) => old(self)@.reload_queue.len() > 0 && old(
                    self,
                )@.store.contains(old(self)@.reload_queue[0]) && rebuilt@ == old(self)@.mesh_of(
                    old(self)@.reload_queue[0],
                ),
            },
    {
        let ghost start = self@;
        match self.reload_queue.pop_front() {
            None => ReloadStep::Idle,
            Some(c) => {
                proof {
                    start.lemma_reload_chunk();
                }
                match self.active_chunks.get(c) {
                    Some(chunk) => {
                        let mesh = MeshData::extract(chunk, &self.active_chunks);
                        ReloadStep::Rebuilt(ChunkMesh { position: c, mesh })
                    },
                    None => ReloadStep::Skipped(c),
                }
            },
        }
    }
}

/// Brings the queues of `chunk_manager` up to date for a viewpoint at
/// world position `viewpoint`: the viewpoint's chunk column is found by
/// floored division, and the manager is updated for it.
pub fn update_chunk_manager(chunk_manager: &mut ChunkManager, viewpoint: WorldPos)
    requires
        old(chunk_manager).wf(),
    ensures
        final(chunk_manager)@ == old(chunk_manager)@.update(
            chunk_index(viewpoint.x as int, old(chunk_manager)@.store.chunk_size),
            chunk_index(viewpoint.z as int, old(chunk_manager)@.store.chunk_size),
        ),
        final(chunk_manager).wf(),
{
    let n: i32 = chunk_manager.chunk_size();
    let vx: i64 = floor_div(viewpoint.x, n);
    let vz: i64 = floor_div(viewpoint.z, n);
    chunk_manager.populate_load_queue(vx, vz);
    chunk_manager.populate_unload_queue(vx, vz);
}

/// Loads the first chunks of the load queue, as many as `terrain` holds
/// height maps, and builds the mesh of each right after it is loaded,
/// among the chunks that are active by then. Returns the meshes in the
/// order of the queue.
pub fn spawn_chunks(chunk_manager: &mut ChunkManager, terrain: &Vec<Vec<i32>>) -> (meshes: Vec<
    ChunkMesh,
>)
    requires
        old(chunk_manager).wf(),
        terrain@.len() <= old(chunk_manager)@.load_queue.len(),
        forall|i: int|
            0 <= i < terrain@.len() ==> (#[trigger] terrain@[i])@.len() == old(
                chunk_manager,
            )@.store.chunk_size * old(chunk_manager)@.store.chunk_size,
    ensures
        final(chunk_manager)@ == old(chunk_manager)@.loaded(
            terrain_grids(old(chunk_manager)@.store.chunk_size, terrain@),
            terrain@.len(),
        ),
        final(chunk_manager).wf(),
        meshes@.len() == terrain@.len(),
        forall|i: int|
            0 <= i < meshes@.len() ==> (#[trigger] meshes@[i])@ == old(chunk_manager)@.loaded(
                terrain_grids(old(chunk_manager)@.store.chunk_size, terrain@),
                (i + 1) as nat,
            ).mesh_of(old(chunk_manager)@.load_queue[i]),
{
    let ghost start = chunk_manager@;
    let n: i32 = chunk_manager.chunk_size();
    let ghost grids = terrain_grids(n as int, terrain@);
    let mut meshes: Vec<ChunkMesh> = Vec::new();
    let mut k: usize = 0;
    proof {
        assert forall|i: int| 0 <= i < grids.len() implies (#[trigger] grids[i]).wf()
            && grids[i].size == start.store.chunk_size by {
            lemma_volume(n as int);
        }
    }
    while k < terrain.len()
        invariant
            start.wf(),
            n == start.store.chunk_size,
            grids == terrain_grids(n as int, terrain@),
            grids.len() == terrain@.len(),
            terrain@.len() <= start.load_queue.len(),
            forall|i: int|
                0 <= i < terrain@.len() ==> (#[trigger] terrain@[i])@.len()
                    == start.store.chunk_size * start.store.chunk_size,
            forall|i: int|
                0 <= i < grids.len() ==> (#[trigger] grids[i]).wf() && grids[i].size
                    == start.store.chunk_size,
            k <= terrain@.len(),
            chunk_manager@ == start.loaded(grids, k as nat),
            chunk_manager.wf(),
            meshes@.len() == k,
            forall|i: int|
                0 <= i < k ==> (#[trigger] meshes@[i])@ == start.loaded(
                    grids,
                    (i + 1) as nat,
                ).mesh_of(start.load_queue[i]),
        decreases terrain@.len() - k,
    {
        proof {
            start.lemma_loaded(grids, k as nat);
            start.lemma_loaded(grids, (k + 1) as nat);
            assert(chunk_manager@.load_queue[0] == start.load_queue[k as int]);
            chunk_manager@.lemma_load_chunk(grids[k as int]);
        }
        let loaded = chunk_manager.load_chunk(&terrain[k]);
        let c = loaded.unwrap();
        let chunk = chunk_manager.active_chunks.get(c).unwrap();
        let mesh = MeshData::extract(chunk, &chunk_manager.active_chunks);
        meshes.push(ChunkMesh { position: c, mesh });
        k = k + 1;
    }
    meshes
}

/// Unloads every position of the unload queue and returns them, first to
/// last: the chunks whose meshes can be released.
pub fn despawn_chunks(chunk_manager: &mut ChunkManager) -> (coords: Vec<ChunkCoord>)
    requires
        old(chunk_manager).wf(),
    ensures
        final(chunk_manager)@ == old(chunk_manager)@.unloaded_all(),
        final(chunk_manager).wf(),
        coords@ == old(chunk_manager)@.unload_queue,
{
    let ghost start = chunk_manager@;
    let mut coords: Vec<ChunkCoord> = Vec::new();
    proof {
        assert(start.unload_queue.skip(0) =~= start.unload_queue);
        assert(start.unload_queue.take(0) =~= Seq::empty());
    }
    while chunk_manager.unload_queue.len() > 0
        invariant
            start.wf(),
            chunk_manager.wf(),
            0 <= coords@.len() <= start.unload_queue.len(),
            chunk_manager@ == (SchedulerState {
                unload_queue: start.unload_queue.skip(coords@.len() as int),
                ..start
            }),
            coords@ == start.unload_queue.take(coords@.len() as int),
        decreases chunk_manager@.unload_queue.len(),
    {
        let ghost k = coords@.len() as int;
        proof {
            chunk_manager@.lemma_unload_chunk();
            assert(start.unload_queue.skip(k).drop_first() =~= start.unload_queue.skip(k + 1));
            assert(start.unload_queue.take(k + 1) =~= start.unload_queue.take(k).push(
                start.unload_queue[k],
            ));
        }
        let unloaded = chunk_manager.unload_chunk();
        coords.push(unloaded.unwrap());
    }
    proof {
        assert(start.unload_queue.skip(coords@.len() as int) =~= Seq::empty());
        assert(start.unload_queue.take(coords@.len() as int) =~= start.unload_queue);
    }
    coords
}

/// Empties the reload queue and rebuilds the mesh of each of its positions
/// whose chunk is still active. Returns the rebuilt meshes in the order of
/// the queue.
pub fn reload_chunks(chunk_manager: &mut ChunkManager) -> (meshes: Vec<ChunkMesh>)
    requires
        old(chunk_manager).wf(),
    ensures
        final(chunk_manager)@ == old(chunk_manager)@.reloaded_all(),
        final(chunk_manager).wf(),
        mesh_views(meshes@) == old(chunk_manager)@.rebuilt(old(chunk_manager)@.reload_queue),
{
    let ghost start = chunk_manager@;
    let mut meshes: Vec<ChunkMesh> = Vec::new();
    let ghost mut k: int = 0;
    proof {
        assert(start.reload_queue.skip(0) =~= start.reload_queue);
        assert(start.reload_queue.take(0).filter(start.active()) =~= Seq::empty()) by {
            reveal(Seq::filter);
        }
        assert(mesh_views(meshes@) =~= start.rebuilt(start.reload_queue.take(0)));
    }
    while chunk_manager.reload_queue.len() > 0
        invariant
            start.wf(),
            chunk_manager.wf(),
            0 <= k <= start.reload_queue.len(),
            chunk_manager@ == (SchedulerState {
                reload_queue: start.reload_queue.skip(k),
                ..start
            }),
            mesh_views(meshes@) == start.rebuilt(start.reload_queue.take(k)),
        decreases chunk_manager@.reload_queue.len(),
    {
        let ghost before = mesh_views(meshes@);
        proof {
            start.lemma_rebuilt_step(start.reload_queue, k);
            assert(start.reload_queue.skip(k).drop_first() =~= start.reload_queue.skip(k + 1));
            assert(chunk_manager@.mesh_of(start.reload_queue[k]) == start.mesh_of(
                start.reload_queue[k],
            ));
        }
        match chunk_manager.reload_chunk() {
            ReloadStep::Rebuilt(rebuilt) => {
                meshes.push(rebuilt);
                assert(mesh_views(meshes@) =~= before.push(start.mesh_of(start.reload_queue[k])));
            },
            _ => {},
        }
        proof {
            k = k + 1;
        }
    }
    proof {
        assert(start.reload_queue.skip(k) =~= Seq::empty());
        assert(start.reload_queue.take(k) =~= start.reload_queue);
    }
    meshes
}

} // verus!
