//! The streaming scheduler as a mathematical model: which chunks should
//! exist around a viewpoint, the three queues that lead there, and the
//! state that each chunk position is in.

use crate::chunk::ChunkView;
use crate::mesh::{extracted_mesh, lemma_extraction_frame, neighbor, reaches, MeshView};
use crate::chunk_store::StoreView;
use crate::coord::ChunkCoord;
use crate::seq_facts::{
    lemma_concat_contains, lemma_concat_no_duplicates, lemma_drop_first, lemma_filter,
    lemma_filter_take, lemma_map_values_push,
};
use crate::voxel::VoxelGrid;
use vstd::arithmetic::div_mod::{
    lemma_fundamental_div_mod, lemma_fundamental_div_mod_converse, lemma_mod_bound,
};
use vstd::prelude::*;

verus! {

/// Where a chunk position stands in its life cycle.
#[derive(Clone, Copy, Debug, PartialEq, Eq, Structural)]
pub enum ChunkState {
    /// No chunk exists at the position and none is asked for.
    Unloaded,
    /// The position waits in the load queue.
    PendingLoad,
    /// A chunk exists at the position.
    Active,
    /// A chunk exists at the position and its mesh is owed a rebuild.
    PendingReload,
    /// The position waits in the unload queue; its chunk is gone from the
    /// store.
    PendingUnload,
}

/// Whether a position may pass from state `from` to state `to` in one step
/// of the scheduler. A position that waits to be unloaded can only become
/// unloaded; it is never loaded again before that.
pub open spec fn step_allowed(from: ChunkState, to: ChunkState) -> bool {
    match from {
        ChunkState::Unloaded => to is Unloaded || to is PendingLoad,
        ChunkState::PendingLoad => to is PendingLoad || to is Active || to is PendingReload,
        ChunkState::Active => to is Active || to is PendingReload || to is PendingUnload,
        ChunkState::PendingReload => to is PendingReload || to is Active || to is PendingUnload,
        ChunkState::PendingUnload => to is PendingUnload || to is Unloaded,
    }
}

/// Whether chunk position `c` lies in the square of radius `r` around
/// column `(vx, vz)` of the layer `y = 0`.
pub open spec fn in_square(vx: int, vz: int, r: int, c: ChunkCoord) -> bool {
    &&& c.y == 0
    &&& vx - r <= c.x <= vx + r
    &&& vz - r <= c.z <= vz + r
}

/// The least chunk index that is within `r` of `v`.
pub open spec fn clip_lo(v: int, r: int) -> int {
    if v - r < i32::MIN {
        i32::MIN as int
    } else {
        v - r
    }
}

/// The greatest chunk index that is within `r` of `v`.
pub open spec fn clip_hi(v: int, r: int) -> int {
    if v + r > i32::MAX {
        i32::MAX as int
    } else {
        v + r
    }
}

/// The number of chunk indices that are within `r` of `v`.
pub open spec fn span(v: int, r: int) -> int {
    if clip_hi(v, r) < clip_lo(v, r) {
        0
    } else {
        clip_hi(v, r) - clip_lo(v, r) + 1
    }
}

/// The chunk positions of the square of radius `r` around column
/// `(vx, vz)`, in the order in which the scheduler visits them: by `x`, and
/// by `z` among those of one `x`.
pub open spec fn square_order(vx: int, vz: int, r: int) -> Seq<ChunkCoord> {
    Seq::new(
        (span(vx, r) * span(vz, r)) as nat,
        |k: int|
            ChunkCoord {
                x: (clip_lo(vx, r) + k / span(vz, r)) as i32,
                y: 0,
                z: (clip_lo(vz, r) + k % span(vz, r)) as i32,
            },
    )
}

/// Place in visiting order of the position `(x, 0, z)` of the square.
pub open spec fn square_rank(vx: int, vz: int, r: int, x: int, z: int) -> int {
    (x - clip_lo(vx, r)) * span(vz, r) + (z - clip_lo(vz, r))
}

/// The position at a rank, and the bounds of the rank.
pub proof fn lemma_square_rank(vx: int, vz: int, r: int, x: int, z: int)
    requires
        r >= 0,
        clip_lo(vx, r) <= x <= clip_hi(vx, r),
        clip_lo(vz, r) <= z <= clip_hi(vz, r),
    ensures
        0 <= square_rank(vx, vz, r, x, z) < square_order(vx, vz, r).len(),
        square_order(vx, vz, r)[square_rank(vx, vz, r, x, z)] == (ChunkCoord {
            x: x as i32,
            y: 0,
            z: z as i32,
        }),
        square_rank(vx, vz, r, x, clip_lo(vz, r)) + span(vz, r) == square_rank(
            vx,
            vz,
            r,
            x + 1,
            clip_lo(vz, r),
        ),
{
    let wx = span(vx, r);
    let wz = span(vz, r);
    let a = x - clip_lo(vx, r);
    let b = z - clip_lo(vz, r);
    let k = a * wz + b;
    assert(0 <= k < wx * wz && (a + 1) * wz == a * wz + wz) by (nonlinear_arith)
        requires
            k == a * wz + b,
            0 <= a < wx,
            0 <= b < wz,
    ;
    lemma_fundamental_div_mod_converse(k, wz, a, b);
}

/// The position at place `k` of the visiting order lies `k / w` steps
/// along `x` and `k % w` steps along `z` from the first one, where `w` is
/// the number of positions along `z`.
pub proof fn lemma_square_cell(vx: int, vz: int, r: int, k: int)
    requires
        r >= 0,
        0 <= k < square_order(vx, vz, r).len(),
    ensures
        0 < span(vz, r),
        0 <= k / span(vz, r) < span(vx, r),
        0 <= k % span(vz, r) < span(vz, r),
        k == span(vz, r) * (k / span(vz, r)) + k % span(vz, r),
{
    let wx = span(vx, r);
    let wz = span(vz, r);
    assert(wz > 0) by (nonlinear_arith)
        requires
            0 <= k < wx * wz,
            wz >= 0,
    ;
    lemma_mod_bound(k, wz);
    lemma_fundamental_div_mod(k, wz);
    let q = k / wz;
    let m = k % wz;
    assert(0 <= q < wx) by (nonlinear_arith)
        requires
            k == wz * q + m,
            0 <= m < wz,
            0 <= k < wx * wz,
    ;
}

/// The visiting order holds each position of the square once, and nothing
/// else.
pub proof fn lemma_square_order(vx: int, vz: int, r: int)
    requires
        r >= 0,
    ensures
        square_order(vx, vz, r).no_duplicates(),
        forall|c: ChunkCoord| #[trigger]
            square_order(vx, vz, r).contains(c) <==> in_square(vx, vz, r, c),
{
    let s = square_order(vx, vz, r);
    let wx = span(vx, r);
    let wz = span(vz, r);
    assert forall|k: int| 0 <= k < s.len() implies 0 <= k / wz < wx && 0 <= #[trigger] (k % wz)
        < wz && k == wz * (k / wz) + k % wz by {
        assert(wz > 0) by (nonlinear_arith)
            requires
                0 <= k < wx * wz,
                wz >= 0,
        ;
        lemma_mod_bound(k, wz);
        lemma_fundamental_div_mod(k, wz);
        let q = k / wz;
        let m = k % wz;
        assert(0 <= q < wx) by (nonlinear_arith)
            requires
                k == wz * q + m,
                0 <= m < wz,
                0 <= k < wx * wz,
        ;
    }
    assert forall|i: int, j: int| 0 <= i < s.len() && 0 <= j < s.len() && i != j implies s[i]
        != s[j] by {
        assert(0 <= i % wz < wz);
        assert(0 <= j % wz < wz);
        if s[i] == s[j] {
            assert(i / wz == j / wz);
            assert(i % wz == j % wz);
        }
    }
    assert forall|c: ChunkCoord| #[trigger] s.contains(c) <==> in_square(vx, vz, r, c) by {
        if in_square(vx, vz, r, c) {
            lemma_square_rank(vx, vz, r, c.x as int, c.z as int);
            assert(s[square_rank(vx, vz, r, c.x as int, c.z as int)] == c);
        }
        if s.contains(c) {
            let k = choose|k: int| 0 <= k < s.len() && s[k] == c;
            assert(0 <= k % wz < wz);
        }
    }
}

/// The scheduler as a mathematical value: the chunk store, the three
/// queues, and the streaming radius.
pub struct SchedulerState {
    pub store: StoreView,
    pub load_queue: Seq<ChunkCoord>,
    pub unload_queue: Seq<ChunkCoord>,
    pub reload_queue: Seq<ChunkCoord>,
    pub render_distance: int,
}

/// The mesh of the chunk at a position, as a mathematical value.
pub struct ChunkMeshView {
    pub position: ChunkCoord,
    pub mesh: MeshView,
}

/// One where the condition holds, zero where it does not.
pub open spec fn one_if(b: bool) -> int {
    if b {
        1
    } else {
        0
    }
}

impl SchedulerState {
    /// The scheduler at start: no chunk and empty queues.
    pub open spec fn initial(chunk_size: int, render_distance: int) -> SchedulerState {
        SchedulerState {
            store: StoreView { chunk_size, chunks: Seq::empty() },
            load_queue: Seq::empty(),
            unload_queue: Seq::empty(),
            reload_queue: Seq::empty(),
            render_distance,
        }
    }

    /// The scheduler after `c` has been asked for: it joins the load queue
    /// where it is unloaded; a position that is active or waits in a queue
    /// is passed over.
    pub open spec fn request_load(self, c: ChunkCoord) -> SchedulerState {
        if self.state(c) is Unloaded {
            SchedulerState { load_queue: self.load_queue.push(c), ..self }
        } else {
            self
        }
    }

    /// In how many of the store, the load queue and the unload queue the
    /// position `c` occurs.
    pub open spec fn places(self, c: ChunkCoord) -> int {
        one_if(self.store.contains(c)) + one_if(self.load_queue.contains(c)) + one_if(
            self.unload_queue.contains(c),
        )
    }

    /// Whether position `c` is placed as it may be: in at most one of the
    /// store, the load queue and the unload queue, and in none of them
    /// unless it lies in the layer `y = 0`, the only one that is streamed.
    pub open spec fn placed_well(self, c: ChunkCoord) -> bool {
        &&& self.places(c) <= 1
        &&& self.places(c) >= 1 ==> c.y == 0
    }

    /// The store is well formed, the radius is not negative, no queue
    /// holds a position twice, and every position is placed as it may be.
    pub open spec fn wf(self) -> bool {
        &&& self.store.wf()
        &&& 0 <= self.render_distance <= i32::MAX
        &&& self.load_queue.no_duplicates()
        &&& self.unload_queue.no_duplicates()
        &&& self.reload_queue.no_duplicates()
        &&& forall|c: ChunkCoord| #[trigger] self.placed_well(c)
    }

    /// The state of position `c`.
    pub open spec fn state(self, c: ChunkCoord) -> ChunkState {
        if self.load_queue.contains(c) {
            ChunkState::PendingLoad
        } else if self.unload_queue.contains(c) {
            ChunkState::PendingUnload
        } else if self.store.contains(c) {
            if self.reload_queue.contains(c) {
                ChunkState::PendingReload
            } else {
                ChunkState::Active
            }
        } else {
            ChunkState::Unloaded
        }
    }

    /// Whether `c` should be active for a viewpoint in chunk column
    /// `(vx, vz)`: it lies in the layer `y = 0`, at most the streaming
    /// radius away along `x` and along `z`.
    pub open spec fn desired(self, vx: int, vz: int, c: ChunkCoord) -> bool {
        in_square(vx, vz, self.render_distance, c)
    }

    /// The desired positions, as a predicate.
    pub open spec fn wanted(self, vx: int, vz: int) -> spec_fn(ChunkCoord) -> bool {
        |c: ChunkCoord| self.desired(vx, vz, c)
    }

    /// The positions that are not desired, as a predicate.
    pub open spec fn unwanted(self, vx: int, vz: int) -> spec_fn(ChunkCoord) -> bool {
        |c: ChunkCoord| !self.desired(vx, vz, c)
    }

    /// The unloaded positions, as a predicate.
    pub open spec fn loadable(self) -> spec_fn(ChunkCoord) -> bool {
        |c: ChunkCoord| self.state(c) is Unloaded
    }

    /// The scheduler after the positions `wanted` have been asked for:
    /// those that were unloaded join the load queue, in their order.
    pub open spec fn enqueue_loads(self, wanted: Seq<ChunkCoord>) -> SchedulerState {
        SchedulerState { load_queue: self.load_queue + wanted.filter(self.loadable()), ..self }
    }

    /// The scheduler after it has asked for the chunks that a viewpoint in
    /// column `(vx, vz)` wants: the desired positions that were unloaded
    /// join the load queue, in visiting order. A position that is active or
    /// waits in a queue is passed over.
    pub open spec fn populate_load_queue(self, vx: int, vz: int) -> SchedulerState {
        self.enqueue_loads(square_order(vx, vz, self.render_distance))
    }

    /// The scheduler after it has given up the chunks that a viewpoint in
    /// column `(vx, vz)` no longer wants: the active chunks that are not
    /// desired leave the store and their positions join the unload queue,
    /// in store order.
    pub open spec fn populate_unload_queue(self, vx: int, vz: int) -> SchedulerState {
        SchedulerState {
            store: self.store.retain(self.wanted(vx, vz)),
            unload_queue: self.unload_queue + self.store.coords().filter(self.unwanted(vx, vz)),
            ..self
        }
    }

    /// The scheduler after one update for a viewpoint in column `(vx, vz)`.
    pub open spec fn update(self, vx: int, vz: int) -> SchedulerState {
        self.populate_load_queue(vx, vz).populate_unload_queue(vx, vz)
    }

    /// Whether the mesh of `d` is owed a rebuild when a chunk appears at
    /// `c`: `d` is another position of the square of radius one around `c`,
    /// it is active, and it does not already wait in the reload queue.
    pub open spec fn owes_reload(self, c: ChunkCoord, d: ChunkCoord) -> bool {
        d != c && self.store.contains(d) && !self.reload_queue.contains(d)
    }

    /// The positions whose mesh is owed a rebuild when a chunk appears at
    /// `c`, as a predicate.
    pub open spec fn reloadable(self, c: ChunkCoord) -> spec_fn(ChunkCoord) -> bool {
        |d: ChunkCoord| self.owes_reload(c, d)
    }

    /// The reload queue after a chunk has appeared at `c` and the positions
    /// `near` have been looked at: those whose mesh is owed a rebuild have
    /// joined the queue, in their order.
    pub open spec fn enqueue_reloads(self, c: ChunkCoord, near: Seq<ChunkCoord>) -> Seq<
        ChunkCoord,
    > {
        self.reload_queue + near.filter(self.reloadable(c))
    }

    /// The scheduler after the first position of the load queue has been
    /// loaded with the voxels `grid`: the chunk enters the store, and its
    /// active neighbours join the reload queue unless they wait there
    /// already. With an empty load queue nothing changes.
    pub open spec fn load_chunk(self, grid: VoxelGrid) -> SchedulerState {
        if self.load_queue.len() == 0 {
            self
        } else {
            let c = self.load_queue[0];
            SchedulerState {
                store: self.store.insert(ChunkView { position: c, grid }),
                load_queue: self.load_queue.drop_first(),
                reload_queue: self.enqueue_reloads(c, square_order(c.x as int, c.z as int, 1)),
                ..self
            }
        }
    }

    /// The scheduler after the first position of the unload queue has been
    /// unloaded. With an empty unload queue nothing changes.
    pub open spec fn unload_chunk(self) -> SchedulerState {
        if self.unload_queue.len() == 0 {
            self
        } else {
            SchedulerState {
                store: self.store.remove(self.unload_queue[0]),
                unload_queue: self.unload_queue.drop_first(),
                ..self
            }
        }
    }

    /// The mesh of the active chunk at `c` among the chunks of the store.
    pub open spec fn mesh_of(self, c: ChunkCoord) -> ChunkMeshView {
        ChunkMeshView { position: c, mesh: extracted_mesh(self.store.get(c), self.store) }
    }

    /// The active positions, as a predicate.
    pub open spec fn active(self) -> spec_fn(ChunkCoord) -> bool {
        |c: ChunkCoord| self.store.contains(c)
    }

    /// The meshing of a position, as a function.
    pub open spec fn meshing(self) -> spec_fn(ChunkCoord) -> ChunkMeshView {
        |c: ChunkCoord| self.mesh_of(c)
    }

    /// The meshes that are rebuilt for the positions `queue`: one for each
    /// position that is still active, in the order of the queue. A position
    /// whose chunk has gone is passed over.
    pub open spec fn rebuilt(self, queue: Seq<ChunkCoord>) -> Seq<ChunkMeshView> {
        queue.filter(self.active()).map_values(self.meshing())
    }

    /// The scheduler after the first `k` positions of the load queue have
    /// been loaded, the `i`-th of them with the voxels `grids[i]`.
    pub open spec fn loaded(self, grids: Seq<VoxelGrid>, k: nat) -> SchedulerState
        decreases k,
    {
        if k == 0 {
            self
        } else {
            self.loaded(grids, (k - 1) as nat).load_chunk(grids[k - 1])
        }
    }

    /// The scheduler with its unload queue emptied.
    pub open spec fn unloaded_all(self) -> SchedulerState {
        SchedulerState { unload_queue: Seq::empty(), ..self }
    }

    /// The scheduler with its reload queue emptied.
    pub open spec fn reloaded_all(self) -> SchedulerState {
        SchedulerState { reload_queue: Seq::empty(), ..self }
    }

    /// The scheduler after the first position of the reload queue has been
    /// dealt with. With an empty reload queue nothing changes.
    pub open spec fn reload_chunk(self) -> SchedulerState {
        if self.reload_queue.len() == 0 {
            self
        } else {
            SchedulerState { reload_queue: self.reload_queue.drop_first(), ..self }
        }
    }
}

impl SchedulerState {
    /// Asking for positions, none of them twice, keeps the scheduler well
    /// formed. The load queue then holds what it held and the positions
    /// asked for that were unloaded.
    pub proof fn lemma_enqueue_loads(self, wanted: Seq<ChunkCoord>)
        requires
            self.wf(),
            wanted.no_duplicates(),
            forall|i: int| 0 <= i < wanted.len() ==> (#[trigger] wanted[i]).y == 0,
        ensures
            self.enqueue_loads(wanted).wf(),
            forall|c: ChunkCoord| #[trigger]
                self.enqueue_loads(wanted).load_queue.contains(c) <==> self.load_queue.contains(c)
                    || (wanted.contains(c) && self.state(c) is Unloaded),
    {
        let after = self.enqueue_loads(wanted);
        let added = wanted.filter(self.loadable());
        lemma_filter(wanted, self.loadable());
        assert forall|c: ChunkCoord| #[trigger]
            after.load_queue.contains(c) <==> self.load_queue.contains(c) || (wanted.contains(c)
                && self.state(c) is Unloaded) by {
            lemma_concat_contains(self.load_queue, added, c);
            assert(added.contains(c) <==> wanted.contains(c) && self.loadable()(c));
        }
        assert forall|c: ChunkCoord| !(self.load_queue.contains(c) && added.contains(c)) by {
            assert(added.contains(c) <==> wanted.contains(c) && self.loadable()(c));
        }
        lemma_concat_no_duplicates(self.load_queue, added);
        assert forall|c: ChunkCoord| #[trigger] after.placed_well(c) by {
            assert(self.placed_well(c));
            assert(after.load_queue.contains(c) <==> self.load_queue.contains(c) || (
            wanted.contains(c) && self.state(c) is Unloaded));
            if wanted.contains(c) {
                let i = choose|i: int| 0 <= i < wanted.len() && wanted[i] == c;
                assert(wanted[i].y == 0);
            }
        }
    }

    /// Asking for the positions of a sequence one after the other comes to
    /// the same as asking for them at once: with the first `k` asked for,
    /// asking for the next one gives the scheduler with the first `k + 1`
    /// asked for.
    pub proof fn lemma_enqueue_loads_step(self, wanted: Seq<ChunkCoord>, k: int)
        requires
            self.wf(),
            wanted.no_duplicates(),
            forall|i: int| 0 <= i < wanted.len() ==> (#[trigger] wanted[i]).y == 0,
            0 <= k < wanted.len(),
        ensures
            self.enqueue_loads(wanted.take(k)).request_load(wanted[k]) == self.enqueue_loads(
                wanted.take(k + 1),
            ),
    {
        let c = wanted[k];
        let mid = self.enqueue_loads(wanted.take(k));
        self.lemma_enqueue_loads(wanted.take(k));
        lemma_filter_take(wanted, self.loadable(), k);
        if wanted.take(k).contains(c) {
            let i = choose|i: int| 0 <= i < wanted.take(k).len() && wanted.take(k)[i] == c;
            assert(wanted[i] == wanted[k]);
        }
        assert(mid.load_queue.contains(c) <==> self.load_queue.contains(c));
        assert(mid.state(c) == self.state(c));
        assert(self.loadable()(c) == (self.state(c) is Unloaded));
        if self.state(c) is Unloaded {
            assert(mid.load_queue.push(c) =~= self.load_queue + wanted.take(k).filter(
                self.loadable(),
            ).push(c));
        }
    }

    /// Asking for chunks keeps the scheduler well formed. Each desired
    /// position that was unloaded now waits to be loaded, and no other
    /// position changes its state.
    pub proof fn lemma_populate_load_queue(self, vx: int, vz: int)
        requires
            self.wf(),
        ensures
            self.populate_load_queue(vx, vz).wf(),
            forall|c: ChunkCoord| #[trigger]
                self.populate_load_queue(vx, vz).load_queue.contains(c)
                    <==> self.load_queue.contains(c) || (self.desired(vx, vz, c) && self.state(
                    c,
                ) is Unloaded),
            forall|c: ChunkCoord|
                #[trigger] self.populate_load_queue(vx, vz).state(c) == if self.desired(vx, vz, c)
                    && self.state(c) is Unloaded {
                    ChunkState::PendingLoad
                } else {
                    self.state(c)
                },
    {
        let after = self.populate_load_queue(vx, vz);
        let order = square_order(vx, vz, self.render_distance);
        lemma_square_order(vx, vz, self.render_distance);
        self.lemma_enqueue_loads(order);
        assert forall|c: ChunkCoord| #[trigger]
            after.load_queue.contains(c) <==> self.load_queue.contains(c) || (self.desired(
                vx,
                vz,
                c,
            ) && self.state(c) is Unloaded) by {
            assert(order.contains(c) <==> in_square(vx, vz, self.render_distance, c));
        }
        assert forall|c: ChunkCoord| #[trigger] after.state(c) == if self.desired(vx, vz, c)
            && self.state(c) is Unloaded {
            ChunkState::PendingLoad
        } else {
            self.state(c)
        } by {
            assert(after.load_queue.contains(c) <==> self.load_queue.contains(c) || (
            self.desired(vx, vz, c) && self.state(c) is Unloaded));
        }
    }

    /// Giving up chunks keeps the scheduler well formed. Each active chunk
    /// that is not desired leaves the store and waits to be unloaded; the
    /// desired chunks stay as they are, and no other position changes its
    /// state.
    pub proof fn lemma_populate_unload_queue(self, vx: int, vz: int)
        requires
            self.wf(),
        ensures
            self.populate_unload_queue(vx, vz).wf(),
            forall|c: ChunkCoord| #[trigger]
                self.populate_unload_queue(vx, vz).store.contains(c) <==> self.store.contains(c)
                    && self.desired(vx, vz, c),
            forall|c: ChunkCoord|
                self.store.contains(c) && self.desired(vx, vz, c)
                    ==> #[trigger] self.populate_unload_queue(vx, vz).store.get(c)
                    == self.store.get(c),
            forall|c: ChunkCoord| #[trigger]
                self.populate_unload_queue(vx, vz).unload_queue.contains(c)
                    <==> self.unload_queue.contains(c) || (self.store.contains(c) && !self.desired(
                    vx,
                    vz,
                    c,
                )),
            forall|c: ChunkCoord|
                #[trigger] self.populate_unload_queue(vx, vz).state(c) == if self.store.contains(c)
                    && !self.desired(vx, vz, c) {
                    ChunkState::PendingUnload
                } else {
                    self.state(c)
                },
    {
        let after = self.populate_unload_queue(vx, vz);
        let moved = self.store.coords().filter(self.unwanted(vx, vz));
        self.store.lemma_retain(self.wanted(vx, vz));
        self.store.lemma_coords();
        lemma_filter(self.store.coords(), self.unwanted(vx, vz));
        assert forall|c: ChunkCoord| #[trigger]
            after.store.contains(c) <==> self.store.contains(c) && self.desired(vx, vz, c) by {
            assert(self.wanted(vx, vz)(c) == self.desired(vx, vz, c));
        }
        assert forall|c: ChunkCoord|
            self.store.contains(c) && self.desired(vx, vz, c) implies #[trigger] after.store.get(c)
            == self.store.get(c) by {
            assert(self.wanted(vx, vz)(c));
        }
        assert forall|c: ChunkCoord| #[trigger]
            moved.contains(c) <==> self.store.contains(c) && !self.desired(vx, vz, c) by {
            assert(moved.contains(c) <==> self.store.coords().contains(c) && self.unwanted(
                vx,
                vz,
            )(c));
        }
        assert forall|c: ChunkCoord| #[trigger]
            after.unload_queue.contains(c) <==> self.unload_queue.contains(c) || (
            self.store.contains(c) && !self.desired(vx, vz, c)) by {
            lemma_concat_contains(self.unload_queue, moved, c);
            assert(moved.contains(c) <==> self.store.contains(c) && !self.desired(vx, vz, c));
        }
        assert forall|c: ChunkCoord| !(self.unload_queue.contains(c) && moved.contains(c)) by {
            assert(self.placed_well(c));
            assert(moved.contains(c) <==> self.store.contains(c) && !self.desired(vx, vz, c));
        }
        lemma_concat_no_duplicates(self.unload_queue, moved);
        assert forall|c: ChunkCoord| #[trigger] after.placed_well(c) by {
            assert(self.placed_well(c));
            assert(after.store.contains(c) <==> self.store.contains(c) && self.desired(vx, vz, c));
            assert(after.unload_queue.contains(c) <==> self.unload_queue.contains(c) || (
            self.store.contains(c) && !self.desired(vx, vz, c)));
        }
        assert forall|c: ChunkCoord| #[trigger] after.state(c) == if self.store.contains(c)
            && !self.desired(vx, vz, c) {
            ChunkState::PendingUnload
        } else {
            self.state(c)
        } by {
            assert(self.placed_well(c));
            assert(after.store.contains(c) <==> self.store.contains(c) && self.desired(vx, vz, c));
            assert(after.unload_queue.contains(c) <==> self.unload_queue.contains(c) || (
            self.store.contains(c) && !self.desired(vx, vz, c)));
        }
    }

    /// An update keeps the scheduler well formed. After it, every chunk
    /// that was active and is not desired has left the store and waits in
    /// the unload queue, every desired position that was unloaded waits in
    /// the load queue, and no desired position is left unloaded. Each
    /// position has taken a step that its life cycle allows.
    pub proof fn lemma_update(self, vx: int, vz: int)
        requires
            self.wf(),
        ensures
            self.update(vx, vz).wf(),
            forall|c: ChunkCoord|
                self.store.contains(c) && !self.desired(vx, vz, c) ==> #[trigger] self.update(
                    vx,
                    vz,
                ).unload_queue.contains(c) && !self.update(vx, vz).store.contains(c),
            forall|c: ChunkCoord|
                self.desired(vx, vz, c) && self.state(c) is Unloaded ==> #[trigger] self.update(
                    vx,
                    vz,
                ).load_queue.contains(c),
            forall|c: ChunkCoord|
                self.desired(vx, vz, c) ==> !(#[trigger] self.update(vx, vz).state(c) is Unloaded),
            forall|c: ChunkCoord|
                #[trigger] self.update(vx, vz).state(c) == if self.desired(vx, vz, c) {
                    if self.state(c) is Unloaded {
                        ChunkState::PendingLoad
                    } else {
                        self.state(c)
                    }
                } else {
                    if self.store.contains(c) {
                        ChunkState::PendingUnload
                    } else {
                        self.state(c)
                    }
                },
            forall|c: ChunkCoord|
                step_allowed(self.state(c), #[trigger] self.update(vx, vz).state(c)),
    {
        let mid = self.populate_load_queue(vx, vz);
        let after = self.update(vx, vz);
        self.lemma_populate_load_queue(vx, vz);
        mid.lemma_populate_unload_queue(vx, vz);
        assert forall|c: ChunkCoord|
            self.store.contains(c) && !self.desired(vx, vz, c) implies #[trigger] after.unload_queue.contains(
            c,
        ) && !after.store.contains(c) by {
            assert(after.store.contains(c) <==> mid.store.contains(c) && mid.desired(vx, vz, c));
        }
        assert forall|c: ChunkCoord|
            self.desired(vx, vz, c) && self.state(c) is Unloaded implies #[trigger] after.load_queue.contains(
            c,
        ) by {
            assert(mid.load_queue.contains(c));
        }
        assert forall|c: ChunkCoord| self.desired(vx, vz, c) implies !(#[trigger] after.state(
            c,
        ) is Unloaded) by {
            assert(mid.state(c) == if self.desired(vx, vz, c) && self.state(c) is Unloaded {
                ChunkState::PendingLoad
            } else {
                self.state(c)
            });
            assert(after.state(c) == if mid.store.contains(c) && !mid.desired(vx, vz, c) {
                ChunkState::PendingUnload
            } else {
                mid.state(c)
            });
        }
        assert forall|c: ChunkCoord|
            #[trigger] after.state(c) == if self.desired(vx, vz, c) {
                if self.state(c) is Unloaded {
                    ChunkState::PendingLoad
                } else {
                    self.state(c)
                }
            } else {
                if self.store.contains(c) {
                    ChunkState::PendingUnload
                } else {
                    self.state(c)
                }
            } by {
            assert(mid.state(c) == if self.desired(vx, vz, c) && self.state(c) is Unloaded {
                ChunkState::PendingLoad
            } else {
                self.state(c)
            });
            assert(after.state(c) == if mid.store.contains(c) && !mid.desired(vx, vz, c) {
                ChunkState::PendingUnload
            } else {
                mid.state(c)
            });
        }
        assert forall|c: ChunkCoord| step_allowed(self.state(c), #[trigger] after.state(c)) by {
            assert(self.placed_well(c));
            assert(mid.state(c) == if self.desired(vx, vz, c) && self.state(c) is Unloaded {
                ChunkState::PendingLoad
            } else {
                self.state(c)
            });
            assert(after.state(c) == if mid.store.contains(c) && !mid.desired(vx, vz, c) {
                ChunkState::PendingUnload
            } else {
                mid.state(c)
            });
        }
    }

    /// Loading a chunk keeps the scheduler well formed. The loaded
    /// position becomes active. Every other position of the square of
    /// radius one around it that holds an active chunk is then in the
    /// reload queue, which holds no position twice: a neighbour is asked to
    /// rebuild its mesh exactly once, however many of its neighbours were
    /// loaded since it last did. Each position has taken a step that its
    /// life cycle allows.
    pub proof fn lemma_load_chunk(self, grid: VoxelGrid)
        requires
            self.wf(),
            grid.wf(),
            grid.size == self.store.chunk_size,
            self.load_queue.len() > 0,
        ensures
            self.load_chunk(grid).wf(),
            self.load_chunk(grid).store.contains(self.load_queue[0]),
            self.load_chunk(grid).store.get(self.load_queue[0]) == (ChunkView {
                position: self.load_queue[0],
                grid,
            }),
            !self.load_chunk(grid).load_queue.contains(self.load_queue[0]),
            forall|d: ChunkCoord|
                d != self.load_queue[0] && in_square(
                    self.load_queue[0].x as int,
                    self.load_queue[0].z as int,
                    1,
                    d,
                ) && self.store.contains(d) ==> #[trigger] self.load_chunk(
                    grid,
                ).reload_queue.contains(d),
            forall|d: ChunkCoord| #[trigger]
                self.load_chunk(grid).reload_queue.contains(d) <==> self.reload_queue.contains(d)
                    || (d != self.load_queue[0] && in_square(
                    self.load_queue[0].x as int,
                    self.load_queue[0].z as int,
                    1,
                    d,
                ) && self.store.contains(d)),
            self.load_chunk(grid).reload_queue.no_duplicates(),
            forall|d: ChunkCoord|
                step_allowed(self.state(d), #[trigger] self.load_chunk(grid).state(d)),
    {
        let after = self.load_chunk(grid);
        let c = self.load_queue[0];
        let order = square_order(c.x as int, c.z as int, 1);
        let added = order.filter(self.reloadable(c));
        assert(self.load_queue.contains(c));
        assert(self.placed_well(c));
        self.store.lemma_insert(ChunkView { position: c, grid });
        lemma_square_order(c.x as int, c.z as int, 1);
        lemma_filter(order, self.reloadable(c));
        assert forall|d: ChunkCoord| #[trigger]
            added.contains(d) <==> in_square(c.x as int, c.z as int, 1, d) && self.owes_reload(
                c,
                d,
            ) by {
            assert(added.contains(d) <==> order.contains(d) && self.reloadable(c)(d));
        }
        assert forall|d: ChunkCoord| !(self.reload_queue.contains(d) && added.contains(d)) by {
            assert(added.contains(d) <==> in_square(c.x as int, c.z as int, 1, d)
                && self.owes_reload(c, d));
        }
        lemma_concat_no_duplicates(self.reload_queue, added);
        assert forall|d: ChunkCoord| #[trigger]
            after.reload_queue.contains(d) <==> self.reload_queue.contains(d) || (d != c
                && in_square(c.x as int, c.z as int, 1, d) && self.store.contains(d)) by {
            lemma_concat_contains(self.reload_queue, added, d);
            assert(added.contains(d) <==> in_square(c.x as int, c.z as int, 1, d)
                && self.owes_reload(c, d));
        }
        assert forall|d: ChunkCoord| #[trigger]
            after.load_queue.contains(d) <==> self.load_queue.contains(d) && d != c by {
            lemma_drop_first(self.load_queue, d);
        }
        lemma_drop_first(self.load_queue, c);
        assert forall|d: ChunkCoord| #[trigger] after.placed_well(d) by {
            assert(self.placed_well(d));
            assert(after.load_queue.contains(d) <==> self.load_queue.contains(d) && d != c);
            if d != c {
                assert(after.store.contains(d) == self.store.contains(d));
            }
        }
        assert forall|d: ChunkCoord| step_allowed(self.state(d), #[trigger] after.state(d)) by {
            assert(self.placed_well(d));
            assert(after.placed_well(d));
            assert(after.load_queue.contains(d) <==> self.load_queue.contains(d) && d != c);
            assert(after.reload_queue.contains(d) <==> self.reload_queue.contains(d) || (d != c
                && in_square(c.x as int, c.z as int, 1, d) && self.store.contains(d)));
            if d != c {
                assert(after.store.contains(d) == self.store.contains(d));
            }
        }
    }

    /// Loading a chunk leaves the mesh of every other active chunk as it
    /// was, unless that chunk is asked to rebuild it: the chunks that reach
    /// into the new chunk are among those that join the reload queue, so a
    /// mesh that is not rebuilt shows no stale seam.
    pub proof fn lemma_load_keeps_other_meshes(self, grid: VoxelGrid, d: ChunkCoord)
        requires
            self.wf(),
            grid.wf(),
            grid.size == self.store.chunk_size,
            self.load_queue.len() > 0,
            self.store.contains(d),
            !self.load_chunk(grid).reload_queue.contains(d),
        ensures
            self.load_chunk(grid).store.contains(d),
            self.load_chunk(grid).mesh_of(d) == self.mesh_of(d),
    {
        let after = self.load_chunk(grid);
        let c = self.load_queue[0];
        self.lemma_load_chunk(grid);
        self.store.lemma_insert(ChunkView { position: c, grid });
        assert(self.load_queue.contains(c));
        assert(self.placed_well(c));
        assert(self.placed_well(d));
        assert(d != c);
        let chunk = self.store.get(d);
        self.store.lemma_contains(d);
        assert(chunk.grid.wf() && chunk.grid.size == self.store.chunk_size);
        assert forall|dx: int, dy: int, dz: int| reaches(dx, dy, dz) implies match #[trigger] neighbor(
            d,
            dx,
            dy,
            dz,
        ) {
            Some(e) => self.store.lookup(e) == after.store.lookup(e),
            None => true,
        } by {
            match neighbor(d, dx, dy, dz) {
                Some(e) => {
                    if e == c {
                        assert(in_square(c.x as int, c.z as int, 1, d));
                        assert(after.reload_queue.contains(d));
                    }
                },
                None => {},
            }
        }
        lemma_extraction_frame(chunk, self.store, after.store);
    }

    /// Looking at the positions near a new chunk one after the other comes
    /// to the same as looking at them at once: with the first `k` looked
    /// at, the next one joins the reload queue where its mesh is owed a
    /// rebuild and it does not wait there already.
    pub proof fn lemma_enqueue_reloads_step(self, c: ChunkCoord, near: Seq<ChunkCoord>, k: int)
        requires
            near.no_duplicates(),
            0 <= k < near.len(),
        ensures
            self.enqueue_reloads(c, near.take(k + 1)) == if near[k] != c && self.store.contains(
                near[k],
            ) && !self.enqueue_reloads(c, near.take(k)).contains(near[k]) {
                self.enqueue_reloads(c, near.take(k)).push(near[k])
            } else {
                self.enqueue_reloads(c, near.take(k))
            },
    {
        let d = near[k];
        let added = near.take(k).filter(self.reloadable(c));
        lemma_filter_take(near, self.reloadable(c), k);
        lemma_filter(near.take(k), self.reloadable(c));
        lemma_concat_contains(self.reload_queue, added, d);
        if near.take(k).contains(d) {
            let i = choose|i: int| 0 <= i < near.take(k).len() && near.take(k)[i] == d;
            assert(near[i] == near[k]);
        }
        assert(!added.contains(d));
        assert(self.reloadable(c)(d) == self.owes_reload(c, d));
        if self.owes_reload(c, d) {
            assert(self.enqueue_reloads(c, near.take(k)).push(d) =~= self.reload_queue
                + added.push(d));
        }
    }

    /// Unloading keeps the scheduler well formed. The position that left
    /// the unload queue is unloaded, and no other position changes its
    /// state.
    pub proof fn lemma_unload_chunk(self)
        requires
            self.wf(),
            self.unload_queue.len() > 0,
        ensures
            self.unload_chunk().wf(),
            self.unload_chunk().store == self.store,
            self.unload_chunk().state(self.unload_queue[0]) is Unloaded,
            forall|d: ChunkCoord|
                d != self.unload_queue[0] ==> #[trigger] self.unload_chunk().state(d)
                    == self.state(d),
            forall|d: ChunkCoord| step_allowed(self.state(d), #[trigger] self.unload_chunk().state(d)),
    {
        let after = self.unload_chunk();
        let c = self.unload_queue[0];
        assert(self.unload_queue.contains(c));
        assert(self.placed_well(c));
        lemma_drop_first(self.unload_queue, c);
        assert forall|d: ChunkCoord| #[trigger]
            after.unload_queue.contains(d) <==> self.unload_queue.contains(d) && d != c by {
            lemma_drop_first(self.unload_queue, d);
        }
        assert forall|d: ChunkCoord| #[trigger] after.placed_well(d) by {
            assert(self.placed_well(d));
            assert(after.unload_queue.contains(d) <==> self.unload_queue.contains(d) && d != c);
        }
        assert forall|d: ChunkCoord| d != c implies #[trigger] after.state(d) == self.state(d) by {
            assert(after.unload_queue.contains(d) <==> self.unload_queue.contains(d) && d != c);
        }
        assert forall|d: ChunkCoord| step_allowed(self.state(d), #[trigger] after.state(d)) by {
            assert(self.placed_well(d));
            assert(after.unload_queue.contains(d) <==> self.unload_queue.contains(d) && d != c);
        }
    }

    /// Dealing with a reload keeps the scheduler well formed. The position
    /// that left the reload queue is no longer owed a rebuild, and no other
    /// position changes its state.
    pub proof fn lemma_reload_chunk(self)
        requires
            self.wf(),
            self.reload_queue.len() > 0,
        ensures
            self.reload_chunk().wf(),
            !self.reload_chunk().reload_queue.contains(self.reload_queue[0]),
            forall|d: ChunkCoord|
                d != self.reload_queue[0] ==> #[trigger] self.reload_chunk().state(d)
                    == self.state(d),
            forall|d: ChunkCoord| step_allowed(self.state(d), #[trigger] self.reload_chunk().state(d)),
    {
        let after = self.reload_chunk();
        let c = self.reload_queue[0];
        lemma_drop_first(self.reload_queue, c);
        assert forall|d: ChunkCoord| #[trigger]
            after.reload_queue.contains(d) <==> self.reload_queue.contains(d) && d != c by {
            lemma_drop_first(self.reload_queue, d);
        }
        assert forall|d: ChunkCoord| #[trigger] after.placed_well(d) by {
            assert(self.placed_well(d));
        }
        assert forall|d: ChunkCoord| d != c implies #[trigger] after.state(d) == self.state(d) by {
            assert(after.reload_queue.contains(d) <==> self.reload_queue.contains(d) && d != c);
        }
        assert forall|d: ChunkCoord| step_allowed(self.state(d), #[trigger] after.state(d)) by {
            assert(after.reload_queue.contains(d) <==> self.reload_queue.contains(d) && d != c);
        }
    }
}

impl SchedulerState {
    /// Loading the first `k` positions of the load queue keeps the
    /// scheduler well formed; the load queue is then left with the
    /// positions after them.
    pub proof fn lemma_loaded(self, grids: Seq<VoxelGrid>, k: nat)
        requires
            self.wf(),
            k <= grids.len() <= self.load_queue.len(),
            forall|i: int|
                0 <= i < grids.len() ==> (#[trigger] grids[i]).wf() && grids[i].size
                    == self.store.chunk_size,
        ensures
            self.loaded(grids, k).wf(),
            self.loaded(grids, k).load_queue == self.load_queue.skip(k as int),
            self.loaded(grids, k).store.chunk_size == self.store.chunk_size,
            self.loaded(grids, k).unload_queue == self.unload_queue,
            self.loaded(grids, k).render_distance == self.render_distance,
        decreases k,
    {
        if k > 0 {
            self.lemma_loaded(grids, (k - 1) as nat);
            let before = self.loaded(grids, (k - 1) as nat);
            assert(before.load_queue[0] == self.load_queue[k - 1]);
            before.lemma_load_chunk(grids[k - 1]);
            assert(before.load_queue.drop_first() =~= self.load_queue.skip(k as int));
        } else {
            assert(self.load_queue.skip(0) =~= self.load_queue);
        }
    }

    /// The meshes rebuilt for a longer prefix of a queue: those of the
    /// prefix, and the mesh of the next position where it is active.
    pub proof fn lemma_rebuilt_step(self, queue: Seq<ChunkCoord>, k: int)
        requires
            0 <= k < queue.len(),
        ensures
            self.rebuilt(queue.take(k + 1)) == if self.store.contains(queue[k]) {
                self.rebuilt(queue.take(k)).push(self.mesh_of(queue[k]))
            } else {
                self.rebuilt(queue.take(k))
            },
    {
        lemma_filter_take(queue, self.active(), k);
        assert(self.active()(queue[k]) == self.store.contains(queue[k]));
        assert(self.meshing()(queue[k]) == self.mesh_of(queue[k]));
        lemma_map_values_push(queue.take(k).filter(self.active()), self.meshing(), queue[k]);
    }
}

} // verus!
