//! The chunk store: the chunks that currently exist, keyed by their
//! position on the chunk grid.

use crate::chunk::{Chunk, ChunkView};
use crate::coord::{
    chunk_index, coord_from_ints, coord_from_wide, floor_div, floor_mod, lemma_world_join,
    lemma_world_split, local_index, ChunkCoord, WorldPos,
};
use crate::seq_facts::lemma_filter;
use crate::voxel::{grid_contains, Voxel, MAX_CHUNK_SIZE};
use vstd::prelude::*;

verus! {

/// The predicate on chunks that holds where `keep` holds of the chunk's
/// position.
pub open spec fn at_position(keep: spec_fn(ChunkCoord) -> bool) -> spec_fn(ChunkView) -> bool {
    |chunk: ChunkView| keep(chunk.position)
}

/// Whether no two chunks of a sequence share a position.
pub open spec fn positions_distinct(chunks: Seq<ChunkView>) -> bool {
    forall|i: int, j: int|
        0 <= i < j < chunks.len() ==> (#[trigger] chunks[i]).position != (
        #[trigger] chunks[j]).position
}

/// The chunk store as a mathematical value: the chunks in the order in
/// which they were inserted, no two at the same position.
pub struct StoreView {
    pub chunk_size: int,
    pub chunks: Seq<ChunkView>,
}

impl StoreView {
    /// The edge length is supported, every chunk is a cube of that edge
    /// length, and no position occurs twice.
    pub open spec fn wf(self) -> bool {
        &&& 0 < self.chunk_size <= MAX_CHUNK_SIZE
        &&& forall|i: int|
            0 <= i < self.chunks.len() ==> (#[trigger] self.chunks[i]).grid.wf()
                && self.chunks[i].grid.size == self.chunk_size
        &&& positions_distinct(self.chunks)
    }

    /// The positions of the stored chunks, in store order.
    pub open spec fn coords(self) -> Seq<ChunkCoord> {
        Seq::new(self.chunks.len(), |i: int| self.chunks[i].position)
    }

    /// Whether a chunk is stored at `c`.
    pub open spec fn contains(self, c: ChunkCoord) -> bool {
        exists|i: int| 0 <= i < self.chunks.len() && (#[trigger] self.chunks[i]).position == c
    }

    /// Where the chunk at `c` stands in store order.
    pub open spec fn index_of(self, c: ChunkCoord) -> int {
        choose|i: int| 0 <= i < self.chunks.len() && (#[trigger] self.chunks[i]).position == c
    }

    /// The chunk stored at `c`.
    pub open spec fn get(self, c: ChunkCoord) -> ChunkView
        recommends
            self.contains(c),
    {
        self.chunks[self.index_of(c)]
    }

    /// The chunk stored at `c`, if there is one.
    pub open spec fn lookup(self, c: ChunkCoord) -> Option<ChunkView> {
        if self.contains(c) {
            Some(self.get(c))
        } else {
            None
        }
    }

    /// The store after a chunk is put in: it takes the place of the chunk
    /// at the same position, or comes last where there is none.
    pub open spec fn insert(self, chunk: ChunkView) -> StoreView {
        if self.contains(chunk.position) {
            StoreView {
                chunk_size: self.chunk_size,
                chunks: self.chunks.update(self.index_of(chunk.position), chunk),
            }
        } else {
            StoreView { chunk_size: self.chunk_size, chunks: self.chunks.push(chunk) }
        }
    }

    /// The store after the chunk at `c` is taken out; the others keep their
    /// order.
    pub open spec fn remove(self, c: ChunkCoord) -> StoreView {
        if self.contains(c) {
            StoreView {
                chunk_size: self.chunk_size,
                chunks: self.chunks.remove(self.index_of(c)),
            }
        } else {
            self
        }
    }

    /// The store with only the chunks whose position meets `keep`, in
    /// their old order.
    pub open spec fn retain(self, keep: spec_fn(ChunkCoord) -> bool) -> StoreView {
        StoreView {
            chunk_size: self.chunk_size,
            chunks: self.chunks.filter(at_position(keep)),
        }
    }

    /// The position of the chunk that owns world position `(x, y, z)`:
    /// each component is floor-divided by the edge length.
    pub open spec fn owner(self, x: int, y: int, z: int) -> Option<ChunkCoord> {
        coord_from_ints(
            chunk_index(x, self.chunk_size),
            chunk_index(y, self.chunk_size),
            chunk_index(z, self.chunk_size),
        )
    }

    /// The voxel at world position `(x, y, z)`: that of the owning chunk at
    /// the floored remainder of the position, or `None` where the owning
    /// chunk is not stored.
    pub open spec fn sample(self, x: int, y: int, z: int) -> Option<Voxel> {
        match self.owner(x, y, z) {
            Some(c) => if self.contains(c) {
                Some(
                    self.get(c).grid.voxel(
                        local_index(x, self.chunk_size),
                        local_index(y, self.chunk_size),
                        local_index(z, self.chunk_size),
                    ),
                )
            } else {
                None
            },
            None => None,
        }
    }

    /// Whether world position `(x, y, z)` holds a solid voxel of a stored
    /// chunk. A position whose chunk is missing counts as empty.
    pub open spec fn solid(self, x: int, y: int, z: int) -> bool {
        match self.sample(x, y, z) {
            Some(v) => v.is_active,
            None => false,
        }
    }

    /// In a well-formed store a position names its chunk: the chunk at
    /// index `i` is the one found under its own position.
    pub proof fn lemma_index_of(self, i: int)
        requires
            self.wf(),
            0 <= i < self.chunks.len(),
        ensures
            self.contains(self.chunks[i].position),
            self.index_of(self.chunks[i].position) == i,
            self.get(self.chunks[i].position) == self.chunks[i],
    {
        let c = self.chunks[i].position;
        let j = self.index_of(c);
        if j < i {
            assert(self.chunks[j].position != self.chunks[i].position);
        } else if i < j {
            assert(self.chunks[i].position != self.chunks[j].position);
        }
    }

    /// A stored position has an index, and the chunk there is at that
    /// position.
    pub proof fn lemma_contains(self, c: ChunkCoord)
        requires
            self.contains(c),
        ensures
            0 <= self.index_of(c) < self.chunks.len(),
            self.chunks[self.index_of(c)].position == c,
            self.get(c).position == c,
    {
    }

    /// Sampling finds each voxel of each stored chunk at its world
    /// position, whether the chunk lies on the negative or the positive
    /// side of the origin: the position of the voxel at offset
    /// `(x, y, z)` of the chunk at `c` resolves to that chunk and that
    /// offset.
    pub proof fn lemma_sample_voxel(self, c: ChunkCoord, x: int, y: int, z: int)
        requires
            self.wf(),
            self.contains(c),
            grid_contains(self.chunk_size, x, y, z),
        ensures
            self.owner(
                c.x * self.chunk_size + x,
                c.y * self.chunk_size + y,
                c.z * self.chunk_size + z,
            ) == Some(c),
            self.sample(
                c.x * self.chunk_size + x,
                c.y * self.chunk_size + y,
                c.z * self.chunk_size + z,
            ) == Some(self.get(c).grid.voxel(x, y, z)),
    {
        lemma_world_join(c.x as int, x, self.chunk_size);
        lemma_world_join(c.y as int, y, self.chunk_size);
        lemma_world_join(c.z as int, z, self.chunk_size);
    }

    /// A position whose chunk is not stored holds no voxel, whatever its
    /// sign.
    pub proof fn lemma_sample_missing(self, x: int, y: int, z: int)
        requires
            self.wf(),
        ensures
            self.sample(x, y, z) is Some <==> (self.owner(x, y, z) is Some && self.contains(
                self.owner(x, y, z)->0,
            )),
            self.sample(x, y, z) is Some ==> grid_contains(
                self.chunk_size,
                local_index(x, self.chunk_size),
                local_index(y, self.chunk_size),
                local_index(z, self.chunk_size),
            ),
    {
        lemma_world_split(x, self.chunk_size);
        lemma_world_split(y, self.chunk_size);
        lemma_world_split(z, self.chunk_size);
    }

    /// The positions of a well-formed store are distinct, and they are the
    /// positions at which the store holds a chunk.
    pub proof fn lemma_coords(self)
        requires
            self.wf(),
        ensures
            self.coords().no_duplicates(),
            forall|c: ChunkCoord| #[trigger] self.coords().contains(c) <==> self.contains(c),
    {
        let coords = self.coords();
        assert forall|i: int, j: int|
            0 <= i < coords.len() && 0 <= j < coords.len() && i != j implies coords[i]
            != coords[j] by {
            if i < j {
                assert(self.chunks[i].position != self.chunks[j].position);
            } else {
                assert(self.chunks[j].position != self.chunks[i].position);
            }
        }
        assert forall|c: ChunkCoord| #[trigger] coords.contains(c) <==> self.contains(c) by {
            if coords.contains(c) {
                let i = choose|i: int| 0 <= i < coords.len() && coords[i] == c;
                assert(self.chunks[i].position == c);
            }
            if self.contains(c) {
                let i = self.index_of(c);
                assert(coords[i] == c);
            }
        }
    }

    /// Keeping the chunks at some positions keeps the store well formed; it
    /// then holds a chunk where it held one before at a position that is
    /// kept, and the chunk is the same.
    pub proof fn lemma_retain(self, keep: spec_fn(ChunkCoord) -> bool)
        requires
            self.wf(),
        ensures
            self.retain(keep).wf(),
            forall|c: ChunkCoord| #[trigger]
                self.retain(keep).contains(c) <==> self.contains(c) && keep(c),
            forall|c: ChunkCoord|
                self.contains(c) && keep(c) ==> #[trigger] self.retain(keep).get(c) == self.get(c),
        decreases self.chunks.len(),
    {
        let after = self.retain(keep);
        let p = at_position(keep);
        lemma_filter(self.chunks, p);
        assert forall|i: int| 0 <= i < after.chunks.len() implies self.chunks.contains(
            #[trigger] after.chunks[i],
        ) && keep(after.chunks[i].position) by {
            assert(after.chunks.contains(after.chunks[i]));
        }
        assert(after.wf()) by {
            assert forall|i: int| 0 <= i < after.chunks.len() implies (
            #[trigger] after.chunks[i]).grid.wf() && after.chunks[i].grid.size
                == after.chunk_size by {
                assert(self.chunks.contains(after.chunks[i]));
                let k = choose|k: int| 0 <= k < self.chunks.len() && self.chunks[k] == after.chunks[i];
                assert(self.chunks[k].grid.wf());
            }
            lemma_filter_keeps_positions_distinct(self.chunks, p);
        }
        assert forall|c: ChunkCoord| #[trigger]
            after.contains(c) <==> self.contains(c) && keep(c) by {
            if after.contains(c) {
                let i = after.index_of(c);
                assert(self.chunks.contains(after.chunks[i]));
                let k = choose|k: int| 0 <= k < self.chunks.len() && self.chunks[k] == after.chunks[i];
                assert(self.chunks[k].position == c);
            }
            if self.contains(c) && keep(c) {
                let k = self.index_of(c);
                assert(self.chunks.contains(self.chunks[k]));
                assert(after.chunks.contains(self.chunks[k]));
                let i = choose|i: int| 0 <= i < after.chunks.len() && after.chunks[i] == self.chunks[k];
                assert(after.chunks[i].position == c);
            }
        }
        assert forall|c: ChunkCoord| self.contains(c) && keep(c) implies #[trigger] after.get(c)
            == self.get(c) by {
            assert(after.contains(c));
            let i = after.index_of(c);
            assert(self.chunks.contains(after.chunks[i]));
            let k = choose|k: int| 0 <= k < self.chunks.len() && self.chunks[k] == after.chunks[i];
            self.lemma_index_of(k);
        }
    }

    /// Putting a chunk in keeps the store well formed, makes the chunk the
    /// one found at its position, and changes nothing at other positions.
    pub proof fn lemma_insert(self, chunk: ChunkView)
        requires
            self.wf(),
            chunk.grid.wf(),
            chunk.grid.size == self.chunk_size,
        ensures
            self.insert(chunk).wf(),
            self.insert(chunk).contains(chunk.position),
            self.insert(chunk).get(chunk.position) == chunk,
            forall|c: ChunkCoord|
                c != chunk.position ==> (#[trigger] self.insert(chunk).contains(c)
                    == self.contains(c)),
            forall|c: ChunkCoord|
                c != chunk.position && self.contains(c) ==> #[trigger] self.insert(chunk).get(c)
                    == self.get(c),
    {
        let after = self.insert(chunk);
        let k = if self.contains(chunk.position) {
            self.index_of(chunk.position)
        } else {
            self.chunks.len() as int
        };
        assert(after.chunks[k] == chunk);
        assert(after.wf()) by {
            assert forall|i: int, j: int| 0 <= i < j < after.chunks.len() implies (
            #[trigger] after.chunks[i]).position != (#[trigger] after.chunks[j]).position by {
                if i != k && j != k {
                    assert(self.chunks[i].position != self.chunks[j].position);
                } else if self.contains(chunk.position) {
                    assert(self.chunks[i].position != self.chunks[j].position);
                }
            }
        }
        after.lemma_index_of(k);
        assert forall|c: ChunkCoord| c != chunk.position implies #[trigger] after.contains(c)
            == self.contains(c) by {
            if self.contains(c) {
                let i = self.index_of(c);
                assert(after.chunks[i] == self.chunks[i]);
            }
            if after.contains(c) {
                let i = after.index_of(c);
                assert(self.chunks[i] == after.chunks[i]);
            }
        }
        assert forall|c: ChunkCoord| c != chunk.position && self.contains(c) implies
            #[trigger] after.get(c) == self.get(c) by {
            let i = self.index_of(c);
            assert(after.chunks[i] == self.chunks[i]);
            after.lemma_index_of(i);
        }
    }

    /// Taking a chunk out keeps the store well formed, leaves nothing at
    /// its position, and changes nothing at other positions.
    pub proof fn lemma_remove(self, c: ChunkCoord)
        requires
            self.wf(),
        ensures
            self.remove(c).wf(),
            !self.remove(c).contains(c),
            forall|d: ChunkCoord| d != c ==> (#[trigger] self.remove(c).contains(d) == self.contains(d)),
            forall|d: ChunkCoord|
                d != c && self.contains(d) ==> #[trigger] self.remove(c).get(d) == self.get(d),
    {
        let after = self.remove(c);
        if self.contains(c) {
            let k = self.index_of(c);
            assert forall|i: int| 0 <= i < after.chunks.len() implies #[trigger] after.chunks[i]
                == self.chunks[if i < k { i } else { i + 1 }] by {}
            assert(after.wf()) by {
                assert forall|i: int, j: int| 0 <= i < j < after.chunks.len() implies (
                #[trigger] after.chunks[i]).position != (#[trigger] after.chunks[j]).position by {
                    let si = if i < k { i } else { i + 1 };
                    let sj = if j < k { j } else { j + 1 };
                    assert(self.chunks[si].position != self.chunks[sj].position);
                }
            }
            if after.contains(c) {
                let i = after.index_of(c);
                let si = if i < k { i } else { i + 1 };
                self.lemma_index_of(si);
            }
            assert forall|d: ChunkCoord| d != c implies #[trigger] after.contains(d)
                == self.contains(d) by {
                if self.contains(d) {
                    let i = self.index_of(d);
                    let ai = if i < k { i } else { i - 1 };
                    assert(after.chunks[ai] == self.chunks[i]);
                }
                if after.contains(d) {
                    let i = after.index_of(d);
                    let si = if i < k { i } else { i + 1 };
                    assert(self.chunks[si] == after.chunks[i]);
                }
            }
            assert forall|d: ChunkCoord| d != c && self.contains(d) implies #[trigger] after.get(d)
                == self.get(d) by {
                let i = self.index_of(d);
                let ai = if i < k { i } else { i - 1 };
                assert(after.chunks[ai] == self.chunks[i]);
                after.lemma_index_of(ai);
            }
        }
    }
}

/// Filtering chunks at distinct positions leaves chunks at distinct
/// positions.
proof fn lemma_filter_keeps_positions_distinct(
    chunks: Seq<ChunkView>,
    p: spec_fn(ChunkView) -> bool,
)
    requires
        positions_distinct(chunks),
    ensures
        positions_distinct(chunks.filter(p)),
    decreases chunks.len(),
{
    reveal(Seq::filter);
    if chunks.len() > 0 {
        let rest = chunks.drop_last();
        let last = chunks.last();
        assert(positions_distinct(rest)) by {
            assert forall|i: int, j: int| 0 <= i < j < rest.len() implies (
            #[trigger] rest[i]).position != (#[trigger] rest[j]).position by {
                assert(chunks[i].position != chunks[j].position);
            }
        }
        lemma_filter_keeps_positions_distinct(rest, p);
        lemma_filter(rest, p);
        let kept = rest.filter(p);
        if p(last) {
            assert forall|i: int, j: int| 0 <= i < j < kept.push(last).len() implies (
            #[trigger] kept.push(last)[i]).position != (#[trigger] kept.push(
                last,
            )[j]).position by {
                if j == kept.len() {
                    assert(kept.contains(kept[i]));
                    let k = choose|k: int| 0 <= k < rest.len() && rest[k] == kept[i];
                    assert(chunks[k].position != chunks[chunks.len() - 1].position);
                } else {
                    assert(kept[i].position != kept[j].position);
                }
            }
        }
    }
}

/// The chunks that currently exist, each found under its position.
#[derive(Debug)]
pub struct ChunkStore {
    chunk_size: i32,
    chunks: Vec<Chunk>,
}

impl View for ChunkStore {
    type V = StoreView;

    closed spec fn view(&self) -> StoreView {
        StoreView {
            chunk_size: self.chunk_size as int,
            chunks: Seq::new(self.chunks@.len(), |i: int| self.chunks@[i]@),
        }
    }
}

impl ChunkStore {
    /// The store holds well-formed chunks of one edge length, no two at the
    /// same position.
    pub open spec fn wf(&self) -> bool {
        self@.wf()
    }

    /// An empty store for chunks of edge length `chunk_size`.
    pub fn new(chunk_size: i32) -> (store: ChunkStore)
        requires
            0 < chunk_size <= MAX_CHUNK_SIZE,
        ensures
            store@ == (StoreView { chunk_size: chunk_size as int, chunks: Seq::empty() }),
            store.wf(),
    {
        let store = ChunkStore { chunk_size, chunks: Vec::new() };
        assert(store@.chunks =~= Seq::empty());
        store
    }

    /// Edge length of the chunks of this store.
    pub fn chunk_size(&self) -> (n: i32)
        ensures
            n == self@.chunk_size,
    {
        self.chunk_size
    }

    /// Number of stored chunks.
    pub fn len(&self) -> (n: usize)
        ensures
            n == self@.chunks.len(),
    {
        self.chunks.len()
    }

    /// The chunk at index `i` of store order.
    pub fn chunk_at(&self, i: usize) -> (chunk: &Chunk)
        requires
            i < self@.chunks.len(),
        ensures
            chunk@ == self@.chunks[i as int],
    {
        &self.chunks[i]
    }

    /// Index of the chunk at `coord` in store order, if one is stored.
    pub fn find(&self, coord: ChunkCoord) -> (found: Option<usize>)
        requires
            self.wf(),
        ensures
            match found {
                Some(i) => self@.contains(coord) && i == self@.index_of(coord),
                None => !self@.contains(coord),
            },
    {
        let mut i: usize = 0;
        while i < self.chunks.len()
            invariant
                self.wf(),
                i <= self.chunks@.len(),
                forall|j: int| 0 <= j < i ==> (#[trigger] self@.chunks[j]).position != coord,
            decreases self.chunks@.len() - i,
        {
            let p = self.chunks[i].position;
            assert(self@.chunks[i as int].position == p);
            if p.x == coord.x && p.y == coord.y && p.z == coord.z {
                proof {
                    self@.lemma_index_of(i as int);
                }
                return Some(i);
            }
            i = i + 1;
        }
        None
    }

    /// Whether a chunk is stored at `coord`.
    pub fn contains_key(&self, coord: ChunkCoord) -> (b: bool)
        requires
            self.wf(),
        ensures
            b == self@.contains(coord),
    {
        self.find(coord).is_some()
    }

    /// The chunk stored at `coord`, if there is one.
    pub fn get(&self, coord: ChunkCoord) -> (found: Option<&Chunk>)
        requires
            self.wf(),
        ensures
            match found {
                Some(chunk) => self@.contains(coord) && chunk@ == self@.get(coord)
                    && chunk.wf() && chunk.voxel_data.size == self@.chunk_size,
                None => !self@.contains(coord),
            },
    {
        match self.find(coord) {
            Some(i) => {
                assert(self@.chunks[i as int] == self.chunks@[i as int]@);
                Some(&self.chunks[i])
            },
            None => None,
        }
    }

    /// Puts `chunk` into the store under its position. It takes the place
    /// of a chunk already stored there, which is returned.
    pub fn insert(&mut self, chunk: Chunk) -> (previous: Option<Chunk>)
        requires
            old(self).wf(),
            chunk.wf(),
            chunk.voxel_data.size == old(self)@.chunk_size,
        ensures
            final(self)@ == old(self)@.insert(chunk@),
            final(self).wf(),
            match previous {
                Some(p) => old(self)@.contains(chunk.position) && p@ == old(self)@.get(
                    chunk.position,
                ),
                None => !old(self)@.contains(chunk.position),
            },
    {
        proof {
            self@.lemma_insert(chunk@);
        }
        let ghost before = self@;
        let ghost added = chunk@;
        match self.find(chunk.position) {
            Some(i) => {
                self.chunks.push(chunk);
                let previous = self.chunks.swap_remove(i);
                assert(self@.chunks =~= before.chunks.update(i as int, added));
                assert(previous@ == before.chunks[i as int]);
                Some(previous)
            },
            None => {
                self.chunks.push(chunk);
                assert(self@.chunks =~= before.chunks.push(added));
                None
            },
        }
    }

    /// Takes the chunk at `coord` out of the store and returns it, if one
    /// is stored there.
    pub fn remove(&mut self, coord: ChunkCoord) -> (removed: Option<Chunk>)
        requires
            old(self).wf(),
        ensures
            final(self)@ == old(self)@.remove(coord),
            final(self).wf(),
            match removed {
                Some(chunk) => old(self)@.contains(coord) && chunk@ == old(self)@.get(coord),
                None => !old(self)@.contains(coord),
            },
    {
        proof {
            self@.lemma_remove(coord);
        }
        let ghost before = self@;
        match self.find(coord) {
            Some(i) => {
                let removed = self.chunks.remove(i);
                assert(self@.chunks =~= before.chunks.remove(i as int));
                assert(removed@ == before.chunks[i as int]);
                Some(removed)
            },
            None => None,
        }
    }

    /// The voxel at world position `pos`, or `None` where the chunk that
    /// owns the position is not stored.
    pub fn sample_world(&self, pos: WorldPos) -> (found: Option<&Voxel>)
        requires
            self.wf(),
        ensures
            match found {
                Some(v) => self@.sample(pos.x as int, pos.y as int, pos.z as int) == Some(*v),
                None => self@.sample(pos.x as int, pos.y as int, pos.z as int) is None,
            },
    {
        let n: i32 = self.chunk_size;
        let owner = coord_from_wide(floor_div(pos.x, n), floor_div(pos.y, n), floor_div(pos.z, n));
        match owner {
            Some(coord) => match self.get(coord) {
                Some(chunk) => {
                    let x: i32 = floor_mod(pos.x, n);
                    let y: i32 = floor_mod(pos.y, n);
                    let z: i32 = floor_mod(pos.z, n);
                    chunk.voxel_data.get(x, y, z)
                },
                None => None,
            },
            None => None,
        }
    }
}

} // verus!
