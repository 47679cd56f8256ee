//! Surface extraction: the triangle mesh of a chunk by marching cubes.
//!
//! Every voxel position of a chunk is the origin of one unit cell. A cell's
//! eight corners are classified as solid or empty, the resulting corner
//! pattern selects a row of the case table, and the row's triangles are
//! emitted over the midpoints of the cell's twelve edges. Positions of
//! mesh vertices are kept doubled, so that midpoints stay integers.

use crate::chunk::{Chunk, ChunkView};
use crate::chunk_manager::ChunkManager;
use crate::chunk_store::{ChunkStore, StoreView};
use crate::coord::{
    chunk_index, coord_from_ints, lemma_world_join, local_index, ChunkCoord, WorldPos,
};
use crate::tables::{
    lemma_uniform_cases_are_empty, row_edges, table_entry, triangle_count, triangulation_row,
    triple_present, TRIANGULATION,
};
use crate::voxel::{grid_contains, lemma_grid_coords, VoxelGrid, MAX_CHUNK_SIZE};
use vstd::prelude::*;

verus! {

/// A mesh vertex. Its components are twice the world coordinates of the
/// point it stands for, which lies on the half-voxel lattice.
#[derive(Clone, Copy, Debug, PartialEq, Eq, Structural)]
pub struct Vertex {
    pub x: i64,
    pub y: i64,
    pub z: i64,
}

/// A mesh as a mathematical value.
pub struct MeshView {
    pub vertices: Seq<Vertex>,
    pub indices: Seq<u32>,
}

/// A triangle mesh: vertex positions, and three indices into them for each
/// triangle.
#[derive(Debug, Clone)]
pub struct MeshData {
    pub vertices: Vec<Vertex>,
    pub indices: Vec<u32>,
}

impl View for MeshData {
    type V = MeshView;

    open spec fn view(&self) -> MeshView {
        MeshView { vertices: self.vertices@, indices: self.indices@ }
    }
}

/// Offset of corner `i` of a cell from the cell's origin.
pub open spec fn corner_offset(i: int) -> (int, int, int) {
    if i == 0 {
        (0, 0, 0)
    } else if i == 1 {
        (0, 1, 0)
    } else if i == 2 {
        (1, 1, 0)
    } else if i == 3 {
        (1, 0, 0)
    } else if i == 4 {
        (0, 0, 1)
    } else if i == 5 {
        (0, 1, 1)
    } else if i == 6 {
        (1, 1, 1)
    } else {
        (1, 0, 1)
    }
}

/// The two corners that edge `e` of a cell joins.
pub open spec fn edge_ends(e: int) -> (int, int) {
    if e < 4 {
        (e, (e + 1) % 4)
    } else if e < 8 {
        (e, 4 + (e - 3) % 4)
    } else {
        (e - 8, e - 4)
    }
}

/// Twice the offset of the midpoint of edge `e` of a cell from the cell's
/// origin.
pub open spec fn edge_offset(e: int) -> (int, int, int) {
    if e == 0 {
        (0, 1, 0)
    } else if e == 1 {
        (1, 2, 0)
    } else if e == 2 {
        (2, 1, 0)
    } else if e == 3 {
        (1, 0, 0)
    } else if e == 4 {
        (0, 1, 2)
    } else if e == 5 {
        (1, 2, 2)
    } else if e == 6 {
        (2, 1, 2)
    } else if e == 7 {
        (1, 0, 2)
    } else if e == 8 {
        (0, 0, 1)
    } else if e == 9 {
        (0, 2, 1)
    } else if e == 10 {
        (2, 2, 1)
    } else {
        (2, 0, 1)
    }
}

/// The vertex of an edge lies midway between the two corners that the edge
/// joins: its doubled offset is the sum of their offsets.
pub proof fn lemma_edge_midpoint(e: int)
    requires
        0 <= e < 12,
    ensures
        ({
            let (a, b) = edge_ends(e);
            &&& 0 <= a < 8
            &&& 0 <= b < 8
            &&& a != b
            &&& edge_offset(e).0 == corner_offset(a).0 + corner_offset(b).0
            &&& edge_offset(e).1 == corner_offset(a).1 + corner_offset(b).1
            &&& edge_offset(e).2 == corner_offset(a).2 + corner_offset(b).2
        }),
{
}

/// The vertex on edge `e` of the cell whose origin is at `origin`.
pub open spec fn cell_vertex(origin: (int, int, int), e: int) -> Vertex {
    Vertex {
        x: (2 * origin.0 + edge_offset(e).0) as i64,
        y: (2 * origin.1 + edge_offset(e).1) as i64,
        z: (2 * origin.2 + edge_offset(e).2) as i64,
    }
}

/// The twelve edge vertices of the cell whose origin is at `origin`.
pub open spec fn cell_vertices(origin: (int, int, int)) -> Seq<Vertex> {
    Seq::new(12, |e: int| cell_vertex(origin, e))
}

/// Local coordinate of the origin of cell number `k` of a chunk of edge
/// `n`. Cells are numbered with `z` running fastest, then `y`, then `x`.
pub open spec fn cell_coords(n: int, k: int) -> (int, int, int) {
    (k / (n * n), (k / n) % n, k % n)
}

/// World position of the origin of cell number `k` of `chunk`.
pub open spec fn cell_origin(chunk: ChunkView, k: int) -> (int, int, int) {
    let (x, y, z) = cell_coords(chunk.grid.size, k);
    chunk.position.voxel_position(chunk.grid.size, x, y, z)
}

/// Whether corner `i` of the cell at local coordinate `(x, y, z)` of
/// `chunk` is solid. A corner inside the chunk is read from the chunk; a
/// corner beyond it is looked up in the store by its world position, and
/// counts as empty where its chunk is missing.
pub open spec fn corner_solid(
    chunk: ChunkView,
    store: StoreView,
    x: int,
    y: int,
    z: int,
    i: int,
) -> bool {
    let (dx, dy, dz) = corner_offset(i);
    if chunk.grid.contains(x + dx, y + dy, z + dz) {
        chunk.grid.voxel(x + dx, y + dy, z + dz).is_active
    } else {
        let (wx, wy, wz) = chunk.position.voxel_position(
            chunk.grid.size,
            x + dx,
            y + dy,
            z + dz,
        );
        store.solid(wx, wy, wz)
    }
}

/// `w` where `solid` holds, zero where it does not.
pub open spec fn corner_weight(solid: bool, w: int) -> int {
    if solid {
        w
    } else {
        0
    }
}

/// The corner pattern of the cell at local coordinate `(x, y, z)` of
/// `chunk`: bit `i` is set where corner `i` is solid.
pub open spec fn cell_case(chunk: ChunkView, store: StoreView, x: int, y: int, z: int) -> int {
    corner_weight(corner_solid(chunk, store, x, y, z, 0), 1) + corner_weight(
        corner_solid(chunk, store, x, y, z, 1),
        2,
    ) + corner_weight(corner_solid(chunk, store, x, y, z, 2), 4) + corner_weight(
        corner_solid(chunk, store, x, y, z, 3),
        8,
    ) + corner_weight(corner_solid(chunk, store, x, y, z, 4), 16) + corner_weight(
        corner_solid(chunk, store, x, y, z, 5),
        32,
    ) + corner_weight(corner_solid(chunk, store, x, y, z, 6), 64) + corner_weight(
        corner_solid(chunk, store, x, y, z, 7),
        128,
    )
}

/// The triangle indices that a cell with corner pattern `case` emits when
/// its twelve vertices start at index `base`: for each slot of the
/// pattern's triangles, `base` plus the edge in the slot.
pub open spec fn cell_indices(case: int, base: int) -> Seq<u32> {
    Seq::new(
        (3 * triangle_count(case)) as nat,
        |j: int| (base + table_entry(case, j)) as u32,
    )
}

/// The vertices of the mesh of `chunk`: the twelve edge vertices of each
/// cell, cell after cell.
pub open spec fn mesh_vertices(chunk: ChunkView) -> Seq<Vertex> {
    let n = chunk.grid.size;
    Seq::new((12 * (n * n * n)) as nat, |j: int| cell_vertex(cell_origin(chunk, j / 12), j % 12))
}

/// The triangle indices that the first `k` cells of `chunk` emit.
pub open spec fn mesh_indices(chunk: ChunkView, store: StoreView, k: nat) -> Seq<u32>
    decreases k,
{
    if k == 0 {
        Seq::empty()
    } else {
        let (x, y, z) = cell_coords(chunk.grid.size, k - 1);
        mesh_indices(chunk, store, (k - 1) as nat) + cell_indices(
            cell_case(chunk, store, x, y, z),
            12 * (k - 1),
        )
    }
}

/// The mesh of `chunk` among the chunks of `store`.
pub open spec fn extracted_mesh(chunk: ChunkView, store: StoreView) -> MeshView {
    let n = chunk.grid.size;
    MeshView {
        vertices: mesh_vertices(chunk),
        indices: mesh_indices(chunk, store, (n * n * n) as nat),
    }
}

/// World positions within which doubled coordinates, and the far corners
/// of a cell, fit in 64 bits.
pub open spec fn in_vertex_range(pos: WorldPos) -> bool {
    &&& -0x2000_0000_0000_0000 <= pos.x <= 0x2000_0000_0000_0000
    &&& -0x2000_0000_0000_0000 <= pos.y <= 0x2000_0000_0000_0000
    &&& -0x2000_0000_0000_0000 <= pos.z <= 0x2000_0000_0000_0000
}

/// The world positions of the voxels of a chunk of supported size, and of
/// the corners one beyond them, are far inside that range.
proof fn lemma_chunk_in_vertex_range(c: int, n: int, l: int)
    requires
        -0x8000_0000 <= c <= 0x7fff_ffff,
        0 < n <= MAX_CHUNK_SIZE,
        0 <= l <= n,
    ensures
        -0x200_0000_0000 <= c * n + l <= 0x200_0000_0000,
{
    assert(-0x200_0000_0000 <= c * n + l <= 0x200_0000_0000) by (nonlinear_arith)
        requires
            -0x8000_0000 <= c <= 0x7fff_ffff,
            0 < n <= 512,
            0 <= l <= n,
    ;
}

/// The eight corners of the cell whose origin is at `pos`.
pub fn generate_cube_vertices(pos: WorldPos) -> (corners: Vec<WorldPos>)
    requires
        in_vertex_range(pos),
    ensures
        corners@.len() == 8,
        forall|i: int|
            0 <= i < 8 ==> ({
                let c = #[trigger] corners@[i];
                (c.x as int, c.y as int, c.z as int) == (
                    pos.x + corner_offset(i).0,
                    pos.y + corner_offset(i).1,
                    pos.z + corner_offset(i).2,
                )
            }),
{
    let x: i64 = pos.x;
    let y: i64 = pos.y;
    let z: i64 = pos.z;
    vec![
        WorldPos { x, y, z },
        WorldPos { x, y: y + 1, z },
        WorldPos { x: x + 1, y: y + 1, z },
        WorldPos { x: x + 1, y, z },
        WorldPos { x, y, z: z + 1 },
        WorldPos { x, y: y + 1, z: z + 1 },
        WorldPos { x: x + 1, y: y + 1, z: z + 1 },
        WorldPos { x: x + 1, y, z: z + 1 },
    ]
}

/// The twelve edge vertices of the cell whose origin is at `pos`.
pub fn generate_cube_edges(pos: WorldPos) -> (vertices: Vec<Vertex>)
    requires
        in_vertex_range(pos),
    ensures
        vertices@ == cell_vertices((pos.x as int, pos.y as int, pos.z as int)),
{
    let x: i64 = 2 * pos.x;
    let y: i64 = 2 * pos.y;
    let z: i64 = 2 * pos.z;
    let vertices = vec![
        Vertex { x, y: y + 1, z },
        Vertex { x: x + 1, y: y + 2, z },
        Vertex { x: x + 2, y: y + 1, z },
        Vertex { x: x + 1, y, z },
        Vertex { x, y: y + 1, z: z + 2 },
        Vertex { x: x + 1, y: y + 2, z: z + 2 },
        Vertex { x: x + 2, y: y + 1, z: z + 2 },
        Vertex { x: x + 1, y, z: z + 2 },
        Vertex { x, y, z: z + 1 },
        Vertex { x, y: y + 2, z: z + 1 },
        Vertex { x: x + 2, y: y + 2, z: z + 1 },
        Vertex { x: x + 2, y, z: z + 1 },
    ];
    assert(vertices@ =~= cell_vertices((pos.x as int, pos.y as int, pos.z as int)));
    vertices
}

/// Whether corner `i` of the cell at local coordinate `(x, y, z)` of
/// `chunk` is solid, where `base` is the world position of the chunk's
/// first voxel and `corner` that of the corner.
fn corner_is_solid(
    chunk: &Chunk,
    store: &ChunkStore,
    base: WorldPos,
    corner: WorldPos,
    Ghost(x): Ghost<int>,
    Ghost(y): Ghost<int>,
    Ghost(z): Ghost<int>,
    Ghost(i): Ghost<int>,
) -> (solid: bool)
    requires
        chunk.wf(),
        store.wf(),
        chunk.voxel_data.size == store@.chunk_size,
        chunk@.grid.contains(x, y, z),
        0 <= i < 8,
        (base.x as int, base.y as int, base.z as int) == chunk.position.voxel_position(
            chunk.voxel_data.size as int,
            0,
            0,
            0,
        ),
        corner.x == chunk.position.x * chunk.voxel_data.size + x + corner_offset(i).0,
        corner.y == chunk.position.y * chunk.voxel_data.size + y + corner_offset(i).1,
        corner.z == chunk.position.z * chunk.voxel_data.size + z + corner_offset(i).2,
    ensures
        solid == corner_solid(chunk@, store@, x, y, z, i),
{
    let lx: i32 = (corner.x - base.x) as i32;
    let ly: i32 = (corner.y - base.y) as i32;
    let lz: i32 = (corner.z - base.z) as i32;
    match chunk.voxel_data.get(lx, ly, lz) {
        Some(voxel) => voxel.is_active,
        None => match store.sample_world(corner) {
            Some(voxel) => voxel.is_active,
            None => false,
        },
    }
}

/// The corner pattern of the cell at local coordinate `(x, y, z)` of
/// `chunk`.
pub fn cell_case_of(chunk: &Chunk, store: &ChunkStore, x: i32, y: i32, z: i32) -> (case: usize)
    requires
        chunk.wf(),
        store.wf(),
        chunk.voxel_data.size == store@.chunk_size,
        chunk@.grid.contains(x as int, y as int, z as int),
    ensures
        case == cell_case(chunk@, store@, x as int, y as int, z as int),
        case < 256,
{
    let n: i32 = chunk.voxel_data.size;
    let base = chunk.position.world_position(n, 0, 0, 0);
    let origin = chunk.position.world_position(n, x, y, z);
    proof {
        lemma_chunk_in_vertex_range(chunk.position.x as int, n as int, x as int);
        lemma_chunk_in_vertex_range(chunk.position.y as int, n as int, y as int);
        lemma_chunk_in_vertex_range(chunk.position.z as int, n as int, z as int);
    }
    let corners = generate_cube_vertices(origin);
    let ghost (gx, gy, gz) = (x as int, y as int, z as int);
    let s0 = corner_is_solid(chunk, store, base, corners[0], Ghost(gx), Ghost(gy), Ghost(gz), Ghost(0));
    let s1 = corner_is_solid(chunk, store, base, corners[1], Ghost(gx), Ghost(gy), Ghost(gz), Ghost(1));
    let s2 = corner_is_solid(chunk, store, base, corners[2], Ghost(gx), Ghost(gy), Ghost(gz), Ghost(2));
    let s3 = corner_is_solid(chunk, store, base, corners[3], Ghost(gx), Ghost(gy), Ghost(gz), Ghost(3));
    let s4 = corner_is_solid(chunk, store, base, corners[4], Ghost(gx), Ghost(gy), Ghost(gz), Ghost(4));
    let s5 = corner_is_solid(chunk, store, base, corners[5], Ghost(gx), Ghost(gy), Ghost(gz), Ghost(5));
    let s6 = corner_is_solid(chunk, store, base, corners[6], Ghost(gx), Ghost(gy), Ghost(gz), Ghost(6));
    let s7 = corner_is_solid(chunk, store, base, corners[7], Ghost(gx), Ghost(gy), Ghost(gz), Ghost(7));
    let mut case: usize = 0;
    if s0 {
        case = case + 1;
    }
    if s1 {
        case = case + 2;
    }
    if s2 {
        case = case + 4;
    }
    if s3 {
        case = case + 8;
    }
    if s4 {
        case = case + 16;
    }
    if s5 {
        case = case + 32;
    }
    if s6 {
        case = case + 64;
    }
    if s7 {
        case = case + 128;
    }
    case
}

/// Appends to `indices` the triangle indices of a cell with corner pattern
/// `case` whose twelve vertices start at index `base`.
fn push_cell_indices(indices: &mut Vec<u32>, case: usize, base: u32)
    requires
        case < 256,
        base <= 0xffff_0000,
    ensures
        final(indices)@ == old(indices)@ + cell_indices(case as int, base as int),
{
    let edges = row_edges(triangulation_row(case));
    let ghost before = indices@;
    let mut j: usize = 0;
    while j < edges.len()
        invariant
            case < 256,
            base <= 0xffff_0000,
            j <= edges@.len(),
            edges@.len() == 3 * triangle_count(case as int),
            forall|i: int|
                0 <= i < edges@.len() ==> #[trigger] edges@[i] == table_entry(case as int, i)
                    && edges@[i] < 12,
            indices@ == before + cell_indices(case as int, base as int).take(j as int),
        decreases edges@.len() - j,
    {
        indices.push(base + edges[j] as u32);
        assert(cell_indices(case as int, base as int).take(j as int + 1)
            =~= cell_indices(case as int, base as int).take(j as int).push(
            (base + edges@[j as int]) as u32,
        ));
        j = j + 1;
    }
    assert(cell_indices(case as int, base as int).take(j as int) =~= cell_indices(
        case as int,
        base as int,
    ));
}

impl MeshData {
    /// Extracts the mesh of `chunk` among the active chunks of
    /// `chunk_manager`.
    pub fn generate_marching_cubes(chunk: &Chunk, chunk_manager: &ChunkManager) -> (mesh: MeshData)
        requires
            chunk.wf(),
            chunk_manager.wf(),
            chunk.voxel_data.size == chunk_manager@.store.chunk_size,
        ensures
            mesh@ == extracted_mesh(chunk@, chunk_manager@.store),
    {
        MeshData::extract(chunk, chunk_manager.store())
    }

    /// Extracts the mesh of `chunk`. Corners that lie beyond the chunk are
    /// looked up in `store`; where their chunk is missing they count as
    /// empty.
    pub fn extract(chunk: &Chunk, store: &ChunkStore) -> (mesh: MeshData)
        requires
            chunk.wf(),
            store.wf(),
            chunk.voxel_data.size == store@.chunk_size,
        ensures
            mesh@ == extracted_mesh(chunk@, store@),
    {
        let n: i32 = chunk.voxel_data.size;
        let m: usize = n as usize;
        proof {
            lemma_cell_count(n as int);
        }
        let layer: usize = m * m;
        let total: usize = layer * m;
        let mut vertices: Vec<Vertex> = Vec::new();
        let mut indices: Vec<u32> = Vec::new();
        let mut k: usize = 0;
        while k < total
            invariant
                chunk.wf(),
                store.wf(),
                chunk.voxel_data.size == store@.chunk_size,
                n == chunk.voxel_data.size,
                m == n,
                layer == n * n,
                total == n * n * n,
                total <= 0x800_0000,
                k <= total,
                vertices@ == mesh_vertices(chunk@).take(12 * k),
                indices@ == mesh_indices(chunk@, store@, k as nat),
            decreases total - k,
        {
            proof {
                lemma_cell_in_grid(n as int, k as int);
                lemma_vertices_step(chunk@, k as int);
            }
            let x: i32 = (k / layer) as i32;
            let y: i32 = ((k / m) % m) as i32;
            let z: i32 = (k % m) as i32;
            let case = cell_case_of(chunk, store, x, y, z);
            assert(vertices@.len() == 12 * k);
            push_cell_indices(&mut indices, case, vertices.len() as u32);
            let origin = chunk.position.world_position(n, x, y, z);
            proof {
                lemma_chunk_in_vertex_range(chunk.position.x as int, n as int, x as int);
                lemma_chunk_in_vertex_range(chunk.position.y as int, n as int, y as int);
                lemma_chunk_in_vertex_range(chunk.position.z as int, n as int, z as int);
            }
            let mut cell = generate_cube_edges(origin);
            vertices.append(&mut cell);
            k = k + 1;
        }
        assert(vertices@ =~= mesh_vertices(chunk@));
        MeshData { vertices, indices }
    }
}

/// The vertices of the first `k + 1` cells of a chunk are those of the
/// first `k` cells followed by the twelve edge vertices of cell `k`.
proof fn lemma_vertices_step(chunk: ChunkView, k: int)
    requires
        0 <= k < chunk.grid.size * chunk.grid.size * chunk.grid.size,
    ensures
        mesh_vertices(chunk).take(12 * (k + 1)) == mesh_vertices(chunk).take(12 * k)
            + cell_vertices(cell_origin(chunk, k)),
{
    let all = mesh_vertices(chunk);
    let next = all.take(12 * k) + cell_vertices(cell_origin(chunk, k));
    assert(all.take(12 * (k + 1)).len() == next.len());
    assert forall|j: int| 0 <= j < next.len() implies all.take(12 * (k + 1))[j] == next[j] by {
        if j >= 12 * k {
            assert(j / 12 == k && j % 12 == j - 12 * k);
        }
    }
    assert(all.take(12 * (k + 1)) =~= next);
}

/// The number of cells of a chunk, and twelve times it, fit in 32 bits.
proof fn lemma_cell_count(n: int)
    requires
        0 < n <= MAX_CHUNK_SIZE,
    ensures
        0 < n * n <= 0x4_0000,
        0 < n * n * n <= 0x800_0000,
{
    assert(0 < n * n <= 0x4_0000) by (nonlinear_arith)
        requires
            0 < n <= 512,
    ;
    assert(0 < n * n * n <= 0x800_0000) by (nonlinear_arith)
        requires
            0 < n <= 512,
            0 < n * n <= 0x4_0000,
    ;
}

/// The corner pattern of a cell is a number from 0 to 255, and the cell
/// emits between zero and five triangles, three indices each.
pub proof fn lemma_cell_bounds(chunk: ChunkView, store: StoreView, x: int, y: int, z: int, base: int)
    ensures
        0 <= cell_case(chunk, store, x, y, z) < 256,
        0 <= triangle_count(cell_case(chunk, store, x, y, z)) <= 5,
        cell_indices(cell_case(chunk, store, x, y, z), base).len() == 3 * triangle_count(
            cell_case(chunk, store, x, y, z),
        ),
{
}

/// Every index that a cell emits names one of the cell's own twelve
/// vertices.
pub proof fn lemma_cell_indices_in_cell(case: int, base: int, j: int)
    requires
        0 <= base <= 0xffff_0000,
        0 <= j < 3 * triangle_count(case),
    ensures
        base <= cell_indices(case, base)[j] < base + 12,
{
    let t = j / 3;
    assert(0 <= t < triangle_count(case));
    assert(j == 3 * t || j == 3 * t + 1 || j == 3 * t + 2);
    assert(triple_present(TRIANGULATION[case] as int, t));
}

/// The mesh of a chunk of edge `n` has twelve vertices for each of its
/// `n³` cells, its indices come in triples, at most five per cell, and each
/// index names a vertex of the mesh.
pub proof fn lemma_mesh_shape(chunk: ChunkView, store: StoreView)
    requires
        chunk.grid.wf(),
    ensures
        ({
            let n = chunk.grid.size;
            let mesh = extracted_mesh(chunk, store);
            &&& mesh.vertices.len() == 12 * (n * n * n)
            &&& mesh.indices.len() % 3 == 0
            &&& mesh.indices.len() <= 15 * (n * n * n)
            &&& forall|i: int|
                0 <= i < mesh.indices.len() ==> (#[trigger] mesh.indices[i]) < mesh.vertices.len()
        }),
{
    let n = chunk.grid.size;
    lemma_cell_count(n);
    lemma_indices_shape(chunk, store, (n * n * n) as nat);
}

/// The indices of the first `k` cells come in triples, at most five per
/// cell.
proof fn lemma_indices_len(chunk: ChunkView, store: StoreView, k: nat)
    ensures
        mesh_indices(chunk, store, k).len() % 3 == 0,
        mesh_indices(chunk, store, k).len() <= 15 * k,
    decreases k,
{
    if k > 0 {
        lemma_indices_len(chunk, store, (k - 1) as nat);
        let (x, y, z) = cell_coords(chunk.grid.size, k - 1);
        let count = triangle_count(cell_case(chunk, store, x, y, z));
        let before = mesh_indices(chunk, store, (k - 1) as nat);
        assert(0 <= count <= 5);
        assert(mesh_indices(chunk, store, k).len() == before.len() + 3 * count);
    }
}

/// Each index of the first `k` cells names a vertex of those cells.
proof fn lemma_indices_shape(chunk: ChunkView, store: StoreView, k: nat)
    requires
        k <= 0x800_0000,
    ensures
        mesh_indices(chunk, store, k).len() % 3 == 0,
        mesh_indices(chunk, store, k).len() <= 15 * k,
        forall|i: int|
            0 <= i < mesh_indices(chunk, store, k).len() ==> (#[trigger] mesh_indices(
                chunk,
                store,
                k,
            )[i]) < 12 * k,
    decreases k,
{
    lemma_indices_len(chunk, store, k);
    if k > 0 {
        lemma_indices_shape(chunk, store, (k - 1) as nat);
        let (x, y, z) = cell_coords(chunk.grid.size, k - 1);
        let case = cell_case(chunk, store, x, y, z);
        let before = mesh_indices(chunk, store, (k - 1) as nat);
        let cell = cell_indices(case, 12 * (k - 1));
        let all = mesh_indices(chunk, store, k);
        assert(all == before + cell);
        assert forall|i: int| 0 <= i < all.len() implies (#[trigger] all[i]) < 12 * k by {
            if i < before.len() {
                assert(all[i] == before[i]);
            } else {
                assert(all[i] == cell[i - before.len()]);
                lemma_cell_indices_in_cell(case, 12 * (k - 1), i - before.len());
            }
        }
    }
}

/// Whether every voxel of `grid` is solid, or every voxel empty.
pub open spec fn uniform_grid(grid: VoxelGrid, solid: bool) -> bool {
    forall|x: int, y: int, z: int|
        grid.contains(x, y, z) ==> (#[trigger] grid.voxel(x, y, z)).is_active == solid
}

/// The position `(dx, dy, dz)` chunks away from `c`, where it exists.
pub open spec fn neighbor(c: ChunkCoord, dx: int, dy: int, dz: int) -> Option<ChunkCoord> {
    coord_from_ints(c.x + dx, c.y + dy, c.z + dz)
}

/// Whether `(dx, dy, dz)` leads from a chunk to one of the seven chunks
/// that its cells reach into: one step or none along each axis, and not
/// none along all three.
pub open spec fn reaches(dx: int, dy: int, dz: int) -> bool {
    &&& 0 <= dx <= 1
    &&& 0 <= dy <= 1
    &&& 0 <= dz <= 1
    &&& (dx, dy, dz) != (0int, 0int, 0int)
}

/// Where the far corners of a chunk's cells lie: a corner at local
/// coordinate `n` along an axis belongs to the next chunk along that axis,
/// at local coordinate zero.
proof fn lemma_seam_corner(c: int, l: int, n: int)
    requires
        0 < n,
        0 <= l <= n,
    ensures
        chunk_index(c * n + l, n) == c + (if l == n { 1int } else { 0int }),
        local_index(c * n + l, n) == (if l == n { 0int } else { l }),
{
    if l == n {
        assert(c * n + l == (c + 1) * n + 0) by (nonlinear_arith)
            requires
                l == n,
        ;
        lemma_world_join(c + 1, 0, n);
    } else {
        lemma_world_join(c, l, n);
    }
}

/// Whether corner `i` of a cell of `chunk` is solid depends on the store
/// only through the chunks that the cell reaches into.
proof fn lemma_corner_frame(
    chunk: ChunkView,
    first: StoreView,
    second: StoreView,
    x: int,
    y: int,
    z: int,
    i: int,
)
    requires
        0 < chunk.grid.size,
        first.chunk_size == chunk.grid.size,
        second.chunk_size == chunk.grid.size,
        chunk.grid.contains(x, y, z),
        0 <= i < 8,
        forall|dx: int, dy: int, dz: int|
            reaches(dx, dy, dz) ==> match #[trigger] neighbor(chunk.position, dx, dy, dz) {
                Some(d) => first.lookup(d) == second.lookup(d),
                None => true,
            },
    ensures
        corner_solid(chunk, first, x, y, z, i) == corner_solid(chunk, second, x, y, z, i),
{
    let n = chunk.grid.size;
    let (ox, oy, oz) = corner_offset(i);
    let (cx, cy, cz) = (x + ox, y + oy, z + oz);
    if !chunk.grid.contains(cx, cy, cz) {
        lemma_seam_corner(chunk.position.x as int, cx, n);
        lemma_seam_corner(chunk.position.y as int, cy, n);
        lemma_seam_corner(chunk.position.z as int, cz, n);
        let dx = if cx == n { 1int } else { 0int };
        let dy = if cy == n { 1int } else { 0int };
        let dz = if cz == n { 1int } else { 0int };
        assert(reaches(dx, dy, dz));
        assert(first.owner(
            chunk.position.x * n + cx,
            chunk.position.y * n + cy,
            chunk.position.z * n + cz,
        ) == neighbor(chunk.position, dx, dy, dz));
    }
}

/// Extraction reads the store only at the seven chunks that the cells of
/// the chunk reach into. Two stores that hold the same chunk, or none, at
/// each of those positions give the same mesh: as long as the chunk's
/// voxels and those neighbours stay as they are, extracting again yields
/// the same vertices and the same triangles.
pub proof fn lemma_extraction_frame(chunk: ChunkView, first: StoreView, second: StoreView)
    requires
        chunk.grid.wf(),
        first.chunk_size == chunk.grid.size,
        second.chunk_size == chunk.grid.size,
        forall|dx: int, dy: int, dz: int|
            reaches(dx, dy, dz) ==> match #[trigger] neighbor(chunk.position, dx, dy, dz) {
                Some(d) => first.lookup(d) == second.lookup(d),
                None => true,
            },
    ensures
        extracted_mesh(chunk, first) == extracted_mesh(chunk, second),
{
    let n = chunk.grid.size;
    lemma_cell_count(n);
    lemma_indices_frame(chunk, first, second, (n * n * n) as nat);
}

proof fn lemma_indices_frame(chunk: ChunkView, first: StoreView, second: StoreView, k: nat)
    requires
        chunk.grid.wf(),
        first.chunk_size == chunk.grid.size,
        second.chunk_size == chunk.grid.size,
        k <= chunk.grid.size * chunk.grid.size * chunk.grid.size,
        forall|dx: int, dy: int, dz: int|
            reaches(dx, dy, dz) ==> match #[trigger] neighbor(chunk.position, dx, dy, dz) {
                Some(d) => first.lookup(d) == second.lookup(d),
                None => true,
            },
    ensures
        mesh_indices(chunk, first, k) == mesh_indices(chunk, second, k),
    decreases k,
{
    if k > 0 {
        lemma_indices_frame(chunk, first, second, (k - 1) as nat);
        let n = chunk.grid.size;
        lemma_cell_in_grid(n, k - 1);
        let (x, y, z) = cell_coords(n, k - 1);
        lemma_corner_frame(chunk, first, second, x, y, z, 0);
        lemma_corner_frame(chunk, first, second, x, y, z, 1);
        lemma_corner_frame(chunk, first, second, x, y, z, 2);
        lemma_corner_frame(chunk, first, second, x, y, z, 3);
        lemma_corner_frame(chunk, first, second, x, y, z, 4);
        lemma_corner_frame(chunk, first, second, x, y, z, 5);
        lemma_corner_frame(chunk, first, second, x, y, z, 6);
        lemma_corner_frame(chunk, first, second, x, y, z, 7);
    }
}

/// Cell number `k` of a chunk lies at a local coordinate of the chunk.
proof fn lemma_cell_in_grid(n: int, k: int)
    requires
        0 < n,
        0 <= k < n * n * n,
    ensures
        grid_contains(n, cell_coords(n, k).0, cell_coords(n, k).1, cell_coords(n, k).2),
        0 <= k / (n * n) < n,
        0 <= (k / n) % n < n,
        0 <= k % n < n,
{
    lemma_grid_coords(n, k);
}

/// A chunk none of whose cells has both a solid and an empty corner has no
/// surface: its mesh holds no triangle.
pub proof fn lemma_uniform_corners_give_no_triangle(
    chunk: ChunkView,
    store: StoreView,
    solid: bool,
)
    requires
        chunk.grid.wf(),
        forall|x: int, y: int, z: int, i: int|
            chunk.grid.contains(x, y, z) && 0 <= i < 8 ==> #[trigger] corner_solid(
                chunk,
                store,
                x,
                y,
                z,
                i,
            ) == solid,
    ensures
        extracted_mesh(chunk, store).indices.len() == 0,
{
    let n = chunk.grid.size;
    lemma_cell_count(n);
    lemma_uniform_indices(chunk, store, solid, (n * n * n) as nat);
}

proof fn lemma_uniform_indices(chunk: ChunkView, store: StoreView, solid: bool, k: nat)
    requires
        chunk.grid.wf(),
        k <= chunk.grid.size * chunk.grid.size * chunk.grid.size,
        forall|x: int, y: int, z: int, i: int|
            chunk.grid.contains(x, y, z) && 0 <= i < 8 ==> #[trigger] corner_solid(
                chunk,
                store,
                x,
                y,
                z,
                i,
            ) == solid,
    ensures
        mesh_indices(chunk, store, k).len() == 0,
    decreases k,
{
    if k > 0 {
        lemma_uniform_indices(chunk, store, solid, (k - 1) as nat);
        let n = chunk.grid.size;
        lemma_cell_in_grid(n, k - 1);
        let (x, y, z) = cell_coords(n, k - 1);
        assert(corner_solid(chunk, store, x, y, z, 0) == solid);
        assert(corner_solid(chunk, store, x, y, z, 1) == solid);
        assert(corner_solid(chunk, store, x, y, z, 2) == solid);
        assert(corner_solid(chunk, store, x, y, z, 3) == solid);
        assert(corner_solid(chunk, store, x, y, z, 4) == solid);
        assert(corner_solid(chunk, store, x, y, z, 5) == solid);
        assert(corner_solid(chunk, store, x, y, z, 6) == solid);
        assert(corner_solid(chunk, store, x, y, z, 7) == solid);
        lemma_uniform_cases_are_empty();
        assert(cell_case(chunk, store, x, y, z) == (if solid { 255int } else { 0int }));
    }
}

/// A chunk that is solid throughout, among neighbours that are solid
/// throughout, has no surface: its mesh holds no triangle.
pub proof fn lemma_enclosed_chunk_has_no_triangle(chunk: ChunkView, store: StoreView)
    requires
        chunk.grid.wf(),
        store.wf(),
        store.chunk_size == chunk.grid.size,
        uniform_grid(chunk.grid, true),
        forall|dx: int, dy: int, dz: int|
            reaches(dx, dy, dz) ==> match #[trigger] neighbor(chunk.position, dx, dy, dz) {
                Some(d) => store.contains(d) && uniform_grid(store.get(d).grid, true),
                None => false,
            },
    ensures
        extracted_mesh(chunk, store).indices.len() == 0,
{
    let n = chunk.grid.size;
    assert forall|x: int, y: int, z: int, i: int|
        chunk.grid.contains(x, y, z) && 0 <= i < 8 implies #[trigger] corner_solid(
        chunk,
        store,
        x,
        y,
        z,
        i,
    ) == true by {
        let (ox, oy, oz) = corner_offset(i);
        let (cx, cy, cz) = (x + ox, y + oy, z + oz);
        if chunk.grid.contains(cx, cy, cz) {
            assert(chunk.grid.voxel(cx, cy, cz).is_active);
        } else {
            lemma_seam_corner(chunk.position.x as int, cx, n);
            lemma_seam_corner(chunk.position.y as int, cy, n);
            lemma_seam_corner(chunk.position.z as int, cz, n);
            let dx = if cx == n { 1int } else { 0int };
            let dy = if cy == n { 1int } else { 0int };
            let dz = if cz == n { 1int } else { 0int };
            assert(reaches(dx, dy, dz));
            let d = neighbor(chunk.position, dx, dy, dz)->0;
            store.lemma_contains(d);
            let k = store.index_of(d);
            assert(store.chunks[k].grid.size == n);
            let lx = if cx == n { 0int } else { cx };
            let ly = if cy == n { 0int } else { cy };
            let lz = if cz == n { 0int } else { cz };
            assert(store.get(d).grid.contains(lx, ly, lz));
            assert(store.get(d).grid.voxel(lx, ly, lz).is_active);
        }
    }
    lemma_uniform_corners_give_no_triangle(chunk, store, true);
}

/// A chunk that is empty throughout has no surface where each of the
/// chunks that its cells reach into is missing or empty throughout: its
/// mesh holds no triangle.
pub proof fn lemma_empty_chunk_has_no_triangle(chunk: ChunkView, store: StoreView)
    requires
        chunk.grid.wf(),
        store.wf(),
        store.chunk_size == chunk.grid.size,
        uniform_grid(chunk.grid, false),
        forall|dx: int, dy: int, dz: int|
            reaches(dx, dy, dz) ==> match #[trigger] neighbor(chunk.position, dx, dy, dz) {
                Some(d) => store.contains(d) ==> uniform_grid(store.get(d).grid, false),
                None => true,
            },
    ensures
        extracted_mesh(chunk, store).indices.len() == 0,
{
    let n = chunk.grid.size;
    assert forall|x: int, y: int, z: int, i: int|
        chunk.grid.contains(x, y, z) && 0 <= i < 8 implies #[trigger] corner_solid(
        chunk,
        store,
        x,
        y,
        z,
        i,
    ) == false by {
        let (ox, oy, oz) = corner_offset(i);
        let (cx, cy, cz) = (x + ox, y + oy, z + oz);
        if chunk.grid.contains(cx, cy, cz) {
            assert(!chunk.grid.voxel(cx, cy, cz).is_active);
        } else {
            lemma_seam_corner(chunk.position.x as int, cx, n);
            lemma_seam_corner(chunk.position.y as int, cy, n);
            lemma_seam_corner(chunk.position.z as int, cz, n);
            let dx = if cx == n { 1int } else { 0int };
            let dy = if cy == n { 1int } else { 0int };
            let dz = if cz == n { 1int } else { 0int };
            assert(reaches(dx, dy, dz));
            match neighbor(chunk.position, dx, dy, dz) {
                Some(d) => {
                    if store.contains(d) {
                        store.lemma_contains(d);
                        let k = store.index_of(d);
                        assert(store.chunks[k].grid.size == n);
                        let lx = if cx == n { 0int } else { cx };
                        let ly = if cy == n { 0int } else { cy };
                        let lz = if cz == n { 0int } else { cz };
                        assert(store.get(d).grid.contains(lx, ly, lz));
                        assert(!store.get(d).grid.voxel(lx, ly, lz).is_active);
                    }
                },
                None => {},
            }
        }
    }
    lemma_uniform_corners_give_no_triangle(chunk, store, false);
}

} // verus!
