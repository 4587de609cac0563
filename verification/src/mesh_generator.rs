//! Terrain mesh layout: which samples of an elevation field become vertices at
//! a given level of detail, and which triangles connect them.

use crate::error::MeshError;
use crate::field::{field_offset, offset_in_field, FIELD_LEN};
use vstd::arithmetic::div_mod::lemma_fundamental_div_mod_converse;
use vstd::prelude::*;

verus! {

/// How densely a tile is meshed. Coarser levels skip more samples.
#[derive(Clone, Copy, Debug, PartialEq, Eq, Structural)]
pub enum LodLevel {
    /// Lowest detail, for distant tiles.
    Far,
    /// Medium detail.
    Mid,
    /// Highest detail, for tiles close to the viewer.
    Near,
}

impl LodLevel {
    /// The level selected by a numeric code: 0 is far, 1 is mid, 2 is near.
    pub open spec fn of_level(level: u8) -> Option<LodLevel> {
        if level == 0 {
            Some(LodLevel::Far)
        } else if level == 1 {
            Some(LodLevel::Mid)
        } else if level == 2 {
            Some(LodLevel::Near)
        } else {
            None
        }
    }

    /// Distance, in samples, between neighbouring vertices.
    pub open spec fn spec_stride(self) -> int {
        match self {
            LodLevel::Far => 8,
            LodLevel::Mid => 4,
            LodLevel::Near => 2,
        }
    }

    /// Number of vertices along one side of the mesh. One more than the number
    /// of strides that fit, so that the far edge of the field is sampled too.
    pub open spec fn spec_grid_size(self) -> int {
        256int / self.spec_stride() + 1
    }

    /// Decodes a numeric level code.
    pub fn from_level(level: u8) -> (lod: Option<LodLevel>)
        ensures
            lod == Self::of_level(level),
    {
        match level {
            0 => Some(LodLevel::Far),
            1 => Some(LodLevel::Mid),
            2 => Some(LodLevel::Near),
            _ => None,
        }
    }

    /// Distance, in samples, between neighbouring vertices.
    pub fn stride(self) -> (stride: usize)
        ensures
            stride == self.spec_stride(),
    {
        match self {
            LodLevel::Far => 8,
            LodLevel::Mid => 4,
            LodLevel::Near => 2,
        }
    }

    /// Number of vertices along one side of the mesh.
    pub fn grid_size(self) -> (side: usize)
        ensures
            side == self.spec_grid_size(),
    {
        256 / self.stride() + 1
    }
}

/// One mesh vertex: the field cell it samples and the height found there.
///
/// `column` and `row` are field coordinates, so a caller that knows the span of
/// the tile can place the vertex in the plane; `elevation` is the sample, taken
/// over unchanged.
#[derive(Clone, Copy, Debug, PartialEq)]
pub struct Vertex<T> {
    /// Column of the sampled cell; grows along x.
    pub column: usize,
    /// Row of the sampled cell; grows along z.
    pub row: usize,
    /// The sample; grows along y, upwards.
    pub elevation: T,
}

/// Field coordinate sampled at grid coordinate `coord`: `coord` strides along,
/// but no further than the last sample. The last grid line would fall one past
/// the field, so it reuses the last sample instead.
pub open spec fn sample_coord(lod: LodLevel, coord: int) -> int {
    if coord * lod.spec_stride() < 255 {
        coord * lod.spec_stride()
    } else {
        255
    }
}

/// The vertex at grid position (`y`, `x`) of the mesh over `field`.
pub open spec fn grid_vertex<T>(field: Seq<T>, lod: LodLevel, y: int, x: int) -> Vertex<T> {
    Vertex {
        column: sample_coord(lod, x) as usize,
        row: sample_coord(lod, y) as usize,
        elevation: field[field_offset(sample_coord(lod, y), sample_coord(lod, x))],
    }
}

/// Vertex numbers of the two triangles that cover the grid cell between grid
/// lines `y` and `y + 1`, `x` and `x + 1`, three per triangle. Seen from above,
/// both triangles run counter-clockwise.
pub open spec fn cell_indices(side: int, y: int, x: int) -> Seq<int> {
    let idx0 = y * side + x;
    let idx1 = idx0 + 1;
    let idx2 = idx0 + side;
    let idx3 = idx2 + 1;
    seq![idx0, idx2, idx1, idx1, idx2, idx3]
}

/// A triangle mesh over a square grid of vertices, numbered row by row.
#[derive(Debug)]
pub struct MeshData<T> {
    vertices: Vec<Vertex<T>>,
    indices: Vec<u32>,
}

/// What a mesh holds: its vertices, row by row, and its triangle list, three
/// vertex numbers per triangle.
pub struct MeshView<T> {
    pub vertices: Seq<Vertex<T>>,
    pub indices: Seq<u32>,
}

impl<T> View for MeshData<T> {
    type V = MeshView<T>;

    closed spec fn view(&self) -> MeshView<T> {
        MeshView { vertices: self.vertices@, indices: self.indices@ }
    }
}

impl<T> MeshView<T> {
    /// Triangles are whole and only name vertices that exist.
    pub open spec fn well_formed(self) -> bool {
        &&& self.indices.len() % 3 == 0
        &&& forall|i: int| 0 <= i < self.indices.len() ==> #[trigger] self.indices[i]
            < self.vertices.len()
    }

    /// The mesh is the regular grid over `field` at level `lod`: one vertex per
    /// grid position, in row-major order, and two triangles per grid cell, cell
    /// by cell in row-major order.
    pub open spec fn is_grid_over(self, field: Seq<T>, lod: LodLevel) -> bool {
        let side = lod.spec_grid_size();
        &&& self.vertices.len() == side * side
        &&& forall|y: int, x: int|
            0 <= y < side && 0 <= x < side ==> self.vertices[y * side + x] == #[trigger] grid_vertex(
                field,
                lod,
                y,
                x,
            )
        &&& self.indices.len() == 6 * ((side - 1) * (side - 1))
        &&& forall|y: int, x: int, k: int|
            0 <= y < side - 1 && 0 <= x < side - 1 && 0 <= k < 6 ==> self.indices[6 * (y * (side
                - 1) + x) + k] == #[trigger] cell_indices(side, y, x)[k]
    }
}

impl<T> MeshData<T> {
    #[verifier::type_invariant]
    closed spec fn inv(self) -> bool {
        &&& self@.well_formed()
        &&& 3 * self.vertices@.len() <= usize::MAX
    }

    /// The vertices, row by row.
    pub fn vertices(&self) -> (vertices: &[Vertex<T>])
        ensures
            vertices@ == self@.vertices,
    {
        self.vertices.as_slice()
    }

    /// The triangle list. Every entry is the number of a vertex.
    pub fn indices(&self) -> (indices: &[u32])
        ensures
            indices@ == self@.indices,
            self@.well_formed(),
    {
        proof {
            use_type_invariant(self);
        }
        self.indices.as_slice()
    }
}

impl<T: Copy> MeshData<T> {
    /// Number of vertices.
    pub fn vertex_count(&self) -> (count: usize)
        ensures
            count == self@.vertices.len(),
    {
        self.vertices.len()
    }

    /// Number of coordinates it takes to write every vertex position down,
    /// three per vertex.
    pub fn vertices_len(&self) -> (len: usize)
        ensures
            len == 3 * self@.vertices.len(),
    {
        proof {
            use_type_invariant(self);
        }
        3 * self.vertices.len()
    }

    /// Number of entries in the triangle list, three per triangle.
    pub fn indices_len(&self) -> (len: usize)
        ensures
            len == self@.indices.len(),
            len % 3 == 0,
    {
        proof {
            use_type_invariant(self);
        }
        self.indices.len()
    }

    /// Number of coordinates it takes to write one normal per vertex down: as
    /// many as for the positions.
    pub fn normals_len(&self) -> (len: usize)
        ensures
            len == 3 * self@.vertices.len(),
    {
        self.vertices_len()
    }

    /// A copy of the vertices, row by row.
    pub fn get_vertices(&self) -> (vertices: Vec<Vertex<T>>)
        ensures
            vertices@ == self@.vertices,
    {
        let mut vertices: Vec<Vertex<T>> = Vec::new();
        let mut i: usize = 0;
        while i < self.vertices.len()
            invariant
                i <= self.vertices@.len(),
                vertices@ == self.vertices@.take(i as int),
            decreases self.vertices@.len() - i,
        {
            let v: &Vertex<T> = &self.vertices[i];
            vertices.push(Vertex { column: v.column, row: v.row, elevation: v.elevation });
            assert(self.vertices@.take(i + 1) == self.vertices@.take(i as int).push(
                self.vertices@[i as int],
            ));
            i += 1;
        }
        assert(self.vertices@.take(i as int) == self.vertices@);
        vertices
    }

    /// A copy of the triangle list. Every entry is the number of a vertex.
    pub fn get_indices(&self) -> (indices: Vec<u32>)
        ensures
            indices@ == self@.indices,
            indices@.len() % 3 == 0,
            forall|i: int| 0 <= i < indices@.len() ==> #[trigger] indices@[i] < self@.vertices.len(),
    {
        proof {
            use_type_invariant(self);
        }
        let mut indices: Vec<u32> = Vec::new();
        let mut i: usize = 0;
        while i < self.indices.len()
            invariant
                i <= self.indices@.len(),
                indices@ == self.indices@.take(i as int),
            decreases self.indices@.len() - i,
        {
            indices.push(self.indices[i]);
            assert(self.indices@.take(i + 1) == self.indices@.take(i as int).push(
                self.indices@[i as int],
            ));
            i += 1;
        }
        assert(self.indices@.take(i as int) == self.indices@);
        indices
    }
}

/// Row `slot / side` and column `slot % side` of a row-major slot among `rows`
/// rows of `side` slots.
proof fn lemma_slot_position(side: int, rows: int, slot: int)
    requires
        0 < side,
        0 <= slot < rows * side,
    ensures
        slot == (slot / side) * side + slot % side,
        0 <= slot / side < rows,
        0 <= slot % side < side,
{
    let y = slot / side;
    let x = slot % side;
    vstd::arithmetic::div_mod::lemma_fundamental_div_mod(slot, side);
    vstd::arithmetic::div_mod::lemma_mod_bound(slot, side);
    assert(side * y == y * side) by (nonlinear_arith);
    assert(0 <= y < rows) by (nonlinear_arith)
        requires
            slot == y * side + x,
            0 <= x < side,
            0 <= slot < rows * side,
            0 < side,
    ;
}

/// Grid position `(slot / side, slot % side)` of a row-major slot.
proof fn lemma_slot(side: int, y: int, x: int)
    requires
        0 < side,
        0 <= y,
        0 <= x < side,
    ensures
        (y * side + x) / side == y,
        (y * side + x) % side == x,
{
    lemma_fundamental_div_mod_converse(y * side + x, side, y, x);
}

/// Builds terrain meshes from elevation fields.
#[derive(Clone, Copy, Debug)]
pub struct MeshGenerator {}

impl MeshGenerator {
    /// A mesh generator.
    pub fn new() -> (generator: MeshGenerator) {
        MeshGenerator {  }
    }

    /// Gathers the vertices of the grid over `elevations`, row by row.
    fn sample_vertices<T: Copy>(elevations: &[T], lod: LodLevel) -> (vertices: Vec<Vertex<T>>)
        requires
            elevations@.len() == FIELD_LEN,
        ensures
            vertices@.len() == lod.spec_grid_size() * lod.spec_grid_size(),
            forall|y: int, x: int|
                0 <= y < lod.spec_grid_size() && 0 <= x < lod.spec_grid_size() ==> vertices@[y
                    * lod.spec_grid_size() + x] == #[trigger] grid_vertex(elevations@, lod, y, x),
    {
        let stride: usize = lod.stride();
        let side: usize = lod.grid_size();
        let mut vertices: Vec<Vertex<T>> = Vec::new();
        let mut y: usize = 0;
        while y < side
            invariant
                stride == lod.spec_stride(),
                side == lod.spec_grid_size(),
                elevations@.len() == FIELD_LEN,
                y <= side,
                vertices@.len() == y * side,
                forall|k: int|
                    0 <= k < vertices@.len() ==> #[trigger] vertices@[k] == grid_vertex(
                        elevations@,
                        lod,
                        k / (side as int),
                        k % (side as int),
                    ),
            decreases side - y,
        {
            let row: usize = if y * stride < 255 {
                y * stride
            } else {
                255
            };
            let mut x: usize = 0;
            while x < side
                invariant
                    stride == lod.spec_stride(),
                    side == lod.spec_grid_size(),
                    elevations@.len() == FIELD_LEN,
                    y < side,
                    x <= side,
                    row == sample_coord(lod, y as int),
                    vertices@.len() == y * side + x,
                    forall|k: int|
                        0 <= k < vertices@.len() ==> #[trigger] vertices@[k] == grid_vertex(
                            elevations@,
                            lod,
                            k / (side as int),
                            k % (side as int),
                        ),
                decreases side - x,
            {
                let column: usize = if x * stride < 255 {
                    x * stride
                } else {
                    255
                };
                proof {
                    lemma_slot(side as int, y as int, x as int);
                }
                let at: usize = offset_in_field(row, column);
                vertices.push(Vertex { column, row, elevation: elevations[at] });
                x += 1;
            }
            y += 1;
            assert(vertices@.len() == y * side) by (nonlinear_arith)
                requires
                    vertices@.len() == (y - 1) * side + side,
            ;
        }
        proof {
            assert forall|r: int, c: int| 0 <= r < side && 0 <= c < side implies vertices@[r
                * side + c] == #[trigger] grid_vertex(elevations@, lod, r, c) by {
                lemma_slot(side as int, r, c);
                assert(r * side + c < side * side) by (nonlinear_arith)
                    requires
                        0 <= r < side,
                        0 <= c < side,
                ;
            }
        }
        vertices
    }

    /// Lists the triangles of a grid with `lod`'s number of vertices per side.
    fn triangulate(lod: LodLevel) -> (indices: Vec<u32>)
        ensures
            indices@.len() == 6 * ((lod.spec_grid_size() - 1) * (lod.spec_grid_size() - 1)),
            forall|y: int, x: int, k: int|
                0 <= y < lod.spec_grid_size() - 1 && 0 <= x < lod.spec_grid_size() - 1 && 0 <= k
                    < 6 ==> indices@[6 * (y * (lod.spec_grid_size() - 1) + x) + k]
                    == #[trigger] cell_indices(lod.spec_grid_size(), y, x)[k],
    {
        let side: usize = lod.grid_size();
        let cells: usize = side - 1;
        let mut indices: Vec<u32> = Vec::new();
        let mut y: usize = 0;
        while y < cells
            invariant
                side == lod.spec_grid_size(),
                cells == side - 1,
                y <= cells,
                indices@.len() == 6 * (y * cells),
                forall|c: int, k: int|
                    0 <= c < y * cells && 0 <= k < 6 ==> indices@[6 * c + k] == #[trigger] cell_indices(
                        side as int,
                        c / (cells as int),
                        c % (cells as int),
                    )[k],
            decreases cells - y,
        {
            let mut x: usize = 0;
            while x < cells
                invariant
                    side == lod.spec_grid_size(),
                    cells == side - 1,
                    y < cells,
                    x <= cells,
                    indices@.len() == 6 * (y * cells + x),
                    forall|c: int, k: int|
                        0 <= c < y * cells + x && 0 <= k < 6 ==> indices@[6 * c + k]
                            == #[trigger] cell_indices(
                            side as int,
                            c / (cells as int),
                            c % (cells as int),
                        )[k],
                decreases cells - x,
            {
                proof {
                    lemma_slot(cells as int, y as int, x as int);
                    assert(y * side + x + side + 1 < side * side) by (nonlinear_arith)
                        requires
                            0 <= y < side - 1,
                            0 <= x < side - 1,
                    ;
                    assert(side * side <= 129 * 129) by (nonlinear_arith)
                        requires
                            0 <= side <= 129,
                    ;
                }
                let idx0: usize = y * side + x;
                let idx1: usize = idx0 + 1;
                let idx2: usize = idx0 + side;
                let idx3: usize = idx2 + 1;
                let ghost before = indices@;
                indices.push(idx0 as u32);
                indices.push(idx2 as u32);
                indices.push(idx1 as u32);
                indices.push(idx1 as u32);
                indices.push(idx2 as u32);
                indices.push(idx3 as u32);
                proof {
                    let cell = y * cells + x;
                    assert forall|c: int, k: int| 0 <= c < cell + 1 && 0 <= k < 6 implies indices@[6
                        * c + k] == #[trigger] cell_indices(
                        side as int,
                        c / (cells as int),
                        c % (cells as int),
                    )[k] by {
                        if c < cell {
                            assert(indices@[6 * c + k] == before[6 * c + k]);
                        }
                    }
                }
                x += 1;
            }
            y += 1;
            assert(y * cells == (y - 1) * cells + cells) by (nonlinear_arith);
        }
        proof {
            assert forall|r: int, c: int, k: int|
                0 <= r < cells && 0 <= c < cells && 0 <= k < 6 implies indices@[6 * (r * cells
                + c) + k] == #[trigger] cell_indices(side as int, r, c)[k] by {
                lemma_slot(cells as int, r, c);
                assert(r * cells + c < cells * cells) by (nonlinear_arith)
                    requires
                        0 <= r < cells,
                        0 <= c < cells,
                ;
            }
        }
        indices
    }

    /// Lays out the terrain mesh over a whole elevation field.
    ///
    /// `lod_level` is 0 for far, 1 for mid and 2 for near. The length of the
    /// field is tested first and the level second; nothing is built unless both
    /// are right.
    pub fn generate<T: Copy>(&self, elevations: &[T], lod_level: u8) -> (result: Result<
        MeshData<T>,
        MeshError,
    >)
        ensures
            match result {
                Ok(mesh) => {
                    &&& elevations@.len() == FIELD_LEN
                    &&& LodLevel::of_level(lod_level) matches Some(lod)
                    &&& mesh@.is_grid_over(elevations@, lod)
                    &&& mesh@.well_formed()
                },
                Err(MeshError::FieldLength(found)) => {
                    &&& elevations@.len() != FIELD_LEN
                    &&& found == elevations@.len()
                },
                Err(MeshError::LodLevel(level)) => {
                    &&& elevations@.len() == FIELD_LEN
                    &&& LodLevel::of_level(lod_level) is None
                    &&& level == lod_level
                },
            },
    {
        if elevations.len() != FIELD_LEN {
            return Err(MeshError::FieldLength(elevations.len()));
        }
        let lod: LodLevel = match LodLevel::from_level(lod_level) {
            Some(lod) => lod,
            None => {
                return Err(MeshError::LodLevel(lod_level));
            },
        };
        let vertices: Vec<Vertex<T>> = Self::sample_vertices(elevations, lod);
        let indices: Vec<u32> = Self::triangulate(lod);
        proof {
            lemma_grid_indices_in_range(indices@, lod);
            assert(vertices@.len() <= 129 * 129) by (nonlinear_arith)
                requires
                    vertices@.len() == lod.spec_grid_size() * lod.spec_grid_size(),
                    0 <= lod.spec_grid_size() <= 129,
            ;
        }
        Ok(MeshData { vertices, indices })
    }
}

/// Every entry of a grid's triangle list names one of the grid's vertices.
proof fn lemma_grid_indices_in_range(indices: Seq<u32>, lod: LodLevel)
    requires
        indices.len() == 6 * ((lod.spec_grid_size() - 1) * (lod.spec_grid_size() - 1)),
        forall|y: int, x: int, k: int|
            0 <= y < lod.spec_grid_size() - 1 && 0 <= x < lod.spec_grid_size() - 1 && 0 <= k < 6
                ==> indices[6 * (y * (lod.spec_grid_size() - 1) + x) + k]
                == #[trigger] cell_indices(lod.spec_grid_size(), y, x)[k],
    ensures
        indices.len() % 3 == 0,
        forall|i: int|
            0 <= i < indices.len() ==> #[trigger] indices[i] < lod.spec_grid_size()
                * lod.spec_grid_size(),
{
    let side = lod.spec_grid_size();
    let cells = side - 1;
    assert forall|i: int| 0 <= i < indices.len() implies #[trigger] indices[i] < side * side by {
        let c = i / 6;
        let k = i % 6;
        let y = c / cells;
        let x = c % cells;
        lemma_slot_position(cells, cells, c);
        assert(indices[6 * (y * cells + x) + k] == cell_indices(side, y, x)[k]);
        assert(y * side + x + side + 1 < side * side) by (nonlinear_arith)
            requires
                0 <= y < side - 1,
                0 <= x < side - 1,
        ;
    }
}

/// Vertical component of the cross product of the edges `a`→`b` and `a`→`c`,
/// with columns running along x and rows along z. It does not depend on the
/// heights. It is positive exactly when the triangle (`a`, `b`, `c`) runs
/// counter-clockwise seen from above, so that its normal points up.
pub open spec fn upward_component<T>(a: Vertex<T>, b: Vertex<T>, c: Vertex<T>) -> int {
    (b.row - a.row) * (c.column - a.column) - (b.column - a.column) * (c.row - a.row)
}

/// Grid lines sample inside the field, strictly further along the field the
/// further along the grid they are; the first grid line samples the first
/// field line and the last grid line the last one, so the mesh spans the whole
/// field; every line before the last sits at a whole number of strides.
pub proof fn lemma_sample_coord(lod: LodLevel, coord: int)
    requires
        0 <= coord < lod.spec_grid_size(),
    ensures
        0 <= sample_coord(lod, coord) <= 255,
        sample_coord(lod, 0) == 0,
        sample_coord(lod, lod.spec_grid_size() - 1) == 255,
        coord < lod.spec_grid_size() - 1 ==> sample_coord(lod, coord) == coord * lod.spec_stride()
            && sample_coord(lod, coord) < sample_coord(lod, coord + 1),
{
    match lod {
        LodLevel::Far => {},
        LodLevel::Mid => {},
        LodLevel::Near => {},
    }
}

/// The strides of every level fill the side of the field exactly.
pub proof fn lemma_stride_divides_field(lod: LodLevel)
    ensures
        lod.spec_stride() * (lod.spec_grid_size() - 1) == 256,
{
    match lod {
        LodLevel::Far => {},
        LodLevel::Mid => {},
        LodLevel::Near => {},
    }
}

/// Sizes of the mesh at each level: 33, 65 and 129 vertices per side for far,
/// mid and near; the square of that many vertices; two triangles per cell.
pub proof fn lemma_mesh_size<T>(mesh: MeshView<T>, field: Seq<T>, lod: LodLevel)
    requires
        mesh.is_grid_over(field, lod),
    ensures
        lod == LodLevel::Far ==> lod.spec_grid_size() == 33 && mesh.vertices.len() == 1089
            && mesh.indices.len() == 6144,
        lod == LodLevel::Mid ==> lod.spec_grid_size() == 65 && mesh.vertices.len() == 4225
            && mesh.indices.len() == 24576,
        lod == LodLevel::Near ==> lod.spec_grid_size() == 129 && mesh.vertices.len() == 16641
            && mesh.indices.len() == 98304,
{
    let side = lod.spec_grid_size();
    assert(side == 33 ==> side * side == 1089 && (side - 1) * (side - 1) == 1024) by (nonlinear_arith);
    assert(side == 65 ==> side * side == 4225 && (side - 1) * (side - 1) == 4096) by (nonlinear_arith);
    assert(side == 129 ==> side * side == 16641 && (side - 1) * (side - 1) == 16384) by (nonlinear_arith);
}

/// A grid mesh is well formed: its triangle list holds whole triangles and
/// every entry names a vertex of the mesh.
pub proof fn lemma_grid_is_well_formed<T>(mesh: MeshView<T>, field: Seq<T>, lod: LodLevel)
    requires
        mesh.is_grid_over(field, lod),
    ensures
        mesh.well_formed(),
{
    lemma_grid_indices_in_range(mesh.indices, lod);
}

/// Every triangle of a grid mesh faces up, whatever the heights are: seen from
/// above its corners run counter-clockwise.
pub proof fn lemma_triangles_face_up<T>(mesh: MeshView<T>, field: Seq<T>, lod: LodLevel, t: int)
    requires
        mesh.is_grid_over(field, lod),
        0 <= t,
        3 * t + 2 < mesh.indices.len(),
    ensures
        upward_component(
            mesh.vertices[mesh.indices[3 * t] as int],
            mesh.vertices[mesh.indices[3 * t + 1] as int],
            mesh.vertices[mesh.indices[3 * t + 2] as int],
        ) > 0,
{
    let side = lod.spec_grid_size();
    let cells = side - 1;
    let cell = t / 2;
    let y = cell / cells;
    let x = cell % cells;
    lemma_slot_position(cells, cells, cell);
    let corners = cell_indices(side, y, x);
    assert forall|k: int| 0 <= k < 6 implies mesh.indices[6 * cell + k] == corners[k] by {
        assert(mesh.indices[6 * (y * cells + x) + k] == cell_indices(side, y, x)[k]);
    }
    assert((y + 1) * side + x == y * side + x + side) by (nonlinear_arith);
    assert(y * side + x + side + 1 < side * side) by (nonlinear_arith)
        requires
            0 <= y < side - 1,
            0 <= x < side - 1,
    ;
    let v0 = grid_vertex(field, lod, y, x);
    let v1 = grid_vertex(field, lod, y, x + 1);
    let v2 = grid_vertex(field, lod, y + 1, x);
    let v3 = grid_vertex(field, lod, y + 1, x + 1);
    assert(mesh.vertices[y * side + x] == v0);
    assert(mesh.vertices[y * side + (x + 1)] == v1);
    assert(mesh.vertices[(y + 1) * side + x] == v2);
    assert(mesh.vertices[(y + 1) * side + (x + 1)] == v3);
    lemma_sample_coord(lod, x);
    lemma_sample_coord(lod, x + 1);
    lemma_sample_coord(lod, y);
    lemma_sample_coord(lod, y + 1);
    let dx = sample_coord(lod, x + 1) - sample_coord(lod, x);
    let dz = sample_coord(lod, y + 1) - sample_coord(lod, y);
    assert(dz * dx > 0) by (nonlinear_arith)
        requires
            dx > 0,
            dz > 0,
    ;
    if t % 2 == 0 {
        assert(3 * t == 6 * cell);
        assert(upward_component(v0, v2, v1) == dz * dx - 0 * 0) by (nonlinear_arith)
            requires
                v2.row - v0.row == dz,
                v1.column - v0.column == dx,
                v2.column - v0.column == 0,
                v1.row - v0.row == 0,
                upward_component(v0, v2, v1) == (v2.row - v0.row) * (v1.column - v0.column) - (
                v2.column - v0.column) * (v1.row - v0.row),
        ;
    } else {
        assert(3 * t == 6 * cell + 3);
        assert(upward_component(v1, v2, v3) == dz * dx) by (nonlinear_arith)
            requires
                v2.row - v1.row == dz,
                v3.column - v1.column == 0,
                v2.column - v1.column == -dx,
                v3.row - v1.row == dz,
                upward_component(v1, v2, v3) == (v2.row - v1.row) * (v3.column - v1.column) - (
                v2.column - v1.column) * (v3.row - v1.row),
        ;
    }
}

/// Every vertex of a grid mesh sits on a cell of the field and carries that
/// cell's sample.
pub proof fn lemma_vertex_samples_field<T>(mesh: MeshView<T>, field: Seq<T>, lod: LodLevel, v: int)
    requires
        mesh.is_grid_over(field, lod),
        0 <= v < mesh.vertices.len(),
    ensures
        mesh.vertices[v].row < 256,
        mesh.vertices[v].column < 256,
        mesh.vertices[v].elevation == field[field_offset(
            mesh.vertices[v].row as int,
            mesh.vertices[v].column as int,
        )],
{
    let side = lod.spec_grid_size();
    let y = v / side;
    let x = v % side;
    lemma_slot_position(side, side, v);
    lemma_sample_coord(lod, y);
    lemma_sample_coord(lod, x);
    assert(mesh.vertices[y * side + x] == grid_vertex(field, lod, y, x));
}

/// Over a level field the mesh is level: every vertex carries the field's one
/// height, so no edge of the mesh rises or falls.
pub proof fn lemma_level_field_level_mesh<T>(
    mesh: MeshView<T>,
    field: Seq<T>,
    lod: LodLevel,
    height: T,
    v: int,
)
    requires
        mesh.is_grid_over(field, lod),
        field.len() == FIELD_LEN,
        forall|i: int| 0 <= i < field.len() ==> field[i] == height,
        0 <= v < mesh.vertices.len(),
    ensures
        mesh.vertices[v].elevation == height,
{
    lemma_vertex_samples_field(mesh, field, lod, v);
}

/// Every vertex of a grid mesh is a corner of at least one triangle.
pub proof fn lemma_every_vertex_is_used<T>(mesh: MeshView<T>, field: Seq<T>, lod: LodLevel, v: int)
    requires
        mesh.is_grid_over(field, lod),
        0 <= v < mesh.vertices.len(),
    ensures
        exists|i: int| 0 <= i < mesh.indices.len() && #[trigger] mesh.indices[i] == v,
{
    let side = lod.spec_grid_size();
    let cells = side - 1;
    let y = v / side;
    let x = v % side;
    lemma_slot_position(side, side, v);
    // The cell that has the vertex as a corner, and which corner it is.
    let cy = if y < cells { y } else { y - 1 };
    let cx = if x < cells { x } else { x - 1 };
    let k: int = if y < cells {
        if x < cells { 0 } else { 2 }
    } else {
        if x < cells { 1 } else { 5 }
    };
    let i = 6 * (cy * cells + cx) + k;
    assert(cell_indices(side, cy, cx)[k] == v) by (nonlinear_arith)
        requires
            v == y * side + x,
            cy == if y < cells { y } else { y - 1 },
            cx == if x < cells { x } else { x - 1 },
            k == if y < cells {
                if x < cells { 0int } else { 2int }
            } else {
                if x < cells { 1int } else { 5int }
            },
            cell_indices(side, cy, cx)[0] == cy * side + cx,
            cell_indices(side, cy, cx)[2] == cy * side + cx + 1,
            cell_indices(side, cy, cx)[1] == cy * side + cx + side,
            cell_indices(side, cy, cx)[5] == cy * side + cx + side + 1,
    ;
    assert(mesh.indices[6 * (cy * cells + cx) + k] == cell_indices(side, cy, cx)[k]);
    assert(0 <= cy * cells + cx < cells * cells) by (nonlinear_arith)
        requires
            0 <= cy < cells,
            0 <= cx < cells,
    ;
    assert(0 <= i < mesh.indices.len());
    assert(mesh.indices[i] == v);
}

} // verus!
