use peak_vista::{ErrorKind, LodLevel, MeshError, MeshGenerator, Vertex};

fn flat_field() -> Vec<i32> {
    vec![0; 65536]
}

/// A field whose sample at (row, column) is `row * 1000 + column`.
fn ramp_field() -> Vec<i32> {
    let mut field = Vec::with_capacity(65536);
    for row in 0..256 {
        for column in 0..256 {
            field.push(row * 1000 + column);
        }
    }
    field
}

#[test]
fn far_mesh_has_33_by_33_vertices() {
    let mesh = MeshGenerator::new().generate(&flat_field(), 0).unwrap();
    assert_eq!(LodLevel::Far.stride(), 8);
    assert_eq!(LodLevel::Far.grid_size(), 33);
    assert_eq!(mesh.vertex_count(), 1089);
    assert_eq!(mesh.vertices_len(), 3267);
    assert_eq!(mesh.indices_len(), 6144);
    assert_eq!(mesh.indices_len() / 3, 2048);
    assert_eq!(mesh.normals_len(), mesh.vertices_len());
}

#[test]
fn mid_mesh_has_65_by_65_vertices() {
    let mesh = MeshGenerator::new().generate(&flat_field(), 1).unwrap();
    assert_eq!(LodLevel::Mid.stride(), 4);
    assert_eq!(LodLevel::Mid.grid_size(), 65);
    assert_eq!(mesh.vertex_count(), 65 * 65);
    assert_eq!(mesh.indices_len(), 6 * 64 * 64);
}

#[test]
fn near_mesh_has_129_by_129_vertices() {
    let mesh = MeshGenerator::new().generate(&flat_field(), 2).unwrap();
    assert_eq!(LodLevel::Near.stride(), 2);
    assert_eq!(LodLevel::Near.grid_size(), 129);
    assert_eq!(mesh.vertex_count(), 129 * 129);
    assert_eq!(mesh.indices_len(), 6 * 128 * 128);
}

#[test]
fn level_codes_select_levels() {
    assert_eq!(LodLevel::from_level(0), Some(LodLevel::Far));
    assert_eq!(LodLevel::from_level(1), Some(LodLevel::Mid));
    assert_eq!(LodLevel::from_level(2), Some(LodLevel::Near));
    assert_eq!(LodLevel::from_level(3), None);
    assert_eq!(LodLevel::from_level(255), None);
}

#[test]
fn unknown_level_is_refused() {
    let error = MeshGenerator::new().generate(&flat_field(), 3).unwrap_err();
    assert_eq!(error, MeshError::LodLevel(3));
    assert_eq!(error.kind(), ErrorKind::Parameter);
    assert_eq!(error.message(), "Invalid LOD level 3 (0-2)");
}

#[test]
fn short_field_is_refused() {
    let field = vec![0i32; 65535];
    let error = MeshGenerator::new().generate(&field, 0).unwrap_err();
    assert_eq!(error, MeshError::FieldLength(65535));
    assert_eq!(error.kind(), ErrorKind::Shape);
    assert_eq!(error.message(), "Invalid elevation array length: 65535, expected 65536");
}

#[test]
fn empty_field_is_refused() {
    let field: Vec<i32> = Vec::new();
    let error = MeshGenerator::new().generate(&field, 0).unwrap_err();
    assert_eq!(error, MeshError::FieldLength(0));
    assert_eq!(error.message(), "Invalid elevation array length: 0, expected 65536");
}

#[test]
fn field_length_comes_before_level() {
    let field = vec![0i32; 65537];
    let error = MeshGenerator::new().generate(&field, 9).unwrap_err();
    assert_eq!(error, MeshError::FieldLength(65537));
}

#[test]
fn vertices_sample_the_field_row_by_row() {
    let field = ramp_field();
    let mesh = MeshGenerator::new().generate(&field, 0).unwrap();
    let vertices = mesh.vertices();
    assert_eq!(vertices[0], Vertex { column: 0, row: 0, elevation: 0 });
    assert_eq!(vertices[1], Vertex { column: 8, row: 0, elevation: 8 });
    assert_eq!(vertices[33], Vertex { column: 0, row: 8, elevation: 8000 });
    assert_eq!(vertices[34], Vertex { column: 8, row: 8, elevation: 8008 });
    assert_eq!(vertices[5 * 33 + 7], Vertex { column: 56, row: 40, elevation: 40056 });
    for y in 0..33usize {
        for x in 0..33usize {
            let column = (x * 8).min(255);
            let row = (y * 8).min(255);
            let vertex = vertices[y * 33 + x];
            assert_eq!(vertex.column, column);
            assert_eq!(vertex.row, row);
            assert_eq!(vertex.elevation, field[row * 256 + column]);
        }
    }
}

#[test]
fn last_grid_line_reuses_last_sample() {
    let field = ramp_field();
    for (level, side) in [(0u8, 33usize), (1, 65), (2, 129)] {
        let mesh = MeshGenerator::new().generate(&field, level).unwrap();
        let vertices = mesh.vertices();
        for k in 0..side {
            assert_eq!(vertices[k].row, 0);
            assert_eq!(vertices[k * side].column, 0);
            assert_eq!(vertices[(side - 1) * side + k].row, 255);
            assert_eq!(vertices[k * side + side - 1].column, 255);
        }
        let corner = vertices[side * side - 1];
        assert_eq!(corner, Vertex { column: 255, row: 255, elevation: 255255 });
    }
}

#[test]
fn first_cell_is_two_counter_clockwise_triangles() {
    let mesh = MeshGenerator::new().generate(&flat_field(), 0).unwrap();
    assert_eq!(&mesh.indices()[0..6], &[0, 33, 1, 1, 33, 34]);
    assert_eq!(&mesh.indices()[6..12], &[1, 34, 2, 2, 34, 35]);
    // First cell of the second row of cells.
    assert_eq!(&mesh.indices()[6 * 32..6 * 32 + 6], &[33, 66, 34, 34, 66, 67]);
    // Last cell.
    assert_eq!(&mesh.indices()[6138..6144], &[1054, 1087, 1055, 1055, 1087, 1088]);
}

#[test]
fn indices_follow_the_cell_formula() {
    for (level, side) in [(0u8, 33u32), (1, 65), (2, 129)] {
        let mesh = MeshGenerator::new().generate(&flat_field(), level).unwrap();
        let indices = mesh.get_indices();
        let mut at = 0;
        for y in 0..side - 1 {
            for x in 0..side - 1 {
                let idx0 = y * side + x;
                let idx1 = idx0 + 1;
                let idx2 = idx0 + side;
                let idx3 = idx2 + 1;
                assert_eq!(&indices[at..at + 6], &[idx0, idx2, idx1, idx1, idx2, idx3]);
                at += 6;
            }
        }
        assert_eq!(at, indices.len());
    }
}

#[test]
fn every_index_names_a_vertex() {
    for level in 0..3u8 {
        let mesh = MeshGenerator::new().generate(&flat_field(), level).unwrap();
        assert_eq!(mesh.indices_len() % 3, 0);
        assert!(mesh.indices().iter().all(|&i| (i as usize) < mesh.vertex_count()));
    }
}

#[test]
fn every_vertex_is_a_corner_of_a_triangle() {
    for level in 0..3u8 {
        let mesh = MeshGenerator::new().generate(&flat_field(), level).unwrap();
        let mut used = vec![false; mesh.vertex_count()];
        for &i in mesh.indices() {
            used[i as usize] = true;
        }
        assert!(used.iter().all(|&u| u));
    }
}

#[test]
fn every_triangle_faces_up() {
    for level in 0..3u8 {
        let mesh = MeshGenerator::new().generate(&ramp_field(), level).unwrap();
        let vertices = mesh.vertices();
        for triangle in mesh.indices().chunks(3) {
            let a = vertices[triangle[0] as usize];
            let b = vertices[triangle[1] as usize];
            let c = vertices[triangle[2] as usize];
            let (ax, az) = (a.column as i64, a.row as i64);
            let (bx, bz) = (b.column as i64, b.row as i64);
            let (cx, cz) = (c.column as i64, c.row as i64);
            let up = (bz - az) * (cx - ax) - (bx - ax) * (cz - az);
            assert!(up > 0);
        }
    }
}

#[test]
fn flat_field_has_upward_unit_normals() {
    // Normals are worked out by the caller from the layout; on a flat field
    // every face normal, and so every vertex normal, is straight up.
    let field = vec![0.0f32; 65536];
    let tile_size = 100.0f32;
    let mesh = MeshGenerator::new().generate(&field, 0).unwrap();
    let positions: Vec<[f32; 3]> = mesh
        .vertices()
        .iter()
        .map(|v| {
            [
                v.column as f32 * (tile_size / 256.0) - tile_size / 2.0,
                v.elevation,
                v.row as f32 * (tile_size / 256.0) - tile_size / 2.0,
            ]
        })
        .collect();
    let mut normals = vec![[0.0f32; 3]; positions.len()];
    for triangle in mesh.indices().chunks(3) {
        let v0 = positions[triangle[0] as usize];
        let v1 = positions[triangle[1] as usize];
        let v2 = positions[triangle[2] as usize];
        let e1 = [v1[0] - v0[0], v1[1] - v0[1], v1[2] - v0[2]];
        let e2 = [v2[0] - v0[0], v2[1] - v0[1], v2[2] - v0[2]];
        let n = [
            e1[1] * e2[2] - e1[2] * e2[1],
            e1[2] * e2[0] - e1[0] * e2[2],
            e1[0] * e2[1] - e1[1] * e2[0],
        ];
        let length = (n[0] * n[0] + n[1] * n[1] + n[2] * n[2]).sqrt();
        for &i in triangle {
            for k in 0..3 {
                normals[i as usize][k] += n[k] / length;
            }
        }
    }
    for n in normals {
        let length = (n[0] * n[0] + n[1] * n[1] + n[2] * n[2]).sqrt();
        let unit = [n[0] / length, n[1] / length, n[2] / length];
        assert!(unit[0].abs() < 1e-4);
        assert!((unit[1] - 1.0).abs() < 1e-4);
        assert!(unit[2].abs() < 1e-4);
    }
}

#[test]
fn copies_match_the_mesh() {
    let mesh = MeshGenerator::new().generate(&ramp_field(), 1).unwrap();
    assert_eq!(mesh.get_vertices().as_slice(), mesh.vertices());
    assert_eq!(mesh.get_indices().as_slice(), mesh.indices());
    assert_eq!(mesh.get_vertices().len(), mesh.vertex_count());
    assert_eq!(mesh.get_indices().len(), mesh.indices_len());
}

#[test]
fn heights_of_any_type_are_carried_over() {
    let mut field = vec!["-"; 65536];
    field[255 * 256 + 255] = "far corner";
    field[8 * 256 + 16] = "inside";
    let mesh = MeshGenerator::new().generate(&field, 0).unwrap();
    assert_eq!(mesh.vertices()[33 + 2].elevation, "inside");
    assert_eq!(mesh.vertices()[1088].elevation, "far corner");
    assert_eq!(mesh.vertices()[0].elevation, "-");
}
