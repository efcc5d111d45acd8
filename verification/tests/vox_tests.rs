use bse::vox::loader::{load_vox_asset, vox_asset_from_file, VoxFile, VoxLoadError};
use bse::vox::mesh::{assemble_coord, greedy_quads, mesh_one_face, OrientedFace, Shape3, UnorientedQuad};
use bse::vox::palette::palette_rgba;
use bse::vox::remap::{remap_voxels, RemapError, VoxModel, VoxVoxel};

#[test]
fn linearize_roundtrip() {
    let s = Shape3::new([5, 7, 11]);
    for x in 0..s.size[0] {
        for y in 0..s.size[1] {
            for z in 0..s.size[2] {
                let i = s.linearize([x, y, z]);
                assert_eq!(s.delinearize(i), [x, y, z], "roundtrip failed for ({x},{y},{z})");
            }
        }
    }
}

#[test]
fn shape_count_and_bounds() {
    let s = Shape3::new([2, 3, 4]);
    assert_eq!(s.count(), 24);
    assert_eq!(s.linearize([1, 2, 3]), 23);
    assert!(s.in_bounds([1, 2, 3]));
    assert!(!s.in_bounds([2, 0, 0]));
}

#[test]
fn single_voxel_yields_six_quads() {
    let shape = Shape3::new([3, 3, 3]);
    let mut voxels = vec![0u8; shape.count() as usize];
    voxels[shape.linearize([1, 1, 1]) as usize] = 5;
    let quads = greedy_quads(&voxels, &shape);
    assert_eq!(quads.len() * 4, 24, "6 quads × 4 vertices");
    assert_eq!(quads.len() * 6, 36, "6 quads × 6 indices");
    for q in &quads {
        assert_eq!(q.palette_index, 5);
        assert_eq!(q.quad.width, 1);
        assert_eq!(q.quad.height, 1);
    }
}

#[test]
fn coplanar_same_color_merges() {
    let shape = Shape3::new([3, 3, 3]);
    let mut voxels = vec![0u8; shape.count() as usize];
    for x in 0..2 {
        for y in 0..2 {
            voxels[shape.linearize([x + 1, y + 1, 0]) as usize] = 7;
        }
    }
    let quad_count = greedy_quads(&voxels, &shape).len();
    assert_eq!(quad_count, 6, "expected 6 quads, got {quad_count}");
}

#[test]
fn line_two_colors_no_merge() {
    let shape = Shape3::new([4, 3, 3]);
    let mut voxels = vec![0u8; shape.count() as usize];
    voxels[shape.linearize([1, 1, 1]) as usize] = 1;
    voxels[shape.linearize([2, 1, 1]) as usize] = 2;
    let quad_count = greedy_quads(&voxels, &shape).len();
    assert_eq!(quad_count, 10, "expected 10 quads, got {quad_count}");
}

#[test]
fn inner_voxel_hidden() {
    let shape = Shape3::new([5, 5, 5]);
    let mut voxels = vec![0u8; shape.count() as usize];
    for x in 1..=3 {
        for y in 1..=3 {
            for z in 1..=3 {
                voxels[shape.linearize([x, y, z]) as usize] = 9;
            }
        }
    }
    let quad_count = greedy_quads(&voxels, &shape).len();
    assert_eq!(quad_count, 6, "expected 6 outer-face quads, got {quad_count}");
}

#[test]
fn quad_mesh_indices_winding() {
    let p = OrientedFace::pos_x().quad_mesh_indices(10);
    assert_eq!(p, [10, 11, 12, 11, 13, 12]);
    let n = OrientedFace::neg_x().quad_mesh_indices(10);
    assert_eq!(n, [10, 12, 11, 11, 12, 13]);
}

#[test]
fn mesh_one_face_appends_after_existing() {
    let shape = Shape3::new([3, 3, 3]);
    let mut voxels = vec![0u8; shape.count() as usize];
    voxels[shape.linearize([1, 1, 1]) as usize] = 4;
    let mut out = Vec::new();
    mesh_one_face(&voxels, &shape, OrientedFace::pos_y(), &mut out);
    assert_eq!(out.len(), 1);
    mesh_one_face(&voxels, &shape, OrientedFace::neg_y(), &mut out);
    assert_eq!(out.len(), 2);
    assert_eq!(out[0].quad.minimum, [1, 1, 1]);
}

#[test]
fn assemble_coord_places_axes() {
    assert_eq!(assemble_coord(2, 7, 0, 1, 1, 4), [1, 4, 7]);
    assert_eq!(assemble_coord(0, 3, 1, 5, 2, 6), [3, 5, 6]);
}

#[test]
fn quad_corners_span_the_quad() {
    let q = UnorientedQuad { minimum: [1, 2, 3], width: 2, height: 3 };
    let c = OrientedFace::pos_x().quad_corners(&q);
    assert_eq!(c.len(), 4);
    for corner in c.iter() {
        assert!(corner[0] >= 1);
    }
}

fn model(size: [u32; 3], voxels: Vec<VoxVoxel>) -> VoxModel {
    VoxModel { size, voxels }
}

#[test]
fn remap_cyclic_permutation() {
    let m = model(
        [2, 2, 1],
        vec![VoxVoxel { x: 0, y: 0, z: 0, i: 5 }, VoxVoxel { x: 1, y: 0, z: 0, i: 6 }],
    );
    let r = remap_voxels(&m).expect("remap ok");
    assert_eq!(r.size_units, [4, 3, 4]);
    assert_eq!(r.voxels[r.shape.linearize([1, 1, 1]) as usize], 5);
    assert_eq!(r.voxels[r.shape.linearize([2, 1, 1]) as usize], 6);
    let quads = greedy_quads(&r.voxels, &r.shape);
    assert_eq!((quads.len() * 4) % 4, 0, "vertex count divisible by 4");
    assert!(quads.len() * 6 >= 12, "at least 2 voxels of geometry");
    assert!(quads[0].palette_index == 5 || quads[0].palette_index == 6);
}

#[test]
fn empty_model_errors() {
    let m = model([0, 0, 0], vec![]);
    assert!(matches!(remap_voxels(&m), Err(RemapError::EmptyModel)));
}

#[test]
fn voxel_outside_padded_shape_errors() {
    let m = model([1, 1, 1], vec![VoxVoxel { x: 5, y: 0, z: 0, i: 3 }]);
    assert_eq!(remap_voxels(&m).unwrap_err(), RemapError::OutOfBounds { coord: [6, 1, 1], size: [3, 3, 3] });
}

#[test]
fn empty_palette_index_is_not_painted() {
    let m = model([1, 1, 1], vec![VoxVoxel { x: 9, y: 9, z: 9, i: 0 }]);
    let r = remap_voxels(&m).unwrap();
    assert!(r.voxels.iter().all(|&v| v == 0));
}

#[test]
fn palette_atlas_bytes() {
    let data = palette_rgba(&[[10, 20, 30, 255], [1, 2, 3, 4]]);
    assert_eq!(data.len(), 16 * 16 * 4);
    assert_eq!(&data[0..4], &[10, 20, 30, 255]);
    assert_eq!(&data[4..8], &[1, 2, 3, 4]);
    assert_eq!(&data[8..12], &[0, 0, 0, 255]);
}

#[test]
fn file_without_models_is_an_empty_model() {
    let f = VoxFile { models: vec![], palette: vec![] };
    assert!(matches!(vox_asset_from_file(&f), Err(VoxLoadError::Remap(RemapError::EmptyModel))));
}

#[test]
fn file_meshes_first_model() {
    let f = VoxFile { models: vec![model([1, 1, 1], vec![VoxVoxel { x: 0, y: 0, z: 0, i: 2 }])], palette: vec![[255, 0, 0, 255]; 256] };
    let d = vox_asset_from_file(&f).unwrap();
    assert_eq!(d.size_units, [3, 3, 3]);
    assert_eq!(d.quads.len(), 6);
    assert_eq!(&d.palette_rgba[0..4], &[255, 0, 0, 255]);
}

#[test]
fn garbage_bytes_are_a_parse_error() {
    match load_vox_asset(b"not a vox file") {
        Some(Err(VoxLoadError::Parse(msg))) => assert_eq!(msg, "Not a valid MagicaVoxel .vox file"),
        _ => panic!("expected a parse error"),
    }
}

#[test]
fn quad_mesh_positions_pos_x() {
    // Quad at slice x = 4, U = y = 2 (width 3), V = z = 5 (height 2).
    let q = UnorientedQuad { minimum: [4, 2, 5], width: 3, height: 2 };
    let p = OrientedFace::pos_x().quad_corners(&q);
    // +N = +X, so the face sits at x = 4 + 1 = 5.
    assert_eq!(p[0], [5, 2, 5]);
    assert_eq!(p[1], [5, 5, 5]);
    assert_eq!(p[2], [5, 2, 7]);
    assert_eq!(p[3], [5, 5, 7]);
}

fn single_voxel_quads() -> Vec<bse::vox::mesh::FaceQuad> {
    let shape = Shape3::new([3, 3, 3]);
    let mut voxels = vec![0u8; shape.count() as usize];
    voxels[shape.linearize([1, 1, 1]) as usize] = 1;
    greedy_quads(&voxels, &shape)
}

fn unit_normal(f: &OrientedFace) -> [i32; 3] {
    let mut n = [0i32; 3];
    n[f.n_axis as usize] = f.n_sign;
    n
}

#[test]
fn all_six_faces_have_correct_outward_normals() {
    let mut normals: Vec<[i32; 3]> = single_voxel_quads().iter().map(|fq| unit_normal(&fq.face)).collect();
    normals.sort();
    let expected = [[-1, 0, 0], [0, -1, 0], [0, 0, -1], [0, 0, 1], [0, 1, 0], [1, 0, 0]];
    assert_eq!(normals, expected, "each face must point along its +-N axis");
}

#[test]
fn pos_y_face_normal_is_up() {
    let quads = single_voxel_quads();
    let fq = quads.iter().find(|fq| unit_normal(&fq.face)[1] > 0).expect("POS_Y quad exists");
    let c = fq.face.quad_corners(&fq.quad);
    let p: Vec<[i64; 3]> = c.iter().map(|v| [v[0] as i64, v[1] as i64, v[2] as i64]).collect();
    // Triangle (0, 1, 2) must give a +Y cross product.
    let e1 = [p[1][0] - p[0][0], p[1][1] - p[0][1], p[1][2] - p[0][2]];
    let e2 = [p[2][0] - p[0][0], p[2][1] - p[0][1], p[2][2] - p[0][2]];
    let cross_y = e1[2] * e2[0] - e1[0] * e2[2];
    assert!(cross_y > 0, "POS_Y triangle must wind counter-clockwise, got {cross_y}");
}

fn fake_palette() -> Vec<[u8; 4]> {
    (0..256).map(|i: u32| [i as u8, (i as u8).wrapping_mul(2), 0, 255]).collect()
}

#[test]
fn image_is_16x16_rgba() {
    let data = palette_rgba(&fake_palette());
    assert_eq!(bse::vox::palette::ATLAS, 16);
    assert_eq!(data.len(), 16 * 16 * 4);
}

#[test]
fn cell_0_0_uses_palette_index_0() {
    let data = palette_rgba(&fake_palette());
    assert_eq!((data[0], data[1], data[2], data[3]), (0, 0, 0, 255), "cell (0,0) should be index 0");
}

#[test]
fn cell_1_0_uses_palette_index_1() {
    let data = palette_rgba(&fake_palette());
    assert_eq!((data[4], data[5], data[6], data[7]), (1, 2, 0, 255), "cell (1,0) should be index 1");
}

#[test]
fn quads_mesh_indices_follow_each_quads_winding() {
    let quads = single_voxel_quads();
    let idx = bse::vox::mesh::quads_mesh_indices(&quads);
    assert_eq!(idx.len(), 6 * quads.len());
    for (i, fq) in quads.iter().enumerate() {
        let base = 4 * i as u32;
        assert_eq!(idx[6 * i..6 * i + 6].to_vec(), fq.face.quad_mesh_indices(base).to_vec());
    }
    assert_eq!(idx[0..6].to_vec(), vec![0, 1, 2, 1, 3, 2]);
}
