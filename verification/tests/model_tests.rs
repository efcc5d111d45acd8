use bse::model::convert::{vox_to_model_def, VoxGrid};
use bse::model::loader::{prepare_model, validate_materials, ModelLoadError};
use bse::model::mesher::{build_mesh_indices, corner_in_world, face_triangles, plane_normal};
use bse::model::schema::{plane_axes, BBox, Face, ModelDef, Plane};

fn make_grid(voxels: Vec<u8>, size: [u32; 3]) -> VoxGrid {
    let mut used: Vec<u8> = voxels.iter().copied().filter(|&i| i != 0).collect();
    used.sort_unstable();
    used.dedup();
    let mut palette_remap = [0u8; 256];
    for (compact, &original) in used.iter().enumerate() {
        palette_remap[original as usize] = compact as u8;
    }
    let used_count = used.len() as u8;
    VoxGrid { size, voxels, palette_remap, used_count }
}

fn face(plane: Plane, depth: i32, material: u16) -> Face {
    Face { plane, depth, geo_min: [0, 0], geo_size: [1, 1], uv_min: [0, 0], uv_size: [1, 1], material }
}

#[test]
fn single_voxel_yields_six_faces() {
    let grid = make_grid(vec![1], [1, 1, 1]);
    let def = vox_to_model_def("test", &grid);
    assert_eq!(def.faces.len(), 6);
    for f in &def.faces {
        assert_eq!(f.geo_size, [1, 1]);
        assert_eq!(f.material, 0);
    }
}

#[test]
fn two_voxels_merge_shared_internal_face() {
    let grid = make_grid(vec![1, 1], [2, 1, 1]);
    let def = vox_to_model_def("test", &grid);
    assert_eq!(def.faces.len(), 6);
}

#[test]
fn material_remap_compacts_palette() {
    let grid = make_grid(vec![5, 200], [1, 1, 2]);
    let def = vox_to_model_def("test", &grid);
    assert_eq!(def.materials.len(), 2);
    let mut mats: Vec<u16> = def.faces.iter().map(|f| f.material).collect();
    mats.sort_unstable();
    mats.dedup();
    assert_eq!(mats, vec![0, 1]);
}

#[test]
fn placeholder_material_names() {
    let grid = make_grid(vec![1, 2, 3], [1, 1, 3]);
    let def = vox_to_model_def("chair", &grid);
    assert_eq!(def.materials, vec!["__mat_0", "__mat_1", "__mat_2"]);
}

#[test]
fn converted_model_keeps_name_and_texel_scale() {
    let grid = make_grid(vec![1], [1, 1, 1]);
    let def = vox_to_model_def("crate", &grid);
    assert_eq!(def.name, "crate");
    for f in &def.faces {
        assert_eq!(f.uv_size, [16, 16]);
    }
}

#[test]
fn empty_grid_has_no_faces() {
    let grid = make_grid(vec![0, 0], [2, 1, 1]);
    let def = vox_to_model_def("none", &grid);
    assert!(def.faces.is_empty());
    assert!(def.materials.is_empty());
}

#[test]
fn plane_normal_pos_x() {
    assert_eq!(plane_normal(Plane::PosX), [1, 0, 0]);
}

#[test]
fn plane_normal_neg_y() {
    assert_eq!(plane_normal(Plane::NegY), [0, -1, 0]);
}

#[test]
fn plane_normal_pos_z() {
    assert_eq!(plane_normal(Plane::PosZ), [0, 0, 1]);
}

#[test]
fn plane_axes_posx_uses_yz() {
    assert_eq!(plane_axes(Plane::PosX), (0, 1, 2));
}

#[test]
fn plane_axes_posy_uses_zx() {
    assert_eq!(plane_axes(Plane::PosY), (1, 2, 0));
}

#[test]
fn plane_axes_negz_uses_xy() {
    assert_eq!(plane_axes(Plane::NegZ), (2, 0, 1));
}

#[test]
fn corner_world_posx() {
    let p = corner_in_world(Plane::PosX, 33, [0, 0]);
    assert_eq!(p, [33, 0, 0]);
}

#[test]
fn corner_world_posy_with_offset() {
    let p = corner_in_world(Plane::PosY, 16, [4, 8]);
    assert_eq!(p, [8, 16, 4]);
}

#[test]
fn corner_world_negz_with_offset() {
    let p = corner_in_world(Plane::NegZ, -3, [2, 5]);
    assert_eq!(p, [2, 5, -3]);
}

#[test]
fn bounds_of_empty_model() {
    let def = ModelDef { name: "empty".into(), materials: vec![], faces: vec![] };
    assert_eq!(def.bounds(), None);
}

#[test]
fn bounds_of_cube() {
    let def = ModelDef { name: "cube".into(), materials: vec!["m".into()], faces: vec![face(Plane::PosX, 1, 0)] };
    let bb = def.bounds().unwrap();
    assert_eq!(bb.min, [1, 0, 0]);
    assert_eq!(bb.max, [1, 1, 1]);
}

#[test]
fn bbox_expand_from_empty_gives_point() {
    let mut b = BBox::empty();
    b.expand([3, -2, 7]);
    assert_eq!(b.min, [3, -2, 7]);
    assert_eq!(b.max, [3, -2, 7]);
    b.expand([1, 5, 7]);
    assert_eq!(b.min, [1, -2, 7]);
    assert_eq!(b.max, [3, 5, 7]);
    assert_eq!(b.size(), [2, 7, 0]);
}

#[test]
fn face_triangles_follow_plane_winding() {
    assert_eq!(face_triangles(Plane::PosX, 0), [0, 1, 2, 1, 3, 2]);
    assert_eq!(face_triangles(Plane::NegX, 4), [6, 5, 4, 6, 7, 5]);
}

#[test]
fn build_mesh_groups_by_material() {
    let def = ModelDef {
        name: "two".into(),
        materials: vec!["a".into(), "b".into()],
        faces: vec![face(Plane::PosX, 1, 0), face(Plane::NegX, 0, 1)],
    };
    let m = build_mesh_indices(&def);
    assert_eq!(m.indices.len(), 12);
    assert_eq!(m.indices[0..6].to_vec(), vec![0, 1, 2, 1, 3, 2]);
    assert_eq!(m.indices[6..12].to_vec(), vec![6, 5, 4, 6, 7, 5]);
    assert_eq!(m.material_groups, vec![(0, 0, 4), (1, 4, 8)]);
}

#[test]
fn validate_rejects_unknown_material() {
    let def = ModelDef { name: "bad".into(), materials: vec!["m".into()], faces: vec![face(Plane::PosX, 1, 0), face(Plane::PosY, 1, 3)] };
    assert_eq!(validate_materials(&def), Err(ModelLoadError::MaterialIndex(3, 1)));
    assert!(prepare_model(&def).is_err());
}

#[test]
fn prepare_accepts_valid_model() {
    let def = ModelDef { name: "ok".into(), materials: vec!["m".into()], faces: vec![face(Plane::PosX, 1, 0)] };
    assert_eq!(validate_materials(&def), Ok(()));
    let g = prepare_model(&def).unwrap();
    assert_eq!(g.bounds, BBox { min: [1, 0, 0], max: [1, 1, 1] });
    assert_eq!(g.buffers.indices.len(), 6);
}

#[test]
fn build_mesh_single_face_one_group() {
    let def = ModelDef {
        name: "cube".into(),
        materials: vec!["m".into()],
        faces: vec![Face { plane: Plane::PosX, depth: 1, geo_min: [0, 0], geo_size: [1, 1], uv_min: [0, 0], uv_size: [1, 1], material: 0 }],
    };
    let bufs = build_mesh_indices(&def);
    assert_eq!(bufs.indices.len(), 6);
    assert_eq!(bufs.material_groups.len(), 1);
    assert_eq!(bufs.material_groups[0], (0, 0, 4));
}

#[test]
fn build_mesh_two_faces_split_groups() {
    let def = ModelDef {
        name: "two".into(),
        materials: vec!["a".into(), "b".into()],
        faces: vec![
            Face { plane: Plane::PosX, depth: 1, geo_min: [0, 0], geo_size: [1, 1], uv_min: [0, 0], uv_size: [1, 1], material: 0 },
            Face { plane: Plane::NegX, depth: 0, geo_min: [0, 0], geo_size: [1, 1], uv_min: [0, 0], uv_size: [1, 1], material: 1 },
        ],
    };
    let bufs = build_mesh_indices(&def);
    assert_eq!(bufs.material_groups.len(), 2);
    assert_eq!(bufs.material_groups[0], (0, 0, 4));
    assert_eq!(bufs.material_groups[1], (1, 4, 8));
}

/// The four voxel-space corners of a face: 0 at the minimum, 1 along U,
/// 2 along V, 3 both.
fn face_corners(f: &Face) -> [[i64; 3]; 4] {
    let (_, u, v) = plane_axes(f.plane);
    let c0 = corner_in_world(f.plane, f.depth, f.geo_min);
    let p0 = [c0[0] as i64, c0[1] as i64, c0[2] as i64];
    let mut p1 = p0;
    p1[u] += f.geo_size[0] as i64;
    let mut p2 = p0;
    p2[v] += f.geo_size[1] as i64;
    let mut p3 = p1;
    p3[v] += f.geo_size[1] as i64;
    [p0, p1, p2, p3]
}

#[test]
fn build_mesh_winding_matches_normal_all_planes() {
    for plane in [Plane::PosX, Plane::NegX, Plane::PosY, Plane::NegY, Plane::PosZ, Plane::NegZ] {
        let f = Face { plane, depth: 4, geo_min: [0, 0], geo_size: [4, 4], uv_min: [0, 0], uv_size: [16, 16], material: 0 };
        let def = ModelDef { name: "w".into(), materials: vec!["m".into()], faces: vec![f] };
        let bufs = build_mesh_indices(&def);
        let pos = face_corners(&f);
        let (p0, p1, p2) = (pos[bufs.indices[0] as usize], pos[bufs.indices[1] as usize], pos[bufs.indices[2] as usize]);
        let e1 = [p1[0] - p0[0], p1[1] - p0[1], p1[2] - p0[2]];
        let e2 = [p2[0] - p0[0], p2[1] - p0[1], p2[2] - p0[2]];
        let cross = [e1[1] * e2[2] - e1[2] * e2[1], e1[2] * e2[0] - e1[0] * e2[2], e1[0] * e2[1] - e1[1] * e2[0]];
        let n = plane_normal(plane);
        let dot = cross[0] * n[0] as i64 + cross[1] * n[1] as i64 + cross[2] * n[2] as i64;
        assert!(dot > 0, "winding inverted for {plane:?}: cross={cross:?}");
    }
}

#[test]
fn placeholder_names_count_in_decimal() {
    let voxels: Vec<u8> = (1..=120u8).collect();
    let def = vox_to_model_def("row", &make_grid(voxels, [120, 1, 1]));
    assert_eq!(def.materials.len(), 120);
    assert_eq!(def.materials[9], "__mat_9");
    assert_eq!(def.materials[10], "__mat_10");
    assert_eq!(def.materials[99], "__mat_99");
    assert_eq!(def.materials[100], "__mat_100");
    assert_eq!(def.materials[119], "__mat_119");
}
