//! From the bytes of a `.vox` file to the palette atlas and merged quads of
//! its first model.

use vstd::prelude::*;
use crate::vox::mesh::{FaceQuad, greedy_quads, shape_quads, spec_count, u32s_as_ints};
use crate::vox::palette::{ATLAS, atlas_byte, palette_rgba};
use crate::vox::remap::{
    RemapError, VoxModel, VoxVoxel, first_out_of_bounds, padded_size, painted, remap_fits, remap_voxels, voxel_cell,
};

verus! {

/// The models and palette of a parsed `.vox` file.
#[derive(Clone, Debug)]
pub struct VoxFile {
    pub models: Vec<VoxModel>,
    pub palette: Vec<[u8; 4]>,
}

pub struct VoxModelView {
    pub size: [u32; 3],
    pub voxels: Seq<VoxVoxel>,
}

pub struct VoxFileView {
    pub models: Seq<VoxModelView>,
    pub palette: Seq<[u8; 4]>,
}

impl View for VoxModel {
    type V = VoxModelView;

    open spec fn view(&self) -> VoxModelView {
        VoxModelView { size: self.size, voxels: self.voxels@ }
    }
}

impl View for VoxFile {
    type V = VoxFileView;

    open spec fn view(&self) -> VoxFileView {
        VoxFileView { models: self.models@.map_values(|m: VoxModel| m@), palette: self.palette@ }
    }
}

/// What `dot_vox` parses from the bytes of a `.vox` file, or `None` when they
/// are not a valid file.
pub uninterp spec fn parsed_vox(bytes: Seq<u8>) -> Option<VoxFileView>;

/// Parses `.vox` bytes with `dot_vox::load_bytes` and copies each model's
/// size, each voxel and each palette colour into the library's types.
/// Claimed: the outcome is a function of the bytes (`parsed_vox`), and the
/// error is the constant message `load_bytes` returns for every parse failure.
#[verifier::external_body]
fn parse_vox_bytes(bytes: &[u8]) -> (r: Result<VoxFile, String>)
    ensures
        r is Ok <==> parsed_vox(bytes@) is Some,
        r matches Ok(f) ==> parsed_vox(bytes@) == Some(f@),
        r matches Err(e) ==> e@ == "Not a valid MagicaVoxel .vox file"@,
{
    match dot_vox::load_bytes(bytes) {
        Ok(d) => Ok(VoxFile {
            models: d.models.iter().map(|m| VoxModel {
                size: [m.size.x, m.size.y, m.size.z],
                voxels: m.voxels.iter().map(|v| VoxVoxel { x: v.x, y: v.y, z: v.z, i: v.i }).collect(),
            }).collect(),
            palette: d.palette.iter().map(|c| [c.r, c.g, c.b, c.a]).collect(),
        }),
        Err(e) => Err(e.to_string()),
    }
}

/// What a `.vox` asset is built from: the palette atlas bytes, the merged
/// quads of the first model and its padded world-space size.
#[derive(Clone, Debug)]
pub struct VoxMeshData {
    pub palette_rgba: Vec<u8>,
    pub quads: Vec<FaceQuad>,
    pub size_units: [u32; 3],
}

/// Why a `.vox` asset could not be built.
#[derive(Clone, Debug)]
pub enum VoxLoadError {
    Parse(String),
    Remap(RemapError),
}

pub open spec fn has_empty_dim(size: [u32; 3]) -> bool {
    size[0] == 0 || size[1] == 0 || size[2] == 0
}

/// The padded grid of a model after writing its solid voxels.
pub open spec fn painted_grid(m: VoxModelView) -> Seq<u8> {
    let s = padded_size(m.size);
    Seq::new(spec_count(s) as nat, |p: int| painted(m.voxels, s, m.voxels.len() as int, p))
}

/// The asset built from a parsed file: its first model remapped and meshed,
/// its palette as an atlas; an empty file or an empty or ill-formed first
/// model is a remap error.
pub open spec fn asset_outcome(f: VoxFileView, r: Result<VoxMeshData, VoxLoadError>) -> bool {
    if f.models.len() == 0 || has_empty_dim(f.models[0].size) {
        r matches Err(VoxLoadError::Remap(RemapError::EmptyModel))
    } else {
        let m = f.models[0];
        let s = padded_size(m.size);
        match first_out_of_bounds(m.voxels, s, m.voxels.len() as int) {
            Some(j) => (r matches Err(VoxLoadError::Remap(RemapError::OutOfBounds { coord, size }))
                && u32s_as_ints(coord@) == voxel_cell(m.voxels[j]) && size@ == s),
            None => (r matches Ok(d) && {
                &&& d.size_units@ == s
                &&& d.palette_rgba@.len() == ATLAS * ATLAS * 4
                &&& forall|i: int| 0 <= i < d.palette_rgba@.len() ==> #[trigger] d.palette_rgba@[i] == atlas_byte(f.palette, i)
                &&& d.quads@ == shape_quads(painted_grid(m), s, 6)
            }),
        }
    }
}

/// The first model's padded grid fits the mesher's `u32` indices (or the
/// model is empty and never meshed).
pub open spec fn file_meshable(f: VoxFileView) -> bool {
    f.models.len() > 0 && !has_empty_dim(f.models[0].size) ==> remap_fits(f.models[0].size)
}

/// Build the asset data of a parsed `.vox` file from its first model.
pub fn vox_asset_from_file(file: &VoxFile) -> (r: Result<VoxMeshData, VoxLoadError>)
    requires
        file_meshable(file@),
    ensures
        asset_outcome(file@, r),
{
    if file.models.len() == 0 {
        return Err(VoxLoadError::Remap(RemapError::EmptyModel));
    }
    let model = &file.models[0];
    assert(file@.models[0] == model@);
    let palette = palette_rgba(file.palette.as_slice());
    match remap_voxels(model) {
        Err(e) => Err(VoxLoadError::Remap(e)),
        Ok(remapped) => {
            let quads = greedy_quads(remapped.voxels.as_slice(), &remapped.shape);
            proof {
                assert(remapped.voxels@ =~= painted_grid(model@));
            }
            Ok(VoxMeshData { palette_rgba: palette, quads, size_units: remapped.size_units })
        },
    }
}

/// Parse `.vox` bytes and build the asset data of the first model. `None`
/// when the first model is too large for the mesher's `u32` indices.
pub fn load_vox_asset(bytes: &[u8]) -> (r: Option<Result<VoxMeshData, VoxLoadError>>)
    ensures
        parsed_vox(bytes@) is None ==> (r matches Some(Err(VoxLoadError::Parse(e))) && e@
            == "Not a valid MagicaVoxel .vox file"@),
        parsed_vox(bytes@) matches Some(f) ==> {
            &&& r is None <==> !file_meshable(f)
            &&& r matches Some(res) ==> asset_outcome(f, res)
        },
{
    match parse_vox_bytes(bytes) {
        Err(e) => Some(Err(VoxLoadError::Parse(e))),
        Ok(file) => {
            if file.models.len() > 0 {
                let size = file.models[0].size;
                assert(file@.models[0].size == size);
                if !(size[0] == 0 || size[1] == 0 || size[2] == 0) {
                    if size[0] > u32::MAX - 2 || size[1] > u32::MAX - 2 || size[2] > u32::MAX - 2 {
                        return None;
                    }
                    let a = (size[0] + 2) as u64;
                    let b = (size[2] + 2) as u64;
                    let c = (size[1] + 2) as u64;
                    assert(a * b <= u32::MAX as int * u32::MAX as int) by (nonlinear_arith)
                        requires
                            a <= u32::MAX,
                            b <= u32::MAX,
                    ;
                    if a * b > u32::MAX as u64 {
                        assert(a * b * c > u32::MAX) by (nonlinear_arith)
                            requires
                                a * b > u32::MAX,
                                c >= 1,
                        ;
                        return None;
                    }
                    assert(a * b * c <= u32::MAX as int * u32::MAX as int) by (nonlinear_arith)
                        requires
                            a * b <= u32::MAX,
                            c <= u32::MAX,
                    ;
                    if a * b * c > u32::MAX as u64 {
                        return None;
                    }
                }
            }
            Some(vox_asset_from_file(&file))
        },
    }
}

} // verus!
