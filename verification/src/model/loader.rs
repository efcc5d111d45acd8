//! The checks and integer geometry of loading a face-list model asset.

use vstd::prelude::*;
use crate::model::mesher::{MeshIndexBuffers, build_mesh_indices, spec_face_triangles};
use crate::model::schema::{BBox, ModelDef, face_fits, tight_box};

verus! {

/// Why a parsed model cannot be turned into a mesh.
#[derive(Clone, Copy, Debug, PartialEq, Eq, Structural)]
pub enum ModelLoadError {
    /// A face refers to material `0` but the model has only `1` materials.
    MaterialIndex(u16, usize),
}

/// Index of the first face whose material index is out of range, if any.
pub open spec fn first_bad_material(def: ModelDef, n: int) -> Option<int>
    decreases n,
{
    if n <= 0 {
        None
    } else {
        match first_bad_material(def, n - 1) {
            Some(j) => Some(j),
            None => if def.faces@[n - 1].material >= def.materials@.len() {
                Some(n - 1)
            } else {
                None
            },
        }
    }
}

pub proof fn lemma_first_bad_stable(def: ModelDef, n: int, m: int)
    requires
        0 <= n <= m,
        first_bad_material(def, n) is Some,
    ensures
        first_bad_material(def, m) == first_bad_material(def, n),
    decreases m - n,
{
    if m > n {
        lemma_first_bad_stable(def, n, m - 1);
    }
}

pub proof fn lemma_no_bad_material(def: ModelDef, n: int)
    requires
        0 <= n,
        first_bad_material(def, n) is None,
    ensures
        forall|i: int| 0 <= i < n ==> (#[trigger] def.faces@[i]).material < def.materials@.len(),
    decreases n,
{
    if n > 0 {
        assert(first_bad_material(def, n - 1) is None);
        lemma_no_bad_material(def, n - 1);
    }
}

/// Every face refers to an existing material; otherwise the error names the
/// first offending face's material and the material count.
pub fn validate_materials(def: &ModelDef) -> (r: Result<(), ModelLoadError>)
    ensures
        r is Ok <==> first_bad_material(*def, def.faces@.len() as int) is None,
        r matches Err(ModelLoadError::MaterialIndex(m, n)) ==> {
            &&& first_bad_material(*def, def.faces@.len() as int) matches Some(j) && m == def.faces@[j].material
            &&& n == def.materials@.len()
        },
{
    let mut i: usize = 0;
    while i < def.faces.len()
        invariant
            0 <= i <= def.faces@.len(),
            first_bad_material(*def, i as int) is None,
        decreases def.faces@.len() - i,
    {
        if (def.faces[i].material as usize) >= def.materials.len() {
            proof {
                assert(first_bad_material(*def, i + 1) == Some(i as int));
                lemma_first_bad_stable(*def, i + 1, def.faces@.len() as int);
            }
            return Err(ModelLoadError::MaterialIndex(def.faces[i].material, def.materials.len()));
        }
        i = i + 1;
    }
    Ok(())
}

/// Integer mesh data of a model: index buffers and bounding box.
pub struct ModelGeometry {
    pub buffers: MeshIndexBuffers,
    pub bounds: BBox,
}

/// Validate the material indices, then compute the mesh's index buffers and
/// the model's bounding box (the empty box for a model without faces).
pub fn prepare_model(def: &ModelDef) -> (r: Result<ModelGeometry, ModelLoadError>)
    requires
        4 * def.faces@.len() <= u32::MAX,
        forall|i: int| 0 <= i < def.faces@.len() ==> face_fits(#[trigger] def.faces@[i]),
    ensures
        r is Err <==> first_bad_material(*def, def.faces@.len() as int) is Some,
        r matches Err(ModelLoadError::MaterialIndex(m, n)) ==> {
            &&& first_bad_material(*def, def.faces@.len() as int) matches Some(j) && m == def.faces@[j].material
            &&& n == def.materials@.len()
        },
        r matches Ok(g) ==> {
            &&& forall|i: int| 0 <= i < def.faces@.len() ==> (#[trigger] def.faces@[i]).material < def.materials@.len()
            &&& g.buffers.indices@.len() == 6 * def.faces@.len()
            &&& g.buffers.material_groups@.len() == def.faces@.len()
            &&& forall|i: int, t: int|
                0 <= i < def.faces@.len() && 0 <= t < 6 ==> #[trigger] g.buffers.indices@[6 * i + t] == 4 * i
                    + spec_face_triangles(def.faces@[i].plane)[t]
            &&& forall|i: int|
                0 <= i < def.faces@.len() ==> #[trigger] g.buffers.material_groups@[i] == (
                    def.faces@[i].material,
                    (4 * i) as u32,
                    (4 * i + 4) as u32,
                )
            &&& def.faces@.len() == 0 ==> g.bounds.min@ == seq![i32::MAX, i32::MAX, i32::MAX]
                && g.bounds.max@ == seq![i32::MIN, i32::MIN, i32::MIN]
            &&& def.faces@.len() > 0 ==> tight_box(def.faces@, def.faces@.len() as int, 0, g.bounds)
        },
{
    match validate_materials(def) {
        Err(e) => Err(e),
        Ok(()) => {
            proof {
                lemma_no_bad_material(*def, def.faces@.len() as int);
            }
            let buffers = build_mesh_indices(def);
            let bounds = match def.bounds() {
                Some(b) => b,
                None => BBox::empty(),
            };
            Ok(ModelGeometry { buffers, bounds })
        },
    }
}

} // verus!
