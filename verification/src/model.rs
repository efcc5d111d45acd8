//! Face-list voxel models: the schema, its geometry helpers and the voxel
//! grid converter.

pub mod schema;
pub mod mesher;
pub mod convert;
pub mod loader;
