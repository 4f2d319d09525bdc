//! Verified core of a small CAD stack: document model and undo history,
//! triangle meshes and face picking, a reference geometry kernel, the
//! FreeCAD document reader and the interaction rules of the modelling UI.

pub mod document;
pub mod text;
pub mod history;
pub mod ids;
pub mod mesh;
pub mod prim;
pub mod selection;
pub mod kernel;
pub mod ux;
pub mod io;
