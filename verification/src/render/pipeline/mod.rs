//! Pipeline bookkeeping: slot indices per pipeline type, shared render-pass
//! requirements, and the mesh arena's handles.

pub mod mesh;
pub mod pass;
pub mod registry;
pub mod slot;
