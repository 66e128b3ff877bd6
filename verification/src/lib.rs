pub mod material_mgr;
pub mod mesh;
pub mod frame;
pub mod path;
