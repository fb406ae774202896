pub mod path;
pub mod shim;
