pub mod conflict;
pub mod installation;
pub mod projects;
pub mod report;
pub mod version;

pub use installation::{detect_installation_source, InstallationInfo};
pub use version::query_version;
