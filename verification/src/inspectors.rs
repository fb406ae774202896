pub mod environment;
pub mod executable;
pub mod finding;
pub mod process;
pub mod project;
pub mod services;
