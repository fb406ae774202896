pub mod cli;
pub mod ecosystems;
pub mod graph;
pub mod inspectors;
pub mod platform;
pub mod resolver;
pub mod text;
