pub mod registry;
pub mod runner;
pub mod text;
