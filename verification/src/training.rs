pub mod recorder;
pub mod runner;
