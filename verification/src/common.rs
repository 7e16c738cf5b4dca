pub mod cli;
pub mod trunc;
