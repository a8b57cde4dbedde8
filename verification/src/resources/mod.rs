pub mod input;
pub mod program_environment;
