pub mod interpreter;
pub mod thrust;
