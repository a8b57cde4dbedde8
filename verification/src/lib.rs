//! A small dynamically typed scripting language for autopilot programs, and
//! what a host needs to run one program a tick.
//!
//! The language is in [`interpreter`]: a lexer, a parser by recursive descent
//! with operator precedence, the syntax tree, run-time values with lexically
//! scoped environments and closures, and a tree-walking evaluator. A program
//! acts on its host only through commands: a host call in the program adds a
//! command to a list, and the host applies the list when the evaluation is
//! over.
//!
//! Every function is verified against a mathematical model of what it
//! computes: the lexer against `scan`, the parser against the grammar that
//! begins at `program_loop`, the evaluator against `evaluation`. Floats are
//! the exception. The library holds a float as the bit pattern of a double
//! and never computes with it; the host hands in a function that does (see
//! [`interpreter::host`]), and the model of the evaluator is stated over the
//! answers of that function.
//!
//! Around the language stand the pieces of a tick: the program that a craft
//! carries ([`components`]), what is bound before it runs
//! ([`setup_environment`]), the systems that run it and read its commands
//! ([`systems`]), and the keys and the variables that the host shows
//! ([`resources`]).

pub mod components;
pub mod interpreter;
pub mod resources;
pub mod setup_environment;
pub mod systems;
