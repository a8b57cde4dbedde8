//! A program as its craft carries it: the parsed source, the environment it
//! runs in, and the commands of its last run.

use crate::interpreter::ast::{names_view, Program as ParsedProgram, StatementModel};
use crate::interpreter::lexer::{scan_all, Lexer};
use crate::interpreter::object::{Command, Environment, EnvironmentModel};
use crate::interpreter::parser::{program_loop, Cursor, Parser};
use vstd::prelude::*;

verus! {

/// The program of one craft.
pub struct Program {
    /// The parsed source, or the errors that parsing it gave.
    pub program: Result<ParsedProgram, Vec<String>>,
    pub environment: Environment,
    pub commands: Vec<Command>,
}

/// The mathematical value of a parse result: the statements, or the errors.
pub open spec fn parsed_view(program: Result<ParsedProgram, Vec<String>>) -> Result<
    Seq<StatementModel>,
    Seq<Seq<char>>,
> {
    match program {
        Ok(program) => Ok(program@),
        Err(errors) => Err(names_view(&errors)),
    }
}

/// What a source text parses to: its statements if parsing found no error,
/// and the errors otherwise.
pub open spec fn parse(input: Seq<char>) -> Result<Seq<StatementModel>, Seq<Seq<char>>> {
    let (statements, cursor) = program_loop(
        scan_all(input, 0),
        Cursor { position: 0, errors: Seq::empty() },
        Seq::empty(),
    );
    if cursor.errors.len() == 0 {
        Ok(statements)
    } else {
        Err(cursor.errors)
    }
}

impl Program {
    /// A craft without a program: nothing parsed, nothing bound, no command.
    pub fn new() -> (r: Self)
        ensures
            parsed_view(r.program) == Err::<Seq<StatementModel>, Seq<Seq<char>>>(Seq::empty()),
            r.environment@ == (EnvironmentModel { store: Map::empty(), outer: None }),
            r.commands@ == Seq::<Command>::empty(),
    {
        let errors: Vec<String> = Vec::new();
        assert(names_view(&errors) =~= Seq::<Seq<char>>::empty());
        Program { program: Err(errors), environment: Environment::new(), commands: Vec::new() }
    }

    /// Replaces the program by what `input` parses to. The environment and the
    /// commands stay.
    pub fn update(&mut self, input: String)
        ensures
            parsed_view(final(self).program) == parse(input@),
            final(self).environment == old(self).environment,
            final(self).commands == old(self).commands,
    {
        let lexer = Lexer::new(input.as_str());
        let mut parser = Parser::new(lexer);
        let program = parser.parse_program();
        let errors = parser.errors();
        if errors.len() == 0 {
            self.program = Ok(program);
        } else {
            self.program = Err(errors);
        }
    }
}

} // verus!
