//! One tick of a program: bind what the host offers, evaluate, and keep the
//! commands for the systems that apply them.

use crate::components::program::{parsed_view, Program};
use crate::interpreter::evaluator::{evaluation, Evaluation, Evaluator, DEFAULT_BUDGET};
use crate::interpreter::ast::StatementModel;
use crate::interpreter::host::{is_float_unit, unit_of, FloatRequest, FloatUnit};
use crate::interpreter::object::{
    bound, cleared, EnvironmentModel, Object, ObjectModel, RuntimeError,
};
use crate::setup_environment::{bind_host_calls, with_host_calls};
use vstd::prelude::*;

verus! {

/// The system that runs the programs of the crafts, once a tick.
pub struct InterpreterSystem {}

/// What the craft reads in one tick. The time is in milliseconds since the
/// mission began; the others are floats, as bit patterns.
pub struct Readings {
    pub mission_time: isize,
    /// The distance to the nearest source of gravity.
    pub altitude: u64,
    /// The angle to that source, in degrees.
    pub angle: u64,
    /// In degrees per second.
    pub angular_velocity: u64,
}

/// The environment in which a tick begins: the innermost scope holds the host
/// calls and the readings and nothing else; the scopes around it stay.
pub open spec fn tick_environment(
    readings: Readings,
    environment: EnvironmentModel,
) -> EnvironmentModel {
    bound(
        bound(
            bound(
                bound(
                    with_host_calls(cleared(environment)),
                    "TIME"@,
                    ObjectModel::Integer(readings.mission_time),
                ),
                "ALTITUDE"@,
                ObjectModel::Float(readings.altitude),
            ),
            "ANGLE"@,
            ObjectModel::Float(readings.angle),
        ),
        "ANG_VEL"@,
        ObjectModel::Float(readings.angular_velocity),
    )
}

/// What a tick leaves: the evaluation of the program in the tick's
/// environment, or, where the source did not parse, that environment and no
/// command.
pub open spec fn tick(
    unit: FloatUnit,
    program: Result<Seq<StatementModel>, Seq<Seq<char>>>,
    readings: Readings,
    environment: EnvironmentModel,
) -> Evaluation {
    match program {
        Ok(statements) => evaluation(
            unit,
            statements,
            tick_environment(readings, environment),
            DEFAULT_BUDGET as nat,
        ),
        Err(_) => Evaluation {
            value: ObjectModel::Null,
            environment: tick_environment(readings, environment),
            commands: Seq::empty(),
        },
    }
}

/// The error of a tick, if its value is one.
pub open spec fn tick_error(value: ObjectModel) -> Option<Seq<char>> {
    match value {
        ObjectModel::Error(message) => Some(message),
        _ => None,
    }
}

/// The message of an error that may be missing.
pub open spec fn error_message(error: Option<RuntimeError>) -> Option<Seq<char>> {
    match error {
        Some(error) => Some(error.message@),
        None => None,
    }
}

impl InterpreterSystem {
    pub fn new() -> Self {
        InterpreterSystem {  }
    }

    /// Runs one tick of a program. Its environment is seeded anew, its
    /// commands are replaced by those of this tick, and an evaluation error is
    /// handed back for the host to show; it stops nothing.
    pub fn update<H: Fn(FloatRequest) -> u64>(
        &mut self,
        program: &mut Program,
        readings: &Readings,
        host: &H,
    ) -> (error: Option<RuntimeError>)
        requires
            is_float_unit(host),
        ensures
            ({
                let left = tick(
                    unit_of(host),
                    parsed_view(old(program).program),
                    *readings,
                    old(program).environment@,
                );
                &&& final(program).environment@ == left.environment
                &&& final(program).commands@ == left.commands
                &&& error_message(error) == tick_error(left.value)
            }),
            parsed_view(final(program).program) == parsed_view(old(program).program),
    {
        let mut evaluator = Evaluator::new();
        program.environment.clear();
        bind_host_calls(&mut program.environment);
        program.environment.set("TIME".to_owned(), Object::Integer(readings.mission_time));
        program.environment.set("ALTITUDE".to_owned(), Object::Float(readings.altitude));
        program.environment.set("ANGLE".to_owned(), Object::Float(readings.angle));
        program.environment.set("ANG_VEL".to_owned(), Object::Float(readings.angular_velocity));
        let result = match &program.program {
            Ok(parsed) => evaluator.eval(parsed, &mut program.environment, host),
            Err(_) => Object::Null,
        };
        program.commands = evaluator.commands;
        match result {
            Object::Error(message) => Some(RuntimeError::new(message)),
            _ => None,
        }
    }
}

} // verus!
