//! The evaluator: walks a syntax tree against an environment and gives a
//! value, the environment as the program left it, and the commands that the
//! program's host calls made, in the order in which they were made.

use crate::interpreter::ast::{
    expressions_view, names_view, operator_text, BlockStatement, Expression, ExpressionModel,
    Operator, Program, Statement, StatementModel,
};
use crate::interpreter::host::{
    ask, is_float_unit, unit_of, FloatRequest, FloatRequestModel, FloatUnit,
};
use crate::interpreter::object::{
    bound, extended, kind_name, lookup, objects_view, Command, CommandFn, Environment,
    EnvironmentModel, Object, ObjectModel,
};
use crate::interpreter::text::{decimal, push_count};
use vstd::prelude::*;

verus! {

/// What an evaluation leaves: the value, the environment, and the commands
/// made so far.
pub struct Evaluation {
    pub value: ObjectModel,
    pub environment: EnvironmentModel,
    pub commands: Seq<Command>,
}

/// What evaluating a list of expressions leaves: the values, or the error that
/// cut the list short.
pub struct Evaluations {
    pub values: Result<Seq<ObjectModel>, ObjectModel>,
    pub environment: EnvironmentModel,
    pub commands: Seq<Command>,
}

/// `Null` and `false` count as false; every other value, zero too, counts as
/// true.
pub open spec fn truthy(value: ObjectModel) -> bool {
    match value {
        ObjectModel::Null => false,
        ObjectModel::Boolean(value) => value,
        _ => true,
    }
}

/// The quotient of two integers, rounded toward zero.
pub open spec fn truncated_quotient(a: int, b: int) -> int {
    if a == 0 {
        0
    } else if a > 0 && b > 0 {
        a / b
    } else if a < 0 && b < 0 {
        (a * -1) / (b * -1)
    } else if a < 0 {
        ((a * -1) / b) * -1
    } else {
        (a / (b * -1)) * -1
    }
}

/// Whether a number lies within the integer type of the language.
pub open spec fn fits(value: int) -> bool {
    isize::MIN <= value <= isize::MAX
}

/// The error of an integer result that does not fit.
pub open spec fn overflow_error() -> ObjectModel {
    ObjectModel::Error("integer overflow"@)
}

/// The message for a prefix operator that does not take its operand.
pub open spec fn unknown_prefix_text(operator: Operator, operand: ObjectModel) -> Seq<char> {
    "unknown operator: "@ + operator_text(operator) + kind_name(operand)
}

/// The message for an infix operator that two values of one type do not take.
pub open spec fn unknown_infix_text(kind: Seq<char>, operator: Operator) -> Seq<char> {
    "unknown operator: "@ + kind + " "@ + operator_text(operator) + " "@ + kind
}

/// The message for an infix operator between values of two types.
pub open spec fn type_mismatch_text(
    left: ObjectModel,
    operator: Operator,
    right: ObjectModel,
) -> Seq<char> {
    "type mismatch: "@ + kind_name(left) + " "@ + operator_text(operator) + " "@ + kind_name(
        right,
    )
}

/// The message for a name that no scope binds.
pub open spec fn identifier_not_found_text(name: Seq<char>) -> Seq<char> {
    "identifier not found: "@ + name
}

/// The message for a call with the wrong number of arguments.
pub open spec fn wrong_arity_text(got: nat, want: nat) -> Seq<char> {
    "wrong number of arguments. got="@ + decimal(got) + ", want="@ + decimal(want)
}

/// The message for a host call whose argument is no number.
pub open spec fn unsupported_argument_text(argument: ObjectModel) -> Seq<char> {
    "argument not supported, got "@ + kind_name(argument)
}

/// What a prefix operator makes of a value that is no error. `!` gives the
/// opposite of the value's truth; `-` negates a number.
pub open spec fn prefix_value(
    unit: FloatUnit,
    operator: Operator,
    operand: ObjectModel,
) -> ObjectModel {
    match operator {
        Operator::Not => ObjectModel::Boolean(!truthy(operand)),
        Operator::Minus => match operand {
            ObjectModel::Integer(value) => if fits(-value) {
                ObjectModel::Integer((-value) as isize)
            } else {
                overflow_error()
            },
            ObjectModel::Float(value) => ObjectModel::Float(unit(FloatRequestModel::Negate(value))),
            _ => ObjectModel::Error(unknown_prefix_text(operator, operand)),
        },
        _ => ObjectModel::Error(unknown_prefix_text(operator, operand)),
    }
}

/// An infix operator between two integers. A result outside the integer type
/// and a division by zero are errors.
pub open spec fn integer_infix_value(operator: Operator, left: isize, right: isize) -> ObjectModel {
    match operator {
        Operator::Plus => if fits(left + right) {
            ObjectModel::Integer((left + right) as isize)
        } else {
            overflow_error()
        },
        Operator::Minus => if fits(left - right) {
            ObjectModel::Integer((left - right) as isize)
        } else {
            overflow_error()
        },
        Operator::Multiply => if fits(left * right) {
            ObjectModel::Integer((left * right) as isize)
        } else {
            overflow_error()
        },
        Operator::Divide => if right == 0 {
            ObjectModel::Error("division by zero"@)
        } else if fits(truncated_quotient(left as int, right as int)) {
            ObjectModel::Integer(truncated_quotient(left as int, right as int) as isize)
        } else {
            overflow_error()
        },
        Operator::LessThan => ObjectModel::Boolean(left < right),
        Operator::GreaterThan => ObjectModel::Boolean(left > right),
        Operator::Equal => ObjectModel::Boolean(left == right),
        Operator::NotEqual => ObjectModel::Boolean(left != right),
        Operator::Not => ObjectModel::Error(unknown_infix_text("integer"@, operator)),
    }
}

/// An infix operator between two floats: the float unit computes, and a
/// comparison that it answers with zero is false.
pub open spec fn float_infix_value(
    unit: FloatUnit,
    operator: Operator,
    left: u64,
    right: u64,
) -> ObjectModel {
    match operator {
        Operator::Not => ObjectModel::Error(unknown_infix_text("float"@, operator)),
        _ => float_answer_value(
            operator,
            unit(FloatRequestModel::Binary { operator, left, right }),
        ),
    }
}

/// What the answer of the float unit to an infix operation means: a float for
/// an arithmetic operator, a truth value for a comparison.
pub open spec fn float_answer_value(operator: Operator, answer: u64) -> ObjectModel {
    match operator {
        Operator::Plus | Operator::Minus | Operator::Multiply | Operator::Divide => {
            ObjectModel::Float(answer)
        },
        _ => ObjectModel::Boolean(answer != 0),
    }
}

/// An infix operator between two truth values: only the two equalities.
pub open spec fn boolean_infix_value(operator: Operator, left: bool, right: bool) -> ObjectModel {
    match operator {
        Operator::Equal => ObjectModel::Boolean(left == right),
        Operator::NotEqual => ObjectModel::Boolean(left != right),
        _ => ObjectModel::Error(unknown_infix_text("boolean"@, operator)),
    }
}

/// What an infix operator makes of two values that are no errors. Both must
/// be of one type: integers, floats or truth values.
pub open spec fn infix_value(
    unit: FloatUnit,
    operator: Operator,
    left: ObjectModel,
    right: ObjectModel,
) -> ObjectModel {
    match (left, right) {
        (ObjectModel::Integer(left), ObjectModel::Integer(right)) => integer_infix_value(
            operator,
            left,
            right,
        ),
        (ObjectModel::Boolean(left), ObjectModel::Boolean(right)) => boolean_infix_value(
            operator,
            left,
            right,
        ),
        (ObjectModel::Float(left), ObjectModel::Float(right)) => float_infix_value(
            unit,
            operator,
            left,
            right,
        ),
        _ => ObjectModel::Error(type_mismatch_text(left, operator, right)),
    }
}

/// The command that a host call makes of a number.
pub open spec fn command_of(function: CommandFn, number: u64) -> Command {
    match function {
        CommandFn::SetThrust => Command::SetThrust { throttle: number },
        CommandFn::SetTorque => Command::SetTorque { force: number },
    }
}

/// What a host call gives for a list of arguments: a command for exactly one
/// number, an error that names the count or the type otherwise.
pub open spec fn host_call(
    unit: FloatUnit,
    function: CommandFn,
    arguments: Seq<ObjectModel>,
) -> Result<Command, Seq<char>> {
    if arguments.len() != 1 {
        Err(wrong_arity_text(arguments.len(), 1))
    } else {
        match arguments[0] {
            ObjectModel::Integer(value) => Ok(
                command_of(function, unit(FloatRequestModel::FromInteger(value))),
            ),
            ObjectModel::Float(value) => Ok(command_of(function, value)),
            other => Err(unsupported_argument_text(other)),
        }
    }
}

/// Binds parameters to arguments by position, from the `i`-th on. Parameters
/// without an argument stay unbound.
pub open spec fn bind_arguments(
    environment: EnvironmentModel,
    parameters: Seq<Seq<char>>,
    arguments: Seq<ObjectModel>,
    i: int,
) -> EnvironmentModel
    decreases arguments.len() - i,
{
    if 0 <= i < arguments.len() && i < parameters.len() {
        bind_arguments(
            bound(environment, parameters[i], arguments[i]),
            parameters,
            arguments,
            i + 1,
        )
    } else {
        environment
    }
}

/// The value of an expression. An error in a part is the value of the whole,
/// and nothing behind it is evaluated. `budget` is how deeply function calls
/// may still nest.
pub open spec fn eval_expression(
    unit: FloatUnit,
    expression: ExpressionModel,
    environment: EnvironmentModel,
    commands: Seq<Command>,
    budget: nat,
) -> Evaluation
    decreases budget, expression, 0int,
{
    match expression {
        ExpressionModel::Int(value) => Evaluation {
            value: ObjectModel::Integer(value),
            environment,
            commands,
        },
        ExpressionModel::Float(text) => Evaluation {
            value: ObjectModel::Float(unit(FloatRequestModel::Literal(text))),
            environment,
            commands,
        },
        ExpressionModel::Boolean(value) => Evaluation {
            value: ObjectModel::Boolean(value),
            environment,
            commands,
        },
        ExpressionModel::Identifier(name) => Evaluation {
            value: match lookup(environment, name) {
                Some(value) => value,
                None => ObjectModel::Error(identifier_not_found_text(name)),
            },
            environment,
            commands,
        },
        ExpressionModel::Prefix { operator, right } => {
            let operand = eval_expression(unit, *right, environment, commands, budget);
            if operand.value is Error {
                operand
            } else {
                Evaluation { value: prefix_value(unit, operator, operand.value), ..operand }
            }
        },
        ExpressionModel::Infix { operator, left, right } => {
            let first = eval_expression(unit, *left, environment, commands, budget);
            if first.value is Error {
                first
            } else {
                let second = eval_expression(
                    unit,
                    *right,
                    first.environment,
                    first.commands,
                    budget,
                );
                if second.value is Error {
                    second
                } else {
                    Evaluation {
                        value: infix_value(unit, operator, first.value, second.value),
                        ..second
                    }
                }
            }
        },
        ExpressionModel::If { condition, consequence, alternative } => {
            let tested = eval_expression(unit, *condition, environment, commands, budget);
            if tested.value is Error {
                tested
            } else if truthy(tested.value) {
                eval_block(
                    unit,
                    consequence,
                    0,
                    tested.environment,
                    tested.commands,
                    ObjectModel::Null,
                    budget,
                )
            } else {
                match alternative {
                    Some(alternative) => eval_block(
                        unit,
                        alternative,
                        0,
                        tested.environment,
                        tested.commands,
                        ObjectModel::Null,
                        budget,
                    ),
                    None => Evaluation { value: ObjectModel::Null, ..tested },
                }
            }
        },
        ExpressionModel::Function { parameters, body } => Evaluation {
            value: ObjectModel::Function { parameters, body, environment },
            environment,
            commands,
        },
        ExpressionModel::Call { function, arguments } => {
            let callee = eval_expression(unit, *function, environment, commands, budget);
            if callee.value is Error {
                callee
            } else {
                let evaluated = eval_expressions(
                    unit,
                    arguments,
                    0,
                    callee.environment,
                    callee.commands,
                    Seq::empty(),
                    budget,
                );
                match evaluated.values {
                    Err(error) => Evaluation {
                        value: error,
                        environment: evaluated.environment,
                        commands: evaluated.commands,
                    },
                    Ok(values) => match callee.value {
                        ObjectModel::Function { parameters, body, environment: captured } => {
                            if values.len() > parameters.len() {
                                Evaluation {
                                    value: ObjectModel::Error(
                                        wrong_arity_text(values.len(), parameters.len()),
                                    ),
                                    environment: evaluated.environment,
                                    commands: evaluated.commands,
                                }
                            } else if budget == 0 {
                                Evaluation {
                                    value: ObjectModel::Error("evaluation budget exceeded"@),
                                    environment: evaluated.environment,
                                    commands: evaluated.commands,
                                }
                            } else {
                                let inside = eval_block(
                                    unit,
                                    body,
                                    0,
                                    bind_arguments(extended(captured), parameters, values, 0),
                                    evaluated.commands,
                                    ObjectModel::Null,
                                    (budget - 1) as nat,
                                );
                                Evaluation {
                                    value: match inside.value {
                                        ObjectModel::Return(value) => *value,
                                        other => other,
                                    },
                                    environment: evaluated.environment,
                                    commands: inside.commands,
                                }
                            }
                        },
                        ObjectModel::Command { function } => match host_call(
                            unit,
                            function,
                            values,
                        ) {
                            Ok(command) => Evaluation {
                                value: ObjectModel::Null,
                                environment: evaluated.environment,
                                commands: evaluated.commands.push(command),
                            },
                            Err(message) => Evaluation {
                                value: ObjectModel::Error(message),
                                environment: evaluated.environment,
                                commands: evaluated.commands,
                            },
                        },
                        _ => Evaluation {
                            value: ObjectModel::Null,
                            environment: evaluated.environment,
                            commands: evaluated.commands,
                        },
                    },
                }
            }
        },
    }
}

/// The values of the expressions from the `i`-th on, from left to right,
/// behind `values`. The first error ends the list.
pub open spec fn eval_expressions(
    unit: FloatUnit,
    expressions: Seq<ExpressionModel>,
    i: int,
    environment: EnvironmentModel,
    commands: Seq<Command>,
    values: Seq<ObjectModel>,
    budget: nat,
) -> Evaluations
    decreases budget, expressions, expressions.len() - i,
{
    if 0 <= i < expressions.len() {
        let next = eval_expression(unit, expressions[i], environment, commands, budget);
        if next.value is Error {
            Evaluations {
                values: Err(next.value),
                environment: next.environment,
                commands: next.commands,
            }
        } else {
            eval_expressions(
                unit,
                expressions,
                i + 1,
                next.environment,
                next.commands,
                values.push(next.value),
                budget,
            )
        }
    } else {
        Evaluations { values: Ok(values), environment, commands }
    }
}

/// The value of a statement. `let` binds the value in the innermost scope and
/// gives it; `return` wraps it, unless it is an error.
pub open spec fn eval_statement(
    unit: FloatUnit,
    statement: StatementModel,
    environment: EnvironmentModel,
    commands: Seq<Command>,
    budget: nat,
) -> Evaluation
    decreases budget, statement, 0int,
{
    match statement {
        StatementModel::Return { expression } => {
            let returned = eval_expression(unit, expression, environment, commands, budget);
            if returned.value is Error {
                returned
            } else {
                Evaluation { value: ObjectModel::Return(Box::new(returned.value)), ..returned }
            }
        },
        StatementModel::Expression { expression } => eval_expression(
            unit,
            expression,
            environment,
            commands,
            budget,
        ),
        StatementModel::Let { identifier, expression } => {
            let assigned = eval_expression(unit, expression, environment, commands, budget);
            if assigned.value is Error {
                assigned
            } else {
                Evaluation {
                    environment: bound(assigned.environment, identifier, assigned.value),
                    ..assigned
                }
            }
        },
    }
}

/// The value of the statements of a block from the `i`-th on: that of the last
/// statement, or the first `Return` or `Error`, which ends the block and is
/// handed on as it is. `last` is the value so far.
pub open spec fn eval_block(
    unit: FloatUnit,
    statements: Seq<StatementModel>,
    i: int,
    environment: EnvironmentModel,
    commands: Seq<Command>,
    last: ObjectModel,
    budget: nat,
) -> Evaluation
    decreases budget, statements, statements.len() - i,
{
    if 0 <= i < statements.len() {
        let next = eval_statement(unit, statements[i], environment, commands, budget);
        if next.value is Return || next.value is Error {
            next
        } else {
            eval_block(
                unit,
                statements,
                i + 1,
                next.environment,
                next.commands,
                next.value,
                budget,
            )
        }
    } else {
        Evaluation { value: last, environment, commands }
    }
}

/// The value inside every `Return` wrapper around it.
pub open spec fn unwrapped(value: ObjectModel) -> ObjectModel
    decreases value,
{
    match value {
        ObjectModel::Return(inner) => unwrapped(*inner),
        other => other,
    }
}

/// The value of the statements of a program from the `i`-th on: that of the
/// last statement, the value of the first `return` without its wrapper, or
/// the first error.
pub open spec fn eval_program(
    unit: FloatUnit,
    statements: Seq<StatementModel>,
    i: int,
    environment: EnvironmentModel,
    commands: Seq<Command>,
    last: ObjectModel,
    budget: nat,
) -> Evaluation
    decreases statements.len() - i,
{
    if 0 <= i < statements.len() {
        let next = eval_statement(unit, statements[i], environment, commands, budget);
        match next.value {
            ObjectModel::Return(value) => Evaluation { value: unwrapped(*value), ..next },
            ObjectModel::Error(_) => next,
            _ => eval_program(
                unit,
                statements,
                i + 1,
                next.environment,
                next.commands,
                next.value,
                budget,
            ),
        }
    } else {
        Evaluation { value: last, environment, commands }
    }
}

/// What a program evaluates to in an environment: it starts with no commands
/// and no value.
pub open spec fn evaluation(
    unit: FloatUnit,
    program: Seq<StatementModel>,
    environment: EnvironmentModel,
    budget: nat,
) -> Evaluation {
    eval_program(unit, program, 0, environment, Seq::empty(), ObjectModel::Null, budget)
}

/// Whether a value, an environment and a list of commands are what an
/// evaluation leaves.
pub open spec fn leaves(
    value: ObjectModel,
    environment: EnvironmentModel,
    commands: Seq<Command>,
    evaluation: Evaluation,
) -> bool {
    &&& value == evaluation.value
    &&& environment == evaluation.environment
    &&& commands == evaluation.commands
}

/// The mathematical value of what a host call gives.
pub open spec fn command_result(r: Result<Command, String>) -> Result<Command, Seq<char>> {
    match r {
        Ok(command) => Ok(command),
        Err(message) => Err(message@),
    }
}

/// The mathematical value of a list of values, or of the error in its place.
pub open spec fn objects_result(r: Result<Vec<Object>, Object>) -> Result<
    Seq<ObjectModel>,
    ObjectModel,
> {
    match r {
        Ok(values) => Ok(objects_view(&values)),
        Err(error) => Err(error@),
    }
}

fn push_object(objects: &mut Vec<Object>, object: Object)
    ensures
        objects_view(final(objects)) == objects_view(old(objects)).push(object@),
{
    objects.push(object);
    assert(objects_view(objects) =~= objects_view(old(objects)).push(object@));
}

fn wrong_arity_message(got: usize, want: usize) -> (message: String)
    ensures
        message@ == wrong_arity_text(got as nat, want as nat),
{
    let mut message = "wrong number of arguments. got=".to_owned();
    push_count(&mut message, got);
    message.append(", want=");
    push_count(&mut message, want);
    message
}

fn unknown_infix_message(kind: &str, operator: Operator) -> (message: String)
    ensures
        message@ == unknown_infix_text(kind@, operator),
{
    let mut message = "unknown operator: ".to_owned();
    message.append(kind);
    message.append(" ");
    message.append(operator.symbol());
    message.append(" ");
    message.append(kind);
    message
}

/// How deeply function calls may nest unless the host says otherwise.
pub const DEFAULT_BUDGET: usize = 200;

impl CommandFn {
    /// The command for a number.
    pub fn command(&self, number: u64) -> (command: Command)
        ensures
            command == command_of(*self, number),
    {
        match self {
            CommandFn::SetThrust => Command::SetThrust { throttle: number },
            CommandFn::SetTorque => Command::SetTorque { force: number },
        }
    }

    /// Makes the call: a command for exactly one number, and an error that
    /// names the count or the type of the arguments otherwise.
    pub fn call<H: Fn(FloatRequest) -> u64>(
        &self,
        arguments: &Vec<Object>,
        host: &H,
    ) -> (r: Result<Command, String>)
        requires
            is_float_unit(host),
        ensures
            command_result(r) == host_call(unit_of(host), *self, objects_view(arguments)),
    {
        if arguments.len() != 1 {
            return Err(wrong_arity_message(arguments.len(), 1));
        }
        assert(objects_view(arguments)[0] == arguments[0]@);
        match &arguments[0] {
            Object::Integer(value) => Ok(
                self.command(ask(host, FloatRequest::FromInteger(*value))),
            ),
            Object::Float(value) => Ok(self.command(*value)),
            other => {
                let mut message = "argument not supported, got ".to_owned();
                message.append(other.name().as_str());
                Err(message)
            },
        }
    }
}

/// The evaluator of one program run. `commands` holds what the last call of
/// `eval` left.
pub struct Evaluator {
    pub commands: Vec<Command>,
    /// How deeply function calls may nest.
    pub budget: usize,
}

impl Evaluator {
    /// An evaluator with the default budget.
    pub fn new() -> (evaluator: Evaluator)
        ensures
            evaluator.commands@ == Seq::<Command>::empty(),
            evaluator.budget == DEFAULT_BUDGET,
    {
        Evaluator { commands: Vec::new(), budget: DEFAULT_BUDGET }
    }

    /// An evaluator that lets function calls nest `budget` deep.
    pub fn with_budget(budget: usize) -> (evaluator: Evaluator)
        ensures
            evaluator.commands@ == Seq::<Command>::empty(),
            evaluator.budget == budget,
    {
        Evaluator { commands: Vec::new(), budget }
    }

    /// Evaluates a program in an environment. The commands of an earlier call
    /// are dropped first; what is in `commands` afterwards was made by this
    /// call, in the order of the host calls of the program. The value is never
    /// a `Return`: that wrapper ends here.
    #[verifier::rlimit(40)]
    pub fn eval<H: Fn(FloatRequest) -> u64>(
        &mut self,
        program: &Program,
        environment: &mut Environment,
        host: &H,
    ) -> (result: Object)
        requires
            is_float_unit(host),
        ensures
            leaves(
                result@,
                final(environment)@,
                final(self).commands@,
                evaluation(unit_of(host), program@, old(environment)@, old(self).budget as nat),
            ),
            final(self).budget == old(self).budget,
            !(result@ is Return),
    {
        proof {
            lemma_return_never_escapes(
                unit_of(host),
                program@,
                0,
                environment@,
                Seq::empty(),
                ObjectModel::Null,
                self.budget as nat,
            );
        }
        // Reset commands each time eval is called so we don't keep commands
        // from previous executions.
        self.commands = Vec::new();
        let budget = self.budget;
        let mut result = Object::Null;
        let ghost unit = unit_of(host);
        let ghost start = environment@;
        let mut i: usize = 0;
        while i < program.statements.len()
            invariant
                0 <= i <= program.statements.len(),
                is_float_unit(host),
                unit == unit_of(host),
                self.budget == budget,
                budget == old(self).budget,
                start == old(environment)@,
                !(evaluation(unit, program@, start, budget as nat).value is Return),
                eval_program(
                    unit,
                    program@,
                    i as int,
                    environment@,
                    self.commands@,
                    result@,
                    budget as nat,
                ) == evaluation(unit, program@, start, budget as nat),
            decreases program.statements.len() - i,
        {
            assert(program@[i as int] == program.statements[i as int]@);
            result = self.eval_statement(&program.statements[i], environment, host, budget);
            match result {
                Object::Return(return_value) => {
                    return unwrap_returns(*return_value);
                },
                Object::Error(_) => {
                    return result;
                },
                _ => (),
            }
            i += 1;
        }
        result
    }

    fn eval_statement<H: Fn(FloatRequest) -> u64>(
        &mut self,
        statement: &Statement,
        environment: &mut Environment,
        host: &H,
        budget: usize,
    ) -> (result: Object)
        requires
            is_float_unit(host),
        ensures
            leaves(
                result@,
                final(environment)@,
                final(self).commands@,
                eval_statement(
                    unit_of(host),
                    statement@,
                    old(environment)@,
                    old(self).commands@,
                    budget as nat,
                ),
            ),
            final(self).budget == old(self).budget,
        decreases budget, statement,
    {
        match statement {
            Statement::Return { expression } => {
                let return_value = self.eval_expression(expression, environment, host, budget);
                if let Object::Error(_) = return_value {
                    return return_value;
                }
                Object::Return(Box::new(return_value))
            },
            Statement::Expression { expression } => self.eval_expression(
                expression,
                environment,
                host,
                budget,
            ),
            Statement::Let { identifier, expression } => {
                let object = self.eval_expression(expression, environment, host, budget);
                if let Object::Error(_) = object {
                    return object;
                }
                environment.set(identifier.clone(), object.clone());
                object
            },
        }
    }

    #[verifier::rlimit(40)]
    fn eval_expression<H: Fn(FloatRequest) -> u64>(
        &mut self,
        expression: &Expression,
        environment: &mut Environment,
        host: &H,
        budget: usize,
    ) -> (result: Object)
        requires
            is_float_unit(host),
        ensures
            leaves(
                result@,
                final(environment)@,
                final(self).commands@,
                eval_expression(
                    unit_of(host),
                    expression@,
                    old(environment)@,
                    old(self).commands@,
                    budget as nat,
                ),
            ),
            final(self).budget == old(self).budget,
        decreases budget, expression,
    {
        match expression {
            Expression::Int(value) => Object::Integer(*value),
            Expression::Float(text) => {
                Object::Float(ask(host, FloatRequest::Literal(text.clone())))
            },
            Expression::Boolean(value) => Object::Boolean(*value),
            Expression::Prefix { operator, right } => {
                let object = self.eval_expression(right, environment, host, budget);
                if let Object::Error(_) = object {
                    return object;
                }
                self.eval_prefix_expression(*operator, object, host)
            },
            Expression::Infix { operator, left, right } => {
                let left = self.eval_expression(left, environment, host, budget);
                if let Object::Error(_) = left {
                    return left;
                }
                let right = self.eval_expression(right, environment, host, budget);
                if let Object::Error(_) = right {
                    return right;
                }
                self.eval_infix_expression(*operator, left, right, host)
            },
            Expression::If { condition, consequence, alternative } => {
                let condition = self.eval_expression(condition, environment, host, budget);
                if let Object::Error(_) = condition {
                    return condition;
                }
                if self.is_truthy(&condition) {
                    self.eval_block_statement(consequence, environment, host, budget)
                } else if let Some(alternative) = alternative {
                    self.eval_block_statement(alternative, environment, host, budget)
                } else {
                    Object::Null
                }
            },
            Expression::Identifier(name) => self.eval_identifier(name, environment),
            Expression::Function { parameters, body } => Object::Function {
                parameters: parameters.clone(),
                body: body.clone(),
                environment: environment.clone(),
            },
            Expression::Call { function, arguments } => {
                let function = self.eval_expression(function, environment, host, budget);
                if let Object::Error(_) = function {
                    return function;
                }
                let arguments = match self.eval_expressions(arguments, environment, host, budget) {
                    Ok(values) => values,
                    Err(error) => {
                        return error;
                    },
                };
                match function {
                    Object::Function { parameters, body, environment: captured } => {
                        if arguments.len() > parameters.len() {
                            return Object::Error(
                                wrong_arity_message(arguments.len(), parameters.len()),
                            );
                        }
                        if budget == 0 {
                            return Object::Error("evaluation budget exceeded".to_owned());
                        }
                        let mut extended_environment = self.extend_function_environment(
                            captured,
                            parameters,
                            arguments,
                        );
                        let evaluated = self.eval_block_statement(
                            &body,
                            &mut extended_environment,
                            host,
                            budget - 1,
                        );
                        match evaluated {
                            Object::Return(return_value) => *return_value,
                            _ => evaluated,
                        }
                    },
                    Object::Command { function } => match function.call(&arguments, host) {
                        Ok(command) => {
                            self.commands.push(command);
                            Object::Null
                        },
                        Err(error) => Object::Error(error),
                    },
                    _ => Object::Null,
                }
            },
        }
    }

    fn extend_function_environment(
        &mut self,
        environment: Environment,
        parameters: Vec<String>,
        arguments: Vec<Object>,
    ) -> (inner: Environment)
        requires
            arguments.len() <= parameters.len(),
        ensures
            inner@ == bind_arguments(
                extended(environment@),
                names_view(&parameters),
                objects_view(&arguments),
                0,
            ),
            *final(self) == *old(self),
    {
        let mut env = Environment::extend(environment);
        let ghost start = env@;
        let mut index: usize = 0;
        while index < arguments.len()
            invariant
                0 <= index <= arguments.len() <= parameters.len(),
                bind_arguments(
                    env@,
                    names_view(&parameters),
                    objects_view(&arguments),
                    index as int,
                ) == bind_arguments(start, names_view(&parameters), objects_view(&arguments), 0),
            decreases arguments.len() - index,
        {
            let param = parameters[index].clone();
            env.set(param, arguments[index].clone());
            index += 1;
        }
        env
    }

    #[verifier::rlimit(40)]
    fn eval_expressions<H: Fn(FloatRequest) -> u64>(
        &mut self,
        arguments: &Vec<Expression>,
        environment: &mut Environment,
        host: &H,
        budget: usize,
    ) -> (result: Result<Vec<Object>, Object>)
        requires
            is_float_unit(host),
        ensures
            ({
                let evaluated = eval_expressions(
                    unit_of(host),
                    expressions_view(arguments),
                    0,
                    old(environment)@,
                    old(self).commands@,
                    Seq::empty(),
                    budget as nat,
                );
                &&& objects_result(result) == evaluated.values
                &&& final(environment)@ == evaluated.environment
                &&& final(self).commands@ == evaluated.commands
            }),
            final(self).budget == old(self).budget,
        decreases budget, arguments,
    {
        let mut result: Vec<Object> = Vec::new();
        assert(objects_view(&result) =~= Seq::<ObjectModel>::empty());
        let ghost unit = unit_of(host);
        let ghost start_environment = environment@;
        let ghost start_commands = self.commands@;
        let mut i: usize = 0;
        while i < arguments.len()
            invariant
                0 <= i <= arguments.len(),
                is_float_unit(host),
                unit == unit_of(host),
                self.budget == old(self).budget,
                start_environment == old(environment)@,
                start_commands == old(self).commands@,
                eval_expressions(
                    unit,
                    expressions_view(arguments),
                    i as int,
                    environment@,
                    self.commands@,
                    objects_view(&result),
                    budget as nat,
                ) == eval_expressions(
                    unit,
                    expressions_view(arguments),
                    0,
                    start_environment,
                    start_commands,
                    Seq::empty(),
                    budget as nat,
                ),
            decreases arguments.len() - i,
        {
            assert(expressions_view(arguments)[i as int] == arguments[i as int]@);
            let evaluated = self.eval_expression(&arguments[i], environment, host, budget);
            if let Object::Error(_) = evaluated {
                return Err(evaluated);
            }
            push_object(&mut result, evaluated);
            i += 1;
        }
        Ok(result)
    }

    fn eval_identifier(&mut self, name: &String, environment: &Environment) -> (result: Object)
        ensures
            *final(self) == *old(self),
            result@ == match lookup(environment@, name@) {
                Some(value) => value,
                None => ObjectModel::Error(identifier_not_found_text(name@)),
            },
    {
        match environment.get(name.as_str()) {
            Some(value) => value,
            None => {
                let mut message = "identifier not found: ".to_owned();
                message.append(name.as_str());
                Object::Error(message)
            },
        }
    }

    fn eval_prefix_expression<H: Fn(FloatRequest) -> u64>(
        &mut self,
        operator: Operator,
        object: Object,
        host: &H,
    ) -> (result: Object)
        requires
            is_float_unit(host),
        ensures
            *final(self) == *old(self),
            result@ == prefix_value(unit_of(host), operator, object@),
    {
        match operator {
            Operator::Not => self.eval_not_operator_expression(object),
            Operator::Minus => self.eval_minus_prefix_operator(object, host),
            _ => {
                let mut message = "unknown operator: ".to_owned();
                message.append(operator.symbol());
                message.append(object.name().as_str());
                Object::Error(message)
            },
        }
    }

    fn eval_not_operator_expression(&mut self, object: Object) -> (result: Object)
        ensures
            *final(self) == *old(self),
            result@ == ObjectModel::Boolean(!truthy(object@)),
    {
        match object {
            Object::Boolean(true) => Object::Boolean(false),
            Object::Boolean(false) => Object::Boolean(true),
            Object::Null => Object::Boolean(true),
            _ => Object::Boolean(false),
        }
    }

    fn eval_minus_prefix_operator<H: Fn(FloatRequest) -> u64>(
        &mut self,
        object: Object,
        host: &H,
    ) -> (result: Object)
        requires
            is_float_unit(host),
        ensures
            *final(self) == *old(self),
            result@ == prefix_value(unit_of(host), Operator::Minus, object@),
    {
        match object {
            Object::Integer(value) => match 0isize.checked_sub(value) {
                Some(negated) => Object::Integer(negated),
                None => Object::Error("integer overflow".to_owned()),
            },
            Object::Float(value) => Object::Float(ask(host, FloatRequest::Negate(value))),
            _ => {
                let mut message = "unknown operator: ".to_owned();
                message.append(Operator::Minus.symbol());
                message.append(object.name().as_str());
                Object::Error(message)
            },
        }
    }

    fn eval_infix_expression<H: Fn(FloatRequest) -> u64>(
        &mut self,
        operator: Operator,
        left: Object,
        right: Object,
        host: &H,
    ) -> (result: Object)
        requires
            is_float_unit(host),
        ensures
            *final(self) == *old(self),
            result@ == infix_value(unit_of(host), operator, left@, right@),
    {
        match (&left, &right) {
            (Object::Integer(left), Object::Integer(right)) => self.eval_integer_infix_expression(
                operator,
                *left,
                *right,
            ),
            (Object::Boolean(left), Object::Boolean(right)) => self.eval_boolean_infix_expression(
                operator,
                *left,
                *right,
            ),
            (Object::Float(left), Object::Float(right)) => self.eval_float_infix_expression(
                operator,
                *left,
                *right,
                host,
            ),
            _ => {
                let mut message = "type mismatch: ".to_owned();
                message.append(left.name().as_str());
                message.append(" ");
                message.append(operator.symbol());
                message.append(" ");
                message.append(right.name().as_str());
                Object::Error(message)
            },
        }
    }

    fn eval_integer_infix_expression(
        &mut self,
        operator: Operator,
        left: isize,
        right: isize,
    ) -> (result: Object)
        ensures
            *final(self) == *old(self),
            result@ == integer_infix_value(operator, left, right),
    {
        let computed = match operator {
            Operator::Plus => left.checked_add(right),
            Operator::Minus => left.checked_sub(right),
            Operator::Multiply => left.checked_mul(right),
            Operator::Divide => {
                if right == 0 {
                    return Object::Error("division by zero".to_owned());
                }
                left.checked_div(right)
            },
            Operator::LessThan => {
                return Object::Boolean(left < right);
            },
            Operator::GreaterThan => {
                return Object::Boolean(left > right);
            },
            Operator::Equal => {
                return Object::Boolean(left == right);
            },
            Operator::NotEqual => {
                return Object::Boolean(left != right);
            },
            Operator::Not => {
                return Object::Error(unknown_infix_message("integer", operator));
            },
        };
        match computed {
            Some(value) => Object::Integer(value),
            None => Object::Error("integer overflow".to_owned()),
        }
    }

    fn eval_float_infix_expression<H: Fn(FloatRequest) -> u64>(
        &mut self,
        operator: Operator,
        left: u64,
        right: u64,
        host: &H,
    ) -> (result: Object)
        requires
            is_float_unit(host),
        ensures
            *final(self) == *old(self),
            result@ == float_infix_value(unit_of(host), operator, left, right),
    {
        match operator {
            Operator::Not => Object::Error(unknown_infix_message("float", operator)),
            _ => {
                let answer = ask(host, FloatRequest::Binary { operator, left, right });
                float_infix_object(operator, answer)
            },
        }
    }

    fn eval_boolean_infix_expression(
        &mut self,
        operator: Operator,
        left: bool,
        right: bool,
    ) -> (result: Object)
        ensures
            *final(self) == *old(self),
            result@ == boolean_infix_value(operator, left, right),
    {
        match operator {
            Operator::Equal => Object::Boolean(left == right),
            Operator::NotEqual => Object::Boolean(left != right),
            _ => Object::Error(unknown_infix_message("boolean", operator)),
        }
    }

    #[verifier::rlimit(40)]
    fn eval_block_statement<H: Fn(FloatRequest) -> u64>(
        &mut self,
        block: &BlockStatement,
        environment: &mut Environment,
        host: &H,
        budget: usize,
    ) -> (result: Object)
        requires
            is_float_unit(host),
        ensures
            leaves(
                result@,
                final(environment)@,
                final(self).commands@,
                eval_block(
                    unit_of(host),
                    block@,
                    0,
                    old(environment)@,
                    old(self).commands@,
                    ObjectModel::Null,
                    budget as nat,
                ),
            ),
            final(self).budget == old(self).budget,
        decreases budget, block,
    {
        let mut object = Object::Null;
        let ghost unit = unit_of(host);
        let ghost start_environment = environment@;
        let ghost start_commands = self.commands@;
        let mut i: usize = 0;
        while i < block.statements.len()
            invariant
                0 <= i <= block.statements.len(),
                is_float_unit(host),
                unit == unit_of(host),
                self.budget == old(self).budget,
                start_environment == old(environment)@,
                start_commands == old(self).commands@,
                eval_block(
                    unit,
                    block@,
                    i as int,
                    environment@,
                    self.commands@,
                    object@,
                    budget as nat,
                ) == eval_block(
                    unit,
                    block@,
                    0,
                    start_environment,
                    start_commands,
                    ObjectModel::Null,
                    budget as nat,
                ),
            decreases block.statements.len() - i,
        {
            assert(block@[i as int] == block.statements[i as int]@);
            object = self.eval_statement(&block.statements[i], environment, host, budget);
            match object {
                Object::Return(_) | Object::Error(_) => {
                    return object;
                },
                _ => (),
            }
            i += 1;
        }
        object
    }

    fn is_truthy(&mut self, condition: &Object) -> (r: bool)
        ensures
            *final(self) == *old(self),
            r == truthy(condition@),
    {
        match condition {
            Object::Null => false,
            Object::Boolean(true) => true,
            Object::Boolean(false) => false,
            _ => true,
        }
    }
}

/// Takes a value out of the `Return` wrappers around it.
fn unwrap_returns(value: Object) -> (result: Object)
    ensures
        result@ == unwrapped(value@),
    decreases value,
{
    match value {
        Object::Return(inner) => unwrap_returns(*inner),
        other => other,
    }
}

/// The value that the answer of the float unit to an infix operation stands
/// for.
pub fn float_infix_object(operator: Operator, answer: u64) -> (result: Object)
    ensures
        result@ == float_answer_value(operator, answer),
{
    match operator {
        Operator::Plus | Operator::Minus | Operator::Multiply | Operator::Divide => Object::Float(
            answer,
        ),
        _ => Object::Boolean(answer != 0),
    }
}

/// `Return` never escapes: whatever a program holds and whatever the
/// environment binds, the value of the program is no `Return`.
pub proof fn lemma_return_never_escapes(
    unit: FloatUnit,
    statements: Seq<StatementModel>,
    i: int,
    environment: EnvironmentModel,
    commands: Seq<Command>,
    last: ObjectModel,
    budget: nat,
)
    requires
        !(last is Return),
    ensures
        !(eval_program(unit, statements, i, environment, commands, last, budget).value is Return),
    decreases statements.len() - i,
{
    if 0 <= i < statements.len() {
        let next = eval_statement(unit, statements[i], environment, commands, budget);
        match next.value {
            ObjectModel::Return(value) => {
                lemma_unwrapped_is_no_return(*value);
            },
            ObjectModel::Error(_) => {},
            _ => {
                lemma_return_never_escapes(
                    unit,
                    statements,
                    i + 1,
                    next.environment,
                    next.commands,
                    next.value,
                    budget,
                );
            },
        }
    }
}

proof fn lemma_unwrapped_is_no_return(value: ObjectModel)
    ensures
        !(unwrapped(value) is Return),
    decreases value,
{
    match value {
        ObjectModel::Return(inner) => {
            lemma_unwrapped_is_no_return(*inner);
        },
        _ => {},
    }
}

/// Evaluation has no hidden state: one program, evaluated in two environments
/// that hold the same bindings, under one float unit and one budget, gives the
/// same value, leaves the same environment and makes the same commands.
pub proof fn lemma_evaluation_is_repeatable(
    unit: FloatUnit,
    program: Program,
    first: Environment,
    second: Environment,
    budget: nat,
)
    requires
        first@ == second@,
    ensures
        evaluation(unit, program@, first@, budget) == evaluation(
            unit,
            program@,
            second@,
            budget,
        ),
{
}

/// An error is the value of everything around it: the error of an operand,
/// of the left side of an infix operator, of a condition or of a callee is the
/// value of the whole expression, and nothing behind it is evaluated. The
/// environment and the commands are those that the failing part left.
pub proof fn lemma_error_of_first_part(
    unit: FloatUnit,
    inner: ExpressionModel,
    expression: ExpressionModel,
    environment: EnvironmentModel,
    commands: Seq<Command>,
    budget: nat,
)
    requires
        eval_expression(unit, inner, environment, commands, budget).value is Error,
        match expression {
            ExpressionModel::Prefix { right, .. } => *right == inner,
            ExpressionModel::Infix { left, .. } => *left == inner,
            ExpressionModel::If { condition, .. } => *condition == inner,
            ExpressionModel::Call { function, .. } => *function == inner,
            _ => false,
        },
    ensures
        eval_expression(unit, expression, environment, commands, budget) == eval_expression(
            unit,
            inner,
            environment,
            commands,
            budget,
        ),
{
}

/// The error of the right side of an infix operator, whose left side gave no
/// error, is the value of the whole expression.
pub proof fn lemma_error_of_right_side(
    unit: FloatUnit,
    operator: Operator,
    left: ExpressionModel,
    right: ExpressionModel,
    environment: EnvironmentModel,
    commands: Seq<Command>,
    budget: nat,
)
    requires
        !(eval_expression(unit, left, environment, commands, budget).value is Error),
        ({
            let first = eval_expression(unit, left, environment, commands, budget);
            eval_expression(unit, right, first.environment, first.commands, budget).value is Error
        }),
    ensures
        ({
            let first = eval_expression(unit, left, environment, commands, budget);
            eval_expression(
                unit,
                ExpressionModel::Infix { operator, left: Box::new(left), right: Box::new(right) },
                environment,
                commands,
                budget,
            ) == eval_expression(unit, right, first.environment, first.commands, budget)
        }),
{
}

/// The first error among the arguments of a call ends the list: the arguments
/// behind it are not evaluated, and nothing is called.
pub proof fn lemma_error_of_argument(
    unit: FloatUnit,
    expressions: Seq<ExpressionModel>,
    i: int,
    environment: EnvironmentModel,
    commands: Seq<Command>,
    values: Seq<ObjectModel>,
    budget: nat,
)
    requires
        0 <= i < expressions.len(),
        eval_expression(unit, expressions[i], environment, commands, budget).value is Error,
    ensures
        ({
            let failed = eval_expression(unit, expressions[i], environment, commands, budget);
            eval_expressions(unit, expressions, i, environment, commands, values, budget) == (
            Evaluations {
                values: Err(failed.value),
                environment: failed.environment,
                commands: failed.commands,
            })
        }),
{
}

/// The error of its expression is the value of a statement: `return` does not
/// wrap it, and `let` binds nothing.
pub proof fn lemma_error_of_statement(
    unit: FloatUnit,
    statement: StatementModel,
    environment: EnvironmentModel,
    commands: Seq<Command>,
    budget: nat,
)
    requires
        ({
            let expression = match statement {
                StatementModel::Let { expression, .. } => expression,
                StatementModel::Return { expression } => expression,
                StatementModel::Expression { expression } => expression,
            };
            eval_expression(unit, expression, environment, commands, budget).value is Error
        }),
    ensures
        ({
            let expression = match statement {
                StatementModel::Let { expression, .. } => expression,
                StatementModel::Return { expression } => expression,
                StatementModel::Expression { expression } => expression,
            };
            eval_statement(unit, statement, environment, commands, budget) == eval_expression(
                unit,
                expression,
                environment,
                commands,
                budget,
            )
        }),
{
}

/// The error of a statement ends its block and its program: it is their
/// value, and the statements behind it are not evaluated.
pub proof fn lemma_error_ends_block(
    unit: FloatUnit,
    statements: Seq<StatementModel>,
    i: int,
    environment: EnvironmentModel,
    commands: Seq<Command>,
    last: ObjectModel,
    budget: nat,
)
    requires
        0 <= i < statements.len(),
        eval_statement(unit, statements[i], environment, commands, budget).value is Error,
    ensures
        eval_block(unit, statements, i, environment, commands, last, budget) == eval_statement(
            unit,
            statements[i],
            environment,
            commands,
            budget,
        ),
        eval_program(unit, statements, i, environment, commands, last, budget) == eval_statement(
            unit,
            statements[i],
            environment,
            commands,
            budget,
        ),
{
}

/// The body of `func(y) { x + y }`.
pub open spec fn sum_body() -> Seq<StatementModel> {
    seq![
        StatementModel::Expression {
            expression: ExpressionModel::Infix {
                operator: Operator::Plus,
                left: Box::new(ExpressionModel::Identifier("x"@)),
                right: Box::new(ExpressionModel::Identifier("y"@)),
            },
        },
    ]
}

/// The body of `func(x) { func(y) { x + y } }`.
pub open spec fn adder_body() -> Seq<StatementModel> {
    seq![
        StatementModel::Expression {
            expression: ExpressionModel::Function { parameters: seq!["y"@], body: sum_body() },
        },
    ]
}

/// `func(x) { func(y) { x + y } }(a)(b)`.
pub open spec fn adder_applied(a: isize, b: isize) -> ExpressionModel {
    ExpressionModel::Call {
        function: Box::new(
            ExpressionModel::Call {
                function: Box::new(
                    ExpressionModel::Function { parameters: seq!["x"@], body: adder_body() },
                ),
                arguments: seq![ExpressionModel::Int(a)],
            },
        ),
        arguments: seq![ExpressionModel::Int(b)],
    }
}

/// A function keeps the environment in which it was made. The function that
/// `func(x) { func(y) { x + y } }` gives for an argument still finds that
/// argument under `x` when it is called later, whatever the environment of
/// the call binds: applied to `a` and then to `b` it gives their sum, and
/// leaves the environment of the call as it was.
#[verifier::rlimit(60)]
pub proof fn lemma_closures_keep_their_environment(
    unit: FloatUnit,
    a: isize,
    b: isize,
    environment: EnvironmentModel,
    commands: Seq<Command>,
    budget: nat,
)
    requires
        budget >= 1,
    ensures
        eval_expression(unit, adder_applied(a, b), environment, commands, budget) == (Evaluation {
            value: integer_infix_value(Operator::Plus, a, b),
            environment,
            commands,
        }),
{
    reveal_strlit("x");
    reveal_strlit("y");
    assert("x"@ != "y"@) by {
        assert("x"@[0] != "y"@[0]);
    }
    let inner = (budget - 1) as nat;
    let first = seq![ExpressionModel::Int(a)];
    let second = seq![ExpressionModel::Int(b)];
    let outer_literal = ExpressionModel::Function { parameters: seq!["x"@], body: adder_body() };
    let made = ObjectModel::Function {
        parameters: seq!["x"@],
        body: adder_body(),
        environment,
    };
    // The first call: `x` is bound to `a` in a scope inside the environment
    // in which the outer function was made.
    let scope = bound(extended(environment), "x"@, ObjectModel::Integer(a));
    let kept = ObjectModel::Function { parameters: seq!["y"@], body: sum_body(), environment: scope };
    assert(eval_expression(unit, outer_literal, environment, commands, budget) == (Evaluation {
        value: made,
        environment,
        commands,
    }));
    assert(first[0] == ExpressionModel::Int(a));
    assert(eval_expressions(
        unit,
        first,
        1,
        environment,
        commands,
        seq![ObjectModel::Integer(a)],
        budget,
    ) == (Evaluations { values: Ok(seq![ObjectModel::Integer(a)]), environment, commands }));
    assert(Seq::<ObjectModel>::empty().push(ObjectModel::Integer(a)) =~= seq![
        ObjectModel::Integer(a),
    ]);
    assert(eval_expression(unit, first[0], environment, commands, budget) == (Evaluation {
        value: ObjectModel::Integer(a),
        environment,
        commands,
    }));
    assert(eval_expressions(unit, first, 0, environment, commands, Seq::empty(), budget)
        == eval_expressions(
        unit,
        first,
        1,
        environment,
        commands,
        Seq::<ObjectModel>::empty().push(ObjectModel::Integer(a)),
        budget,
    ));
    let one = seq![ObjectModel::Integer(a)];
    assert(one[0] == ObjectModel::Integer(a));
    assert(seq!["x"@][0] == "x"@);
    assert(bind_arguments(bound(extended(environment), "x"@, one[0]), seq!["x"@], one, 1)
        == scope);
    assert(bind_arguments(extended(environment), seq!["x"@], one, 0) == scope);
    assert(adder_body()[0] == (StatementModel::Expression {
        expression: ExpressionModel::Function { parameters: seq!["y"@], body: sum_body() },
    }));
    assert(eval_statement(unit, adder_body()[0], scope, commands, inner) == (Evaluation {
        value: kept,
        environment: scope,
        commands,
    }));
    assert(eval_block(unit, adder_body(), 1, scope, commands, kept, inner) == (Evaluation {
        value: kept,
        environment: scope,
        commands,
    }));
    assert(eval_block(unit, adder_body(), 0, scope, commands, ObjectModel::Null, inner) == (
    Evaluation { value: kept, environment: scope, commands }));
    let applied_once = ExpressionModel::Call {
        function: Box::new(outer_literal),
        arguments: first,
    };
    assert(eval_expression(unit, applied_once, environment, commands, budget) == (Evaluation {
        value: kept,
        environment,
        commands,
    }));
    // The second call: `y` is bound to `b` in a scope inside the one that
    // the function kept, where `x` is still `a`.
    let two = seq![ObjectModel::Integer(b)];
    let call_scope = bound(extended(scope), "y"@, ObjectModel::Integer(b));
    assert(second[0] == ExpressionModel::Int(b));
    assert(eval_expressions(unit, second, 1, environment, commands, two, budget) == (Evaluations {
        values: Ok(two),
        environment,
        commands,
    }));
    assert(Seq::<ObjectModel>::empty().push(ObjectModel::Integer(b)) =~= two);
    assert(eval_expression(unit, second[0], environment, commands, budget) == (Evaluation {
        value: ObjectModel::Integer(b),
        environment,
        commands,
    }));
    assert(eval_expressions(unit, second, 0, environment, commands, Seq::empty(), budget)
        == eval_expressions(
        unit,
        second,
        1,
        environment,
        commands,
        Seq::<ObjectModel>::empty().push(ObjectModel::Integer(b)),
        budget,
    ));
    assert(two[0] == ObjectModel::Integer(b));
    assert(seq!["y"@][0] == "y"@);
    assert(bind_arguments(bound(extended(scope), "y"@, two[0]), seq!["y"@], two, 1)
        == call_scope);
    assert(bind_arguments(extended(scope), seq!["y"@], two, 0) == call_scope);
    assert(lookup(call_scope, "y"@) == Some(ObjectModel::Integer(b)));
    assert(lookup(call_scope, "x"@) == Some(ObjectModel::Integer(a))) by {
        reveal_with_fuel(lookup, 3);
        assert(!call_scope.store.contains_key("x"@));
        assert(scope.store.contains_key("x"@));
    }
    let sum = integer_infix_value(Operator::Plus, a, b);
    let x = ExpressionModel::Identifier("x"@);
    let y = ExpressionModel::Identifier("y"@);
    assert(eval_expression(unit, x, call_scope, commands, inner) == (Evaluation {
        value: ObjectModel::Integer(a),
        environment: call_scope,
        commands,
    }));
    assert(eval_expression(unit, y, call_scope, commands, inner) == (Evaluation {
        value: ObjectModel::Integer(b),
        environment: call_scope,
        commands,
    }));
    let addition = ExpressionModel::Infix {
        operator: Operator::Plus,
        left: Box::new(x),
        right: Box::new(y),
    };
    assert(infix_value(unit, Operator::Plus, ObjectModel::Integer(a), ObjectModel::Integer(b))
        == sum);
    assert(eval_expression(unit, addition, call_scope, commands, inner) == (Evaluation {
        value: sum,
        environment: call_scope,
        commands,
    }));
    assert(sum_body()[0] == (StatementModel::Expression { expression: addition }));
    assert(eval_statement(unit, sum_body()[0], call_scope, commands, inner) == (Evaluation {
        value: sum,
        environment: call_scope,
        commands,
    }));
    assert(eval_block(unit, sum_body(), 1, call_scope, commands, sum, inner) == (Evaluation {
        value: sum,
        environment: call_scope,
        commands,
    }));
    assert(eval_block(unit, sum_body(), 0, call_scope, commands, ObjectModel::Null, inner) == (
    Evaluation { value: sum, environment: call_scope, commands }));
    assert(!(sum is Return));
}

/// Arithmetic on numerals: an infix operator between two integer numerals
/// gives what the operator gives for the two integers, and between two float
/// numerals what the float unit answers for the floats that the numerals
/// stand for. Neither changes the environment or makes a command.
pub proof fn lemma_arithmetic_on_numerals(
    unit: FloatUnit,
    operator: Operator,
    a: isize,
    b: isize,
    s: Seq<char>,
    t: Seq<char>,
    environment: EnvironmentModel,
    commands: Seq<Command>,
    budget: nat,
)
    ensures
        eval_expression(
            unit,
            ExpressionModel::Infix {
                operator,
                left: Box::new(ExpressionModel::Int(a)),
                right: Box::new(ExpressionModel::Int(b)),
            },
            environment,
            commands,
            budget,
        ) == (Evaluation { value: integer_infix_value(operator, a, b), environment, commands }),
        eval_expression(
            unit,
            ExpressionModel::Infix {
                operator,
                left: Box::new(ExpressionModel::Float(s)),
                right: Box::new(ExpressionModel::Float(t)),
            },
            environment,
            commands,
            budget,
        ) == (Evaluation {
            value: float_infix_value(
                unit,
                operator,
                unit(FloatRequestModel::Literal(s)),
                unit(FloatRequestModel::Literal(t)),
            ),
            environment,
            commands,
        }),
        fits(a + b) ==> integer_infix_value(Operator::Plus, a, b) == ObjectModel::Integer(
            (a + b) as isize,
        ),
        fits(a - b) ==> integer_infix_value(Operator::Minus, a, b) == ObjectModel::Integer(
            (a - b) as isize,
        ),
        fits(a * b) ==> integer_infix_value(Operator::Multiply, a, b) == ObjectModel::Integer(
            (a * b) as isize,
        ),
        a >= 0 && b > 0 ==> integer_infix_value(Operator::Divide, a, b) == ObjectModel::Integer(
            (a / b) as isize,
        ),
{
    let left = eval_expression(unit, ExpressionModel::Int(a), environment, commands, budget);
    assert(left == (Evaluation { value: ObjectModel::Integer(a), environment, commands }));
    let right = eval_expression(unit, ExpressionModel::Int(b), environment, commands, budget);
    assert(right == (Evaluation { value: ObjectModel::Integer(b), environment, commands }));
    let left = eval_expression(unit, ExpressionModel::Float(s), environment, commands, budget);
    assert(left == (Evaluation {
        value: ObjectModel::Float(unit(FloatRequestModel::Literal(s))),
        environment,
        commands,
    }));
    let right = eval_expression(unit, ExpressionModel::Float(t), environment, commands, budget);
    assert(right == (Evaluation {
        value: ObjectModel::Float(unit(FloatRequestModel::Literal(t))),
        environment,
        commands,
    }));
    if a >= 0 && b > 0 {
        assert(0 <= a / b <= a) by (nonlinear_arith)
            requires
                a >= 0,
                b > 0,
        ;
    }
}

/// No value is coerced: an infix operator between two values that are not
/// both integers, both floats or both truth values is a type mismatch that
/// names both types, whatever the operator. Between two values of one of
/// these types it is never a type mismatch.
pub proof fn lemma_operands_must_match(
    unit: FloatUnit,
    operator: Operator,
    left: ObjectModel,
    right: ObjectModel,
)
    ensures
        !(left is Integer && right is Integer) && !(left is Float && right is Float) && !(
        left is Boolean && right is Boolean) ==> infix_value(unit, operator, left, right)
            == ObjectModel::Error(type_mismatch_text(left, operator, right)),
        left is Integer && right is Integer ==> infix_value(unit, operator, left, right)
            == integer_infix_value(operator, left->Integer_0, right->Integer_0),
        left is Float && right is Float ==> infix_value(unit, operator, left, right)
            == float_infix_value(unit, operator, left->Float_0, right->Float_0),
        left is Boolean && right is Boolean ==> infix_value(unit, operator, left, right)
            == boolean_infix_value(operator, left->Boolean_0, right->Boolean_0),
{
}

/// `!` gives a truth value for every operand: false for a truthy one, true
/// for `Null` and `false`.
pub proof fn lemma_not_gives_a_truth_value(unit: FloatUnit, operand: ObjectModel)
    ensures
        prefix_value(unit, Operator::Not, operand) == ObjectModel::Boolean(
            operand == ObjectModel::Null || operand == ObjectModel::Boolean(false),
        ),
{
}

/// `name(value)` as a statement.
pub open spec fn host_call_statement(name: Seq<char>, value: isize) -> StatementModel {
    StatementModel::Expression {
        expression: ExpressionModel::Call {
            function: Box::new(ExpressionModel::Identifier(name)),
            arguments: seq![ExpressionModel::Int(value)],
        },
    }
}

/// A host call with one number makes one command, adds it behind the
/// commands made before, and gives `Null`.
pub proof fn lemma_host_call_adds_its_command(
    unit: FloatUnit,
    name: Seq<char>,
    function: CommandFn,
    value: isize,
    environment: EnvironmentModel,
    commands: Seq<Command>,
    budget: nat,
)
    requires
        lookup(environment, name) == Some(ObjectModel::Command { function }),
    ensures
        eval_statement(unit, host_call_statement(name, value), environment, commands, budget) == (
        Evaluation {
            value: ObjectModel::Null,
            environment,
            commands: commands.push(
                command_of(function, unit(FloatRequestModel::FromInteger(value))),
            ),
        }),
{
    let arguments = seq![ExpressionModel::Int(value)];
    let values = seq![ObjectModel::Integer(value)];
    assert(arguments[0] == ExpressionModel::Int(value));
    assert(eval_expression(unit, arguments[0], environment, commands, budget) == (Evaluation {
        value: ObjectModel::Integer(value),
        environment,
        commands,
    }));
    assert(Seq::<ObjectModel>::empty().push(ObjectModel::Integer(value)) =~= values);
    assert(eval_expressions(unit, arguments, 1, environment, commands, values, budget) == (
    Evaluations { values: Ok(values), environment, commands }));
    assert(eval_expressions(unit, arguments, 0, environment, commands, Seq::empty(), budget)
        == eval_expressions(unit, arguments, 1, environment, commands, values, budget));
    assert(values[0] == ObjectModel::Integer(value));
    assert(host_call(unit, function, values) == Ok::<Command, Seq<char>>(
        command_of(function, unit(FloatRequestModel::FromInteger(value))),
    ));
}

/// Commands come out in the order of the calls: a program that calls a host
/// function with one number and then with another makes exactly two commands,
/// the one of the first call before the one of the second.
pub proof fn lemma_commands_keep_call_order(
    unit: FloatUnit,
    name: Seq<char>,
    function: CommandFn,
    first: isize,
    second: isize,
    environment: EnvironmentModel,
    budget: nat,
)
    requires
        lookup(environment, name) == Some(ObjectModel::Command { function }),
    ensures
        evaluation(
            unit,
            seq![host_call_statement(name, first), host_call_statement(name, second)],
            environment,
            budget,
        ) == (Evaluation {
            value: ObjectModel::Null,
            environment,
            commands: seq![
                command_of(function, unit(FloatRequestModel::FromInteger(first))),
                command_of(function, unit(FloatRequestModel::FromInteger(second))),
            ],
        }),
{
    let program = seq![host_call_statement(name, first), host_call_statement(name, second)];
    let one = command_of(function, unit(FloatRequestModel::FromInteger(first)));
    let two = command_of(function, unit(FloatRequestModel::FromInteger(second)));
    assert(program[0] == host_call_statement(name, first));
    assert(program[1] == host_call_statement(name, second));
    lemma_host_call_adds_its_command(
        unit,
        name,
        function,
        first,
        environment,
        Seq::empty(),
        budget,
    );
    lemma_host_call_adds_its_command(
        unit,
        name,
        function,
        second,
        environment,
        Seq::<Command>::empty().push(one),
        budget,
    );
    assert(Seq::<Command>::empty().push(one).push(two) =~= seq![one, two]);
    assert(eval_program(unit, program, 2, environment, seq![one, two], ObjectModel::Null, budget)
        == (Evaluation { value: ObjectModel::Null, environment, commands: seq![one, two] }));
    assert(eval_program(
        unit,
        program,
        1,
        environment,
        Seq::<Command>::empty().push(one),
        ObjectModel::Null,
        budget,
    ) == (Evaluation { value: ObjectModel::Null, environment, commands: seq![one, two] }));
}

/// A call of a host function with no argument, or with two or more, makes no
/// command: its value is the error that names the count, and the commands are
/// those that were there when the arguments had been evaluated.
pub proof fn lemma_wrong_arity_makes_no_command(
    unit: FloatUnit,
    name: Seq<char>,
    function: CommandFn,
    arguments: Seq<ExpressionModel>,
    environment: EnvironmentModel,
    commands: Seq<Command>,
    budget: nat,
)
    requires
        lookup(environment, name) == Some(ObjectModel::Command { function }),
        ({
            let evaluated = eval_expressions(
                unit,
                arguments,
                0,
                environment,
                commands,
                Seq::empty(),
                budget,
            );
            evaluated.values matches Ok(values) && values.len() != 1
        }),
    ensures
        ({
            let evaluated = eval_expressions(
                unit,
                arguments,
                0,
                environment,
                commands,
                Seq::empty(),
                budget,
            );
            eval_expression(
                unit,
                ExpressionModel::Call {
                    function: Box::new(ExpressionModel::Identifier(name)),
                    arguments,
                },
                environment,
                commands,
                budget,
            ) == (Evaluation {
                value: ObjectModel::Error(wrong_arity_text(evaluated.values->Ok_0.len(), 1)),
                environment: evaluated.environment,
                commands: evaluated.commands,
            })
        }),
{
    let callee = eval_expression(
        unit,
        ExpressionModel::Identifier(name),
        environment,
        commands,
        budget,
    );
    assert(callee == (Evaluation {
        value: ObjectModel::Command { function },
        environment,
        commands,
    }));
    let evaluated = eval_expressions(
        unit,
        arguments,
        0,
        environment,
        commands,
        Seq::empty(),
        budget,
    );
    let values = evaluated.values->Ok_0;
    assert(host_call(unit, function, values) == Err::<Command, Seq<char>>(
        wrong_arity_text(values.len(), 1),
    ));
}

/// A host call with any number of arguments but one is an error that names
/// the count it got and the one it wants, whatever the arguments are.
pub proof fn lemma_host_calls_take_one_argument(
    unit: FloatUnit,
    function: CommandFn,
    arguments: Seq<ObjectModel>,
)
    requires
        arguments.len() != 1,
    ensures
        host_call(unit, function, arguments) == Err::<Command, Seq<char>>(
            wrong_arity_text(arguments.len(), 1),
        ),
{
}

/// Commands are only ever added at the end: what an evaluation leaves starts
/// with the commands it was given, in their order.
pub proof fn lemma_expression_keeps_commands(
    unit: FloatUnit,
    expression: ExpressionModel,
    environment: EnvironmentModel,
    commands: Seq<Command>,
    budget: nat,
)
    ensures
        commands.is_prefix_of(
            eval_expression(unit, expression, environment, commands, budget).commands,
        ),
    decreases budget, expression, 0int,
{
    match expression {
        ExpressionModel::Prefix { operator, right } => {
            lemma_expression_keeps_commands(unit, *right, environment, commands, budget);
        },
        ExpressionModel::Infix { operator, left, right } => {
            lemma_expression_keeps_commands(unit, *left, environment, commands, budget);
            let first = eval_expression(unit, *left, environment, commands, budget);
            lemma_expression_keeps_commands(
                unit,
                *right,
                first.environment,
                first.commands,
                budget,
            );
        },
        ExpressionModel::If { condition, consequence, alternative } => {
            lemma_expression_keeps_commands(unit, *condition, environment, commands, budget);
            let tested = eval_expression(unit, *condition, environment, commands, budget);
            lemma_block_keeps_commands(
                unit,
                consequence,
                0,
                tested.environment,
                tested.commands,
                ObjectModel::Null,
                budget,
            );
            match alternative {
                Some(alternative) => {
                    lemma_block_keeps_commands(
                        unit,
                        alternative,
                        0,
                        tested.environment,
                        tested.commands,
                        ObjectModel::Null,
                        budget,
                    );
                },
                None => {},
            }
        },
        ExpressionModel::Call { function, arguments } => {
            lemma_expression_keeps_commands(unit, *function, environment, commands, budget);
            let callee = eval_expression(unit, *function, environment, commands, budget);
            lemma_expressions_keep_commands(
                unit,
                arguments,
                0,
                callee.environment,
                callee.commands,
                Seq::empty(),
                budget,
            );
            let evaluated = eval_expressions(
                unit,
                arguments,
                0,
                callee.environment,
                callee.commands,
                Seq::empty(),
                budget,
            );
            match (evaluated.values, callee.value) {
                (Ok(values), ObjectModel::Function { parameters, body, environment: captured }) => {
                    if values.len() <= parameters.len() && budget > 0 {
                        lemma_block_keeps_commands(
                            unit,
                            body,
                            0,
                            bind_arguments(extended(captured), parameters, values, 0),
                            evaluated.commands,
                            ObjectModel::Null,
                            (budget - 1) as nat,
                        );
                    }
                },
                _ => {},
            }
        },
        _ => {},
    }
}

/// Evaluating a list of expressions only adds commands at the end.
pub proof fn lemma_expressions_keep_commands(
    unit: FloatUnit,
    expressions: Seq<ExpressionModel>,
    i: int,
    environment: EnvironmentModel,
    commands: Seq<Command>,
    values: Seq<ObjectModel>,
    budget: nat,
)
    ensures
        commands.is_prefix_of(
            eval_expressions(unit, expressions, i, environment, commands, values, budget).commands,
        ),
    decreases budget, expressions, expressions.len() - i,
{
    if 0 <= i < expressions.len() {
        lemma_expression_keeps_commands(unit, expressions[i], environment, commands, budget);
        let next = eval_expression(unit, expressions[i], environment, commands, budget);
        if !(next.value is Error) {
            lemma_expressions_keep_commands(
                unit,
                expressions,
                i + 1,
                next.environment,
                next.commands,
                values.push(next.value),
                budget,
            );
        }
    }
}

/// Evaluating a statement only adds commands at the end.
pub proof fn lemma_statement_keeps_commands(
    unit: FloatUnit,
    statement: StatementModel,
    environment: EnvironmentModel,
    commands: Seq<Command>,
    budget: nat,
)
    ensures
        commands.is_prefix_of(
            eval_statement(unit, statement, environment, commands, budget).commands,
        ),
    decreases budget, statement, 0int,
{
    match statement {
        StatementModel::Return { expression } => {
            lemma_expression_keeps_commands(unit, expression, environment, commands, budget);
        },
        StatementModel::Expression { expression } => {
            lemma_expression_keeps_commands(unit, expression, environment, commands, budget);
        },
        StatementModel::Let { identifier, expression } => {
            lemma_expression_keeps_commands(unit, expression, environment, commands, budget);
        },
    }
}

/// Evaluating a block only adds commands at the end.
pub proof fn lemma_block_keeps_commands(
    unit: FloatUnit,
    statements: Seq<StatementModel>,
    i: int,
    environment: EnvironmentModel,
    commands: Seq<Command>,
    last: ObjectModel,
    budget: nat,
)
    ensures
        commands.is_prefix_of(
            eval_block(unit, statements, i, environment, commands, last, budget).commands,
        ),
    decreases budget, statements, statements.len() - i,
{
    if 0 <= i < statements.len() {
        lemma_statement_keeps_commands(unit, statements[i], environment, commands, budget);
        let next = eval_statement(unit, statements[i], environment, commands, budget);
        if !(next.value is Return || next.value is Error) {
            lemma_block_keeps_commands(
                unit,
                statements,
                i + 1,
                next.environment,
                next.commands,
                next.value,
                budget,
            );
        }
    }
}

/// The commands of a program's evaluation start with those that were there
/// when a statement began: the list only grows, in the order of the calls.
pub proof fn lemma_program_keeps_commands(
    unit: FloatUnit,
    statements: Seq<StatementModel>,
    i: int,
    environment: EnvironmentModel,
    commands: Seq<Command>,
    last: ObjectModel,
    budget: nat,
)
    ensures
        commands.is_prefix_of(
            eval_program(unit, statements, i, environment, commands, last, budget).commands,
        ),
    decreases statements.len() - i,
{
    if 0 <= i < statements.len() {
        lemma_statement_keeps_commands(unit, statements[i], environment, commands, budget);
        let next = eval_statement(unit, statements[i], environment, commands, budget);
        if !(next.value is Return || next.value is Error) {
            lemma_program_keeps_commands(
                unit,
                statements,
                i + 1,
                next.environment,
                next.commands,
                next.value,
                budget,
            );
        }
    }
}

} // verus!
