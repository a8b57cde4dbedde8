use autopilot::interpreter::ast::{BlockStatement, Expression, Operator, Program, Statement};
use autopilot::interpreter::evaluator::{Evaluator, DEFAULT_BUDGET};
use autopilot::interpreter::host::FloatRequest;
use autopilot::interpreter::lexer::Lexer;
use autopilot::interpreter::object::{Command, CommandFn, Environment, Object};
use autopilot::interpreter::parser::Parser;

fn float_unit(request: FloatRequest) -> u64 {
    match request {
        FloatRequest::Literal(text) => text.parse::<f64>().unwrap_or(f64::NAN).to_bits(),
        FloatRequest::FromInteger(value) => (value as f64).to_bits(),
        FloatRequest::Negate(value) => (-f64::from_bits(value)).to_bits(),
        FloatRequest::Binary {
            operator,
            left,
            right,
        } => {
            let left = f64::from_bits(left);
            let right = f64::from_bits(right);
            match operator {
                Operator::Plus => (left + right).to_bits(),
                Operator::Minus => (left - right).to_bits(),
                Operator::Multiply => (left * right).to_bits(),
                Operator::Divide => (left / right).to_bits(),
                Operator::LessThan => (left < right) as u64,
                Operator::GreaterThan => (left > right) as u64,
                Operator::Equal => (left == right) as u64,
                Operator::NotEqual => (left != right) as u64,
                Operator::Not => 0,
            }
        }
    }
}

fn float(value: f64) -> Object {
    Object::Float(value.to_bits())
}

fn parse(input: &str) -> Program {
    let lexer = Lexer::new(input);
    let mut parser = Parser::new(lexer);
    let program = parser.parse_program();
    assert_eq!(parser.errors(), vec![] as Vec<String>);
    program
}

fn test_eval(input: &str) -> Object {
    let program = parse(input);
    let mut environment = Environment::new();
    let mut evaluator = Evaluator::new();
    evaluator.eval(&program, &mut environment, &float_unit)
}

#[test]
fn test_eval_integer_expression() {
    let tests = vec![
        ("5", Object::Integer(5)),
        ("10", Object::Integer(10)),
        ("-5", Object::Integer(-5)),
        ("-10", Object::Integer(-10)),
        ("5 + 5 + 5 + 5 - 10", Object::Integer(10)),
        ("2 * 2 * 2 * 2 * 2", Object::Integer(32)),
        ("-50 + 100 + -50", Object::Integer(0)),
        ("5 * 2 + 10", Object::Integer(20)),
        ("5 + 2 * 10", Object::Integer(25)),
        ("20 + 2 * -10", Object::Integer(0)),
        ("50 / 2 * 2 + 10", Object::Integer(60)),
        ("2 * (5 + 10)", Object::Integer(30)),
        ("3 * 3 * 3 + 10", Object::Integer(37)),
        ("3 * (3 * 3) + 10", Object::Integer(37)),
        ("(5 + 10 * 2 + 15 / 3) * 2 + -10", Object::Integer(50)),
    ];

    for (input, expected_output) in tests {
        let object = test_eval(input);
        assert_eq!(object, expected_output);
    }
}

#[test]
fn test_eval_float_expression() {
    let tests = vec![
        ("5.0", float(5.0)),
        ("10.0", float(10.0)),
        ("-5.0", float(-5.0)),
        ("-10.0", float(-10.0)),
        ("5.0 + 5.0 + 5.0 + 5.0 - 10.0", float(10.0)),
        ("2.0 * 2.0 * 2.0 * 2.0 * 2.0", float(32.0)),
        ("-50.0 + 100.0 + -50.0", float(0.0)),
        ("5.0 * 2.0 + 10.0", float(20.0)),
        ("5.0 + 2.0 * 10.0", float(25.0)),
        ("20.0 + 2.0 * -10.0", float(0.0)),
        ("50.0 / 2.0 * 2.0 + 10.0", float(60.0)),
        ("2.0 * (5.0 + 10.0)", float(30.0)),
        ("3.0 * 3.0 * 3.0 + 10.0", float(37.0)),
        ("3.0 * (3.0 * 3.0) + 10.0", float(37.0)),
        (
            "(5.0 + 10.0 * 2.0 + 15.0 / 3.0) * 2.0 + -10.0",
            float(50.0),
        ),
    ];

    for (input, expected_output) in tests {
        let object = test_eval(input);
        assert_eq!(object, expected_output);
    }
}

#[test]
fn test_eval_boolean_expression() {
    let tests = vec![
        ("true", Object::Boolean(true)),
        ("false", Object::Boolean(false)),
        ("1 < 2", Object::Boolean(true)),
        ("1 > 2", Object::Boolean(false)),
        ("1 < 1", Object::Boolean(false)),
        ("1 > 1", Object::Boolean(false)),
        ("1 == 1", Object::Boolean(true)),
        ("1 != 1", Object::Boolean(false)),
        ("1 == 2", Object::Boolean(false)),
        ("1 != 2", Object::Boolean(true)),
        ("true == true", Object::Boolean(true)),
        ("false == false", Object::Boolean(true)),
        ("true == false", Object::Boolean(false)),
        ("true != false", Object::Boolean(true)),
        ("(1 < 2) == true", Object::Boolean(true)),
        ("(1 < 2) == false", Object::Boolean(false)),
        ("(1 > 2) == true", Object::Boolean(false)),
        ("(1 > 2) == false", Object::Boolean(true)),
    ];

    for (input, expected_output) in tests {
        let object = test_eval(input);
        assert_eq!(object, expected_output);
    }
}

#[test]
fn test_not_operator() {
    let tests = vec![
        ("!true", Object::Boolean(false)),
        ("!false", Object::Boolean(true)),
        ("!5", Object::Boolean(false)),
        ("!!true", Object::Boolean(true)),
        ("!!false", Object::Boolean(false)),
        ("!!5", Object::Boolean(true)),
    ];

    for (input, expected_output) in tests {
        let object = test_eval(input);
        assert_eq!(object, expected_output);
    }
}

#[test]
fn test_if_else_expressions() {
    let tests = vec![
        ("if (true) { 10 }", Object::Integer(10)),
        ("if (false) { 10 }", Object::Null),
        ("if (1) { 10 }", Object::Integer(10)),
        ("if (1 < 2) { 10 }", Object::Integer(10)),
        ("if (1 > 2) { 10 } else { 20 }", Object::Integer(20)),
        ("if (1 < 2) { 10 } else { 20 }", Object::Integer(10)),
    ];

    for (input, expected_output) in tests {
        let object = test_eval(input);
        assert_eq!(object, expected_output);
    }
}

#[test]
fn test_return_statements() {
    let tests = vec![
        ("return 10", Object::Integer(10)),
        (
            "
            if (10 > 1) {
                if (10 > 1) {
                    return 10
                }
                return 1
            }
            ",
            Object::Integer(10),
        ),
    ];

    for (input, expected_output) in tests {
        let object = test_eval(input);
        assert_eq!(object, expected_output);
    }
}

#[test]
fn test_error_handling() {
    let tests = vec![
        (
            "5 + true",
            Object::Error(String::from("type mismatch: integer + boolean")),
        ),
        (
            "
                5 + true
                5
                ",
            Object::Error(String::from("type mismatch: integer + boolean")),
        ),
        (
            "-true",
            Object::Error(String::from("unknown operator: -boolean")),
        ),
        (
            "true + false",
            Object::Error(String::from("unknown operator: boolean + boolean")),
        ),
        (
            "5
                true + false
                5",
            Object::Error(String::from("unknown operator: boolean + boolean")),
        ),
        (
            "if (10 > 1) { true + false }",
            Object::Error(String::from("unknown operator: boolean + boolean")),
        ),
        (
            "
                if (10 > 1) {
                    if (10 > 1) {
                        return true + false
                    }
                    return 1
                }
                ",
            Object::Error(String::from("unknown operator: boolean + boolean")),
        ),
        (
            "foobar",
            Object::Error(String::from("identifier not found: foobar")),
        ),
    ];

    for (input, expected_output) in tests {
        let object = test_eval(input);
        assert_eq!(object, expected_output);
    }
}

#[test]
fn test_let_statements() {
    let tests = vec![
        (
            "
            let a = 5;
            let b = a;
            b
            ",
            Object::Integer(5),
        ),
        (
            "
                let a = 5;
                let b = a;
                let c = a + b + 5;
                c
                ",
            Object::Integer(15),
        ),
    ];

    for (input, expected_output) in tests {
        let object = test_eval(input);
        assert_eq!(object, expected_output);
    }
}

#[test]
fn test_function_object() {
    let input = "func(x) { x + 2 }";
    let object = test_eval(input);

    assert_eq!(
        object,
        Object::Function {
            parameters: vec![String::from("x")],
            body: BlockStatement {
                statements: vec![Statement::Expression {
                    expression: Expression::Infix {
                        operator: Operator::Plus,
                        left: Box::new(Expression::Identifier(String::from("x"))),
                        right: Box::new(Expression::Int(2)),
                    }
                }]
            },
            environment: Environment::new()
        }
    )
}

#[test]
fn test_function_application() {
    let tests = vec![
        (
            "
                let identity = func(x) { x };
                identity(5)
                ",
            Object::Integer(5),
        ),
        (
            "
                let identity = func(x) { return x };
                identity(5)
                ",
            Object::Integer(5),
        ),
        (
            "
                let double = func(x) { x * 2 };
                double(5)
                ",
            Object::Integer(10),
        ),
        (
            "
                let add = func(x, y) { x + y };
                add(5, 5)
                ",
            Object::Integer(10),
        ),
        (
            "
                let add = func(x) { return x };
                add(add(20))
                ",
            Object::Integer(20),
        ),
        ("func(x) { x }(5)", Object::Integer(5)),
    ];

    for (input, expected_output) in tests {
        let object = test_eval(input);
        assert_eq!(object, expected_output);
    }
}

#[test]
fn test_closures() {
    let input = "
        let new_adder = func(x) {
            func(y) { x + y }
        };

        let add_two = new_adder(2);
        add_two(2)
        ";
    let object = test_eval(input);
    assert_eq!(object, Object::Integer(4));
}

#[test]
fn test_command_functions() {
    let tests = vec![
        (
            "SET_THRUST(10)",
            vec![Command::SetThrust {
                throttle: 10.0f64.to_bits(),
            }],
            Object::Null,
        ),
        (
            "
                let A = 10;
                SET_THRUST(A)
                let B = 20;
                SET_THRUST(B)
                ",
            vec![
                Command::SetThrust {
                    throttle: 10.0f64.to_bits(),
                },
                Command::SetThrust {
                    throttle: 20.0f64.to_bits(),
                },
            ],
            Object::Null,
        ),
        (
            "SET_THRUST(true)",
            vec![],
            Object::Error(String::from("argument not supported, got boolean")),
        ),
        (
            "SET_THRUST(0, 1)",
            vec![],
            Object::Error(String::from("wrong number of arguments. got=2, want=1")),
        ),
    ];

    for (input, expected_commands, expected_output) in tests {
        let lexer = Lexer::new(input);
        let mut parser = Parser::new(lexer);
        let program = parser.parse_program();
        let mut environment = Environment::new();
        let mut evaluator = Evaluator::new();

        environment.set(
            String::from("SET_THRUST"),
            Object::Command {
                function: CommandFn::SetThrust,
            },
        );
        let object = evaluator.eval(&program, &mut environment, &float_unit);
        assert_eq!(object, expected_output);
        assert_eq!(evaluator.commands, expected_commands);
    }
}

fn eval_with_commands(input: &str) -> (Object, Vec<Command>) {
    let program = parse(input);
    let mut environment = Environment::new();
    environment.set(
        String::from("SET_THRUST"),
        Object::Command {
            function: CommandFn::SetThrust,
        },
    );
    environment.set(
        String::from("SET_TORQUE"),
        Object::Command {
            function: CommandFn::SetTorque,
        },
    );
    let mut evaluator = Evaluator::new();
    let object = evaluator.eval(&program, &mut environment, &float_unit);
    (object, evaluator.commands)
}

#[test]
fn commands_come_out_in_call_order() {
    let (object, commands) = eval_with_commands("SET_THRUST(1) SET_TORQUE(2.5) SET_THRUST(3)");
    assert_eq!(object, Object::Null);
    assert_eq!(
        commands,
        vec![
            Command::SetThrust {
                throttle: 1.0f64.to_bits()
            },
            Command::SetTorque {
                force: 2.5f64.to_bits()
            },
            Command::SetThrust {
                throttle: 3.0f64.to_bits()
            },
        ]
    );
}

#[test]
fn commands_in_arguments_come_first() {
    let input = "
        let first = func() { SET_THRUST(1); 10 };
        let second = func() { SET_THRUST(2); 20 };
        let sum = func(a, b) { SET_THRUST(3); a + b };
        sum(first(), second())
        ";
    let (object, commands) = eval_with_commands(input);
    assert_eq!(object, Object::Integer(30));
    assert_eq!(
        commands,
        vec![
            Command::SetThrust {
                throttle: 1.0f64.to_bits()
            },
            Command::SetThrust {
                throttle: 2.0f64.to_bits()
            },
            Command::SetThrust {
                throttle: 3.0f64.to_bits()
            },
        ]
    );
}

#[test]
fn wrong_arity_names_the_count_and_makes_no_command() {
    let (object, commands) = eval_with_commands("SET_THRUST()");
    assert_eq!(
        object,
        Object::Error(String::from("wrong number of arguments. got=0, want=1"))
    );
    assert_eq!(commands, vec![]);

    let (object, commands) = eval_with_commands("SET_TORQUE(1, 2)");
    assert_eq!(
        object,
        Object::Error(String::from("wrong number of arguments. got=2, want=1"))
    );
    assert_eq!(commands, vec![]);
}

#[test]
fn an_error_ends_the_tick_but_keeps_earlier_commands() {
    let (object, commands) = eval_with_commands("SET_THRUST(1) SET_THRUST(true) SET_THRUST(3)");
    assert_eq!(
        object,
        Object::Error(String::from("argument not supported, got boolean"))
    );
    assert_eq!(
        commands,
        vec![Command::SetThrust {
            throttle: 1.0f64.to_bits()
        }]
    );
}

#[test]
fn float_arguments_pass_unchanged() {
    let (_, commands) = eval_with_commands("SET_TORQUE(0.25 - 1.0)");
    assert_eq!(
        commands,
        vec![Command::SetTorque {
            force: (-0.75f64).to_bits()
        }]
    );
}

#[test]
fn commands_are_reset_by_each_eval() {
    let program = parse("SET_THRUST(1)");
    let quiet = parse("5");
    let mut environment = Environment::new();
    environment.set(
        String::from("SET_THRUST"),
        Object::Command {
            function: CommandFn::SetThrust,
        },
    );
    let mut evaluator = Evaluator::new();
    evaluator.eval(&program, &mut environment, &float_unit);
    assert_eq!(evaluator.commands.len(), 1);
    evaluator.eval(&program, &mut environment, &float_unit);
    assert_eq!(evaluator.commands.len(), 1);
    evaluator.eval(&quiet, &mut environment, &float_unit);
    assert_eq!(evaluator.commands.len(), 0);
}

#[test]
fn evaluating_twice_gives_the_same() {
    let program = parse(
        "
        let k = 3;
        let scale = func(x) { if (x > 10) { SET_THRUST(x * k) } else { SET_TORQUE(x) } x * k };
        scale(4);
        scale(40);
        scale(ALTITUDE)
        ",
    );
    let seed = || {
        let mut environment = Environment::new();
        environment.set(
            String::from("SET_THRUST"),
            Object::Command {
                function: CommandFn::SetThrust,
            },
        );
        environment.set(
            String::from("SET_TORQUE"),
            Object::Command {
                function: CommandFn::SetTorque,
            },
        );
        environment.set(String::from("ALTITUDE"), Object::Integer(7));
        environment
    };
    let mut first_environment = seed();
    let mut second_environment = seed();
    let mut first = Evaluator::new();
    let mut second = Evaluator::new();
    let a = first.eval(&program, &mut first_environment, &float_unit);
    let b = second.eval(&program, &mut second_environment, &float_unit);
    assert_eq!(a, Object::Integer(21));
    assert_eq!(a, b);
    assert_eq!(first.commands, second.commands);
    assert_eq!(first.commands.len(), 3);
}

#[test]
fn no_cross_type_coercion() {
    assert_eq!(
        test_eval("5 + 5.0"),
        Object::Error(String::from("type mismatch: integer + float"))
    );
    assert_eq!(
        test_eval("5.0 == 5"),
        Object::Error(String::from("type mismatch: float == integer"))
    );
    assert_eq!(
        test_eval("true == 1"),
        Object::Error(String::from("type mismatch: boolean == integer"))
    );
}

#[test]
fn float_comparisons_give_truth_values() {
    assert_eq!(test_eval("1.5 < 2.5"), Object::Boolean(true));
    assert_eq!(test_eval("1.5 > 2.5"), Object::Boolean(false));
    assert_eq!(test_eval("1.5 == 1.5"), Object::Boolean(true));
    assert_eq!(test_eval("1.5 != 1.5"), Object::Boolean(false));
    assert_eq!(test_eval("!1.5"), Object::Boolean(false));
}

#[test]
fn zero_is_truthy_and_null_is_falsy() {
    assert_eq!(test_eval("if (0) { 1 } else { 2 }"), Object::Integer(1));
    assert_eq!(test_eval("!0"), Object::Boolean(false));
    assert_eq!(test_eval("!(if (false) { 1 })"), Object::Boolean(true));
    assert_eq!(
        test_eval("if (if (false) { 1 }) { 1 } else { 2 }"),
        Object::Integer(2)
    );
}

#[test]
fn division_by_zero_and_overflow_are_errors() {
    assert_eq!(
        test_eval("1 / 0"),
        Object::Error(String::from("division by zero"))
    );
    assert_eq!(test_eval("-7 / 2"), Object::Integer(-3));
    assert_eq!(test_eval("7 / -2"), Object::Integer(-3));
    assert_eq!(test_eval("-7 / -2"), Object::Integer(3));
    let max = isize::MAX;
    assert_eq!(
        test_eval(&format!("{} + 1", max)),
        Object::Error(String::from("integer overflow"))
    );
    assert_eq!(
        test_eval(&format!("{} * 2", max)),
        Object::Error(String::from("integer overflow"))
    );
    assert_eq!(
        test_eval(&format!("-{} - 2", max)),
        Object::Error(String::from("integer overflow"))
    );
    assert_eq!(
        test_eval(&format!("(-{} - 1) / -1", max)),
        Object::Error(String::from("integer overflow"))
    );
    assert_eq!(
        test_eval(&format!("-(-{} - 1)", max)),
        Object::Error(String::from("integer overflow"))
    );
    assert_eq!(
        test_eval(&format!("-{} - 1", max)),
        Object::Integer(isize::MIN)
    );
}

#[test]
fn errors_cut_evaluation_short() {
    let (object, commands) = eval_with_commands("missing + SET_THRUST(1)");
    assert_eq!(
        object,
        Object::Error(String::from("identifier not found: missing"))
    );
    assert_eq!(commands, vec![]);

    let (object, commands) = eval_with_commands("missing(SET_THRUST(1))");
    assert_eq!(
        object,
        Object::Error(String::from("identifier not found: missing"))
    );
    assert_eq!(commands, vec![]);

    let (object, commands) =
        eval_with_commands("let f = func(a, b) { 1 }; f(1 + true, SET_THRUST(1))");
    assert_eq!(
        object,
        Object::Error(String::from("type mismatch: integer + boolean"))
    );
    assert_eq!(commands, vec![]);

    assert_eq!(
        test_eval("let a = 1 + true; 5"),
        Object::Error(String::from("type mismatch: integer + boolean"))
    );
    assert_eq!(
        test_eval("let f = func() { return 1 + true; 5 }; f(); 7"),
        Object::Error(String::from("type mismatch: integer + boolean"))
    );
}

#[test]
fn calls_check_their_arguments() {
    assert_eq!(
        test_eval("let f = func(a) { a }; f(1, 2)"),
        Object::Error(String::from("wrong number of arguments. got=2, want=1"))
    );
    assert_eq!(
        test_eval("let f = func(a, b) { a }; f(1)"),
        Object::Integer(1)
    );
    assert_eq!(
        test_eval("let f = func(a, b) { b }; f(1)"),
        Object::Error(String::from("identifier not found: b"))
    );
    assert_eq!(test_eval("5(1)"), Object::Null);
}

#[test]
fn closures_are_snapshots() {
    assert_eq!(
        test_eval("let a = 1; let f = func() { a }; let a = 2; f()"),
        Object::Integer(1)
    );
    assert_eq!(
        test_eval("let f = func() { let a = 5; a }; let a = 1; f(); a"),
        Object::Integer(1)
    );
    assert_eq!(
        test_eval("let f = func(n) { f(n) }; f(1)"),
        Object::Error(String::from("identifier not found: f"))
    );
}

#[test]
fn let_inside_a_block_binds_in_the_enclosing_scope() {
    assert_eq!(test_eval("if (true) { let a = 5; } a"), Object::Integer(5));
}

#[test]
fn return_stops_at_the_call_boundary() {
    assert_eq!(
        test_eval("let f = func() { if (true) { return 1 } 2 }; f() + 10"),
        Object::Integer(11)
    );
    assert_eq!(test_eval("return 5; 7"), Object::Integer(5));
}

#[test]
fn nesting_beyond_the_budget_is_an_error() {
    let program = parse("let loop = func(self, n) { self(self, n + 1) }; loop(loop, 0)");
    let mut environment = Environment::new();
    let mut evaluator = Evaluator::with_budget(50);
    assert_eq!(
        evaluator.eval(&program, &mut environment, &float_unit),
        Object::Error(String::from("evaluation budget exceeded"))
    );
    assert_eq!(evaluator.budget, 50);

    let mut environment = Environment::new();
    let mut evaluator = Evaluator::new();
    assert_eq!(evaluator.budget, DEFAULT_BUDGET);
    assert_eq!(
        evaluator.eval(&program, &mut environment, &float_unit),
        Object::Error(String::from("evaluation budget exceeded"))
    );

    let counted = parse(
        "let down = func(self, n) { if (n == 0) { 0 } else { self(self, n - 1) } }; down(down, 3)",
    );
    let mut environment = Environment::new();
    let mut evaluator = Evaluator::with_budget(4);
    assert_eq!(
        evaluator.eval(&counted, &mut environment, &float_unit),
        Object::Integer(0)
    );
    let mut environment = Environment::new();
    let mut evaluator = Evaluator::with_budget(3);
    assert_eq!(
        evaluator.eval(&counted, &mut environment, &float_unit),
        Object::Error(String::from("evaluation budget exceeded"))
    );
}

#[test]
fn unknown_prefix_operators_are_errors() {
    let program = Program {
        statements: vec![Statement::Expression {
            expression: Expression::Prefix {
                operator: Operator::Plus,
                right: Box::new(Expression::Int(1)),
            },
        }],
    };
    let mut environment = Environment::new();
    let mut evaluator = Evaluator::new();
    assert_eq!(
        evaluator.eval(&program, &mut environment, &float_unit),
        Object::Error(String::from("unknown operator: +integer"))
    );
    let program = Program {
        statements: vec![Statement::Expression {
            expression: Expression::Infix {
                operator: Operator::Not,
                left: Box::new(Expression::Int(1)),
                right: Box::new(Expression::Int(1)),
            },
        }],
    };
    assert_eq!(
        evaluator.eval(&program, &mut environment, &float_unit),
        Object::Error(String::from("unknown operator: integer ! integer"))
    );
}

#[test]
fn reserved_words_are_lower_case() {
    assert_eq!(
        test_eval("5 + TRUE"),
        Object::Error(String::from("identifier not found: TRUE"))
    );
    let program = parse("IF");
    let mut environment = Environment::new();
    environment.set(String::from("IF"), Object::Integer(3));
    let mut evaluator = Evaluator::new();
    assert_eq!(
        evaluator.eval(&program, &mut environment, &float_unit),
        Object::Integer(3)
    );
}

#[test]
fn return_never_escapes() {
    assert_eq!(
        test_eval("return if (true) { return 5 }"),
        Object::Integer(5)
    );
    let program = parse("wrapped");
    let mut environment = Environment::new();
    environment.set(
        String::from("wrapped"),
        Object::Return(Box::new(Object::Return(Box::new(Object::Integer(9))))),
    );
    let mut evaluator = Evaluator::new();
    assert_eq!(
        evaluator.eval(&program, &mut environment, &float_unit),
        Object::Integer(9)
    );
}

#[test]
fn floats_take_no_not_between_them() {
    let program = Program {
        statements: vec![Statement::Expression {
            expression: Expression::Infix {
                operator: Operator::Not,
                left: Box::new(Expression::Float(String::from("1.5"))),
                right: Box::new(Expression::Float(String::from("2.5"))),
            },
        }],
    };
    let mut environment = Environment::new();
    let mut evaluator = Evaluator::new();
    assert_eq!(
        evaluator.eval(&program, &mut environment, &float_unit),
        Object::Error(String::from("unknown operator: float ! float"))
    );
    assert_eq!(
        test_eval("-func() { 1 }"),
        Object::Error(String::from("unknown operator: -function"))
    );
    assert_eq!(
        test_eval("true < false"),
        Object::Error(String::from("unknown operator: boolean < boolean"))
    );
}
