use autopilot::components::program::Program;
use autopilot::interpreter::ast::Operator;
use autopilot::interpreter::host::FloatRequest;
use autopilot::interpreter::object::{
    Command, CommandFn, Environment, Object, ProgramVariable,
};
use autopilot::interpreter::evaluator::float_infix_object;
use autopilot::resources::input::{Input, KeyCode};
use autopilot::resources::program_environment::{
    ProgramEnvironment, ProgramVariable as ShownVariable, ProgramVariableValue,
};
use autopilot::setup_environment::{bind_host_calls, set_up, Telemetry};
use autopilot::systems::interpreter::{InterpreterSystem, Readings};
use autopilot::systems::thrust::ThrusterSystem;

fn unit(request: FloatRequest) -> u64 {
    match request {
        FloatRequest::Literal(text) => text.parse::<f64>().unwrap_or(f64::NAN).to_bits(),
        FloatRequest::FromInteger(value) => (value as f64).to_bits(),
        FloatRequest::Negate(value) => (-f64::from_bits(value)).to_bits(),
        FloatRequest::Binary {
            operator,
            left,
            right,
        } => {
            let left = f64::from_bits(left);
            let right = f64::from_bits(right);
            match operator {
                Operator::Plus => (left + right).to_bits(),
                Operator::Minus => (left - right).to_bits(),
                Operator::Multiply => (left * right).to_bits(),
                Operator::Divide => (left / right).to_bits(),
                Operator::LessThan => (left < right) as u64,
                Operator::GreaterThan => (left > right) as u64,
                Operator::Equal => (left == right) as u64,
                Operator::NotEqual => (left != right) as u64,
                Operator::Not => 0,
            }
        }
    }
}

fn readings(time: isize, altitude: f64, angle: f64, angular_velocity: f64) -> Readings {
    Readings {
        mission_time: time,
        altitude: altitude.to_bits(),
        angle: angle.to_bits(),
        angular_velocity: angular_velocity.to_bits(),
    }
}

#[test]
fn float_answers_become_values() {
    assert_eq!(
        float_infix_object(Operator::Plus, 2.5f64.to_bits()),
        Object::Float(2.5f64.to_bits())
    );
    assert_eq!(
        float_infix_object(Operator::Divide, 0),
        Object::Float(0)
    );
    assert_eq!(
        float_infix_object(Operator::LessThan, 1),
        Object::Boolean(true)
    );
    assert_eq!(
        float_infix_object(Operator::Equal, 0),
        Object::Boolean(false)
    );
    assert_eq!(
        float_infix_object(Operator::NotEqual, 2),
        Object::Boolean(true)
    );
}

#[test]
fn host_calls_validate_their_arguments() {
    assert_eq!(
        CommandFn::SetThrust.call(&vec![Object::Integer(10)], &unit),
        Ok(Command::SetThrust {
            throttle: 10.0f64.to_bits()
        })
    );
    assert_eq!(
        CommandFn::SetTorque.call(&vec![Object::Float(0.5f64.to_bits())], &unit),
        Ok(Command::SetTorque {
            force: 0.5f64.to_bits()
        })
    );
    assert_eq!(
        CommandFn::SetTorque.call(&vec![], &unit),
        Err(String::from("wrong number of arguments. got=0, want=1"))
    );
    assert_eq!(
        CommandFn::SetThrust.call(&vec![Object::Integer(1), Object::Integer(2)], &unit),
        Err(String::from("wrong number of arguments. got=2, want=1"))
    );
    assert_eq!(
        CommandFn::SetThrust.call(&vec![Object::Null], &unit),
        Err(String::from("argument not supported, got null"))
    );
    assert_eq!(
        CommandFn::SetThrust.call(
            &vec![Object::Command {
                function: CommandFn::SetThrust
            }],
            &unit
        ),
        Err(String::from("argument not supported, got command"))
    );
}

#[test]
fn set_up_binds_calls_and_readings() {
    let mut environment = Environment::new();
    environment.set(String::from("ALTITUDE"), Object::Null);
    environment.set(String::from("mine"), Object::Integer(1));
    let telemetry = Telemetry {
        altitude: 400,
        longitude: -20,
        angle: 90,
        longitudinal_velocity: 3,
        altitude_velocity: -4,
        angular_velocity: 5,
    };
    set_up(&telemetry, &mut environment);
    assert_eq!(environment.get("ALTITUDE"), Some(Object::Integer(400)));
    assert_eq!(environment.get("LONGITUDE"), Some(Object::Integer(-20)));
    assert_eq!(environment.get("ANGLE"), Some(Object::Integer(90)));
    assert_eq!(environment.get("LONG_VEL"), Some(Object::Integer(3)));
    assert_eq!(environment.get("ALT_VEL"), Some(Object::Integer(-4)));
    assert_eq!(environment.get("ANG_VEL"), Some(Object::Integer(5)));
    assert_eq!(environment.get("mine"), Some(Object::Integer(1)));
    assert_eq!(environment.get("SET_THRUST").map(|o| o.name()), Some(String::from("command")));
    assert_eq!(environment.get("SET_TORQUE").map(|o| o.name()), Some(String::from("command")));
    assert_eq!(environment.get_variables().len(), 7);
}

#[test]
fn host_calls_are_bound_under_their_names() {
    let mut environment = Environment::new();
    bind_host_calls(&mut environment);
    match environment.get("SET_THRUST") {
        Some(Object::Command { function }) => assert_eq!(function, CommandFn::SetThrust),
        _ => panic!("SET_THRUST is not bound to a command"),
    }
    match environment.get("SET_TORQUE") {
        Some(Object::Command { function }) => assert_eq!(function, CommandFn::SetTorque),
        _ => panic!("SET_TORQUE is not bound to a command"),
    }
}

#[test]
fn a_new_program_has_nothing() {
    let program = Program::new();
    assert_eq!(program.program, Err(vec![]));
    assert_eq!(program.commands, vec![]);
    assert_eq!(program.environment.get_variables(), vec![]);
}

#[test]
fn update_parses_the_source() {
    let mut program = Program::new();
    program.update(String::from("let a = 1; a + 1"));
    match &program.program {
        Ok(parsed) => assert_eq!(parsed.to_string(), "let a = 1;(a + 1)"),
        Err(_) => panic!("the source should parse"),
    }
    program.update(String::from("let a 1; )"));
    assert_eq!(
        program.program,
        Err(vec![
            String::from("Expected next token to be Assign, got Int(\"1\") instead"),
            String::from("No prefix parse function found for RightParen"),
        ])
    );
}

#[test]
fn a_tick_runs_the_program_against_the_readings() {
    let mut system = InterpreterSystem::new();
    let mut program = Program::new();
    program.update(String::from(
        "if (ALTITUDE < 100.0) { SET_THRUST(1) } else { SET_THRUST(0.25) }
         let spin = ANG_VEL * -0.5;
         SET_TORQUE(spin)
         let late = TIME > 1000;",
    ));
    let error = system.update(&mut program, &readings(2000, 50.0, 90.0, 4.0), &unit);
    assert_eq!(error, None);
    assert_eq!(
        program.commands,
        vec![
            Command::SetThrust {
                throttle: 1.0f64.to_bits()
            },
            Command::SetTorque {
                force: (-2.0f64).to_bits()
            },
        ]
    );
    let mut variables = program.environment.get_variables();
    variables.sort_by(|x, y| x.0.cmp(&y.0));
    assert_eq!(
        variables,
        vec![
            (String::from("ALTITUDE"), ProgramVariable::Float(50.0f64.to_bits())),
            (String::from("ANGLE"), ProgramVariable::Float(90.0f64.to_bits())),
            (String::from("ANG_VEL"), ProgramVariable::Float(4.0f64.to_bits())),
            (String::from("TIME"), ProgramVariable::Integer(2000)),
            (String::from("late"), ProgramVariable::Boolean(true)),
            (String::from("spin"), ProgramVariable::Float((-2.0f64).to_bits())),
        ]
    );

    let error = system.update(&mut program, &readings(10, 500.0, 0.0, 0.0), &unit);
    assert_eq!(error, None);
    assert_eq!(
        program.commands,
        vec![
            Command::SetThrust {
                throttle: 0.25f64.to_bits()
            },
            Command::SetTorque {
                force: (-0.0f64).to_bits()
            },
        ]
    );
    assert_eq!(program.environment.get("late"), Some(Object::Boolean(false)));
}

#[test]
fn a_tick_forgets_what_the_last_one_bound() {
    let mut system = InterpreterSystem::new();
    let mut program = Program::new();
    program.update(String::from("let seen = 1;"));
    system.update(&mut program, &readings(0, 0.0, 0.0, 0.0), &unit);
    assert_eq!(program.environment.get("seen"), Some(Object::Integer(1)));
    program.update(String::from("seen"));
    let error = system.update(&mut program, &readings(0, 0.0, 0.0, 0.0), &unit);
    assert_eq!(
        error.map(|e| e.message),
        Some(String::from("identifier not found: seen"))
    );
    assert_eq!(program.commands, vec![]);
}

#[test]
fn a_tick_hands_back_the_evaluation_error() {
    let mut system = InterpreterSystem::new();
    let mut program = Program::new();
    program.update(String::from("SET_THRUST(1) SET_THRUST(TIME, TIME) SET_THRUST(2)"));
    let error = system.update(&mut program, &readings(0, 0.0, 0.0, 0.0), &unit);
    assert_eq!(
        error.map(|e| e.message),
        Some(String::from("wrong number of arguments. got=2, want=1"))
    );
    assert_eq!(
        program.commands,
        vec![Command::SetThrust {
            throttle: 1.0f64.to_bits()
        }]
    );
}

#[test]
fn a_source_with_parse_errors_is_not_run() {
    let mut system = InterpreterSystem::new();
    let mut program = Program::new();
    program.update(String::from("SET_THRUST(1)"));
    system.update(&mut program, &readings(0, 0.0, 0.0, 0.0), &unit);
    assert_eq!(program.commands.len(), 1);
    program.update(String::from("SET_THRUST(1) )"));
    let error = system.update(&mut program, &readings(7, 0.0, 0.0, 0.0), &unit);
    assert_eq!(error, None);
    assert_eq!(program.commands, vec![]);
    assert_eq!(program.environment.get("TIME"), Some(Object::Integer(7)));
}

#[test]
fn the_last_thrust_command_counts() {
    let system = ThrusterSystem::new();
    assert_eq!(system.requested_throttle(&vec![]), None);
    assert_eq!(
        system.requested_throttle(&vec![Command::SetTorque { force: 9 }]),
        None
    );
    assert_eq!(
        system.requested_throttle(&vec![
            Command::SetThrust { throttle: 1 },
            Command::SetTorque { force: 9 },
            Command::SetThrust { throttle: 2 },
            Command::SetTorque { force: 8 },
        ]),
        Some(2)
    );
}

#[test]
fn keys_have_names() {
    assert_eq!(KeyCode::new("w"), Some(KeyCode::W));
    assert_eq!(KeyCode::new("s"), Some(KeyCode::S));
    assert_eq!(KeyCode::new("a"), Some(KeyCode::A));
    assert_eq!(KeyCode::new("d"), Some(KeyCode::D));
    assert_eq!(KeyCode::new("z"), Some(KeyCode::Z));
    assert_eq!(KeyCode::new("x"), Some(KeyCode::X));
    assert_eq!(KeyCode::new("W"), None);
    assert_eq!(KeyCode::new("q"), None);
    assert_eq!(KeyCode::new(""), None);
    assert_eq!(KeyCode::new("ws"), None);
}

#[test]
fn keys_are_pressed_and_released() {
    let mut input = Input::default();
    assert_eq!(input.get_pressed(), vec![]);
    assert!(!input.pressed(KeyCode::W));
    input.press(KeyCode::W);
    input.press(KeyCode::A);
    input.press(KeyCode::W);
    assert!(input.pressed(KeyCode::W));
    assert!(input.pressed(KeyCode::A));
    assert!(!input.pressed(KeyCode::S));
    assert_eq!(input.get_pressed().len(), 2);
    input.release(KeyCode::W);
    assert!(!input.pressed(KeyCode::W));
    assert!(input.pressed(KeyCode::A));
    input.release(KeyCode::W);
    input.release(KeyCode::X);
    assert_eq!(input.get_pressed(), vec![KeyCode::A]);
    input.release(KeyCode::A);
    assert_eq!(input.get_pressed(), vec![]);
}

#[test]
fn shown_variables_keep_their_order() {
    let mut environment = ProgramEnvironment::new();
    assert_eq!(environment.get_variables().len(), 0);
    environment
        .add_variable(ShownVariable {
            name: String::from("b"),
            value: ProgramVariableValue::Integer(2),
        })
        .add_variable(ShownVariable {
            name: String::from("a"),
            value: ProgramVariableValue::String(String::from("text")),
        });
    environment.add_variable(ShownVariable {
        name: String::from("f"),
        value: ProgramVariableValue::Function,
    });
    assert_eq!(
        *environment.get_variables(),
        vec![
            ShownVariable {
                name: String::from("b"),
                value: ProgramVariableValue::Integer(2),
            },
            ShownVariable {
                name: String::from("a"),
                value: ProgramVariableValue::String(String::from("text")),
            },
            ShownVariable {
                name: String::from("f"),
                value: ProgramVariableValue::Function,
            },
        ]
    );
    let copy = environment.get_variables()[1].clone();
    assert_eq!(copy.name, "a");
    environment
        .clear()
        .add_variable(ShownVariable {
            name: String::from("t"),
            value: ProgramVariableValue::Boolean(true),
        });
    assert_eq!(environment.get_variables().len(), 1);
    environment.clear();
    assert_eq!(environment.get_variables().len(), 0);
}
