use autopilot::interpreter::ast::{BlockStatement, Expression, Statement};
use autopilot::interpreter::object::{
    Command, CommandFn, Environment, Object, ProgramVariable, RuntimeError,
};
use autopilot::interpreter::text::{
    char_is_digit, chars_of, is_text, parse_integer_literal, push_count, push_integer, same_text,
};

#[test]
fn values_name_their_types() {
    assert_eq!(Object::Integer(1).name(), "integer");
    assert_eq!(Object::Float(0).name(), "float");
    assert_eq!(Object::Boolean(true).name(), "boolean");
    assert_eq!(Object::Return(Box::new(Object::Null)).name(), "return");
    assert_eq!(Object::Error(String::from("x")).name(), "error");
    assert_eq!(
        Object::Function {
            parameters: vec![],
            body: BlockStatement { statements: vec![] },
            environment: Environment::new()
        }
        .name(),
        "function"
    );
    assert_eq!(
        Object::Command {
            function: CommandFn::SetThrust
        }
        .name(),
        "command"
    );
    assert_eq!(Object::Null.name(), "null");
}

#[test]
fn a_new_environment_binds_nothing() {
    let environment = Environment::new();
    assert_eq!(environment.get("a"), None);
    assert_eq!(environment.get_variables(), vec![]);
}

#[test]
fn set_binds_and_overwrites_in_the_current_scope() {
    let mut environment = Environment::new();
    environment.set(String::from("a"), Object::Integer(1));
    environment.set(String::from("b"), Object::Boolean(true));
    assert_eq!(environment.get("a"), Some(Object::Integer(1)));
    assert_eq!(environment.get("b"), Some(Object::Boolean(true)));
    assert_eq!(environment.get("c"), None);
    environment.set(String::from("a"), Object::Integer(2));
    assert_eq!(environment.get("a"), Some(Object::Integer(2)));
    assert_eq!(environment.get("b"), Some(Object::Boolean(true)));
    assert_eq!(environment.get_variables().len(), 2);
}

#[test]
fn lookup_falls_through_to_the_outer_scope() {
    let mut outer = Environment::new();
    outer.set(String::from("a"), Object::Integer(1));
    outer.set(String::from("b"), Object::Integer(2));
    let mut inner = Environment::extend(outer);
    assert_eq!(inner.get("a"), Some(Object::Integer(1)));
    inner.set(String::from("a"), Object::Integer(10));
    assert_eq!(inner.get("a"), Some(Object::Integer(10)));
    assert_eq!(inner.get("b"), Some(Object::Integer(2)));
    assert_eq!(inner.get("c"), None);
    let innermost = Environment::extend(inner);
    assert_eq!(innermost.get("a"), Some(Object::Integer(10)));
    assert_eq!(innermost.get("b"), Some(Object::Integer(2)));
}

#[test]
fn clear_forgets_the_current_scope_only() {
    let mut outer = Environment::new();
    outer.set(String::from("a"), Object::Integer(1));
    let mut inner = Environment::extend(outer);
    inner.set(String::from("a"), Object::Integer(2));
    inner.set(String::from("b"), Object::Integer(3));
    inner.clear();
    assert_eq!(inner.get("a"), Some(Object::Integer(1)));
    assert_eq!(inner.get("b"), None);
}

#[test]
fn a_copy_is_a_snapshot() {
    let mut environment = Environment::new();
    environment.set(String::from("a"), Object::Integer(1));
    let copy = environment.clone();
    environment.set(String::from("a"), Object::Integer(2));
    environment.set(String::from("b"), Object::Integer(3));
    assert_eq!(copy.get("a"), Some(Object::Integer(1)));
    assert_eq!(copy.get("b"), None);
    assert_eq!(environment.get("a"), Some(Object::Integer(2)));
}

#[test]
fn variables_are_the_numbers_and_truth_values_of_the_scope() {
    let mut outer = Environment::new();
    outer.set(String::from("hidden"), Object::Integer(0));
    let mut environment = Environment::extend(outer);
    environment.set(String::from("a"), Object::Integer(1));
    environment.set(String::from("f"), Object::Float(2.5f64.to_bits()));
    environment.set(String::from("t"), Object::Boolean(true));
    environment.set(String::from("n"), Object::Null);
    environment.set(String::from("e"), Object::Error(String::from("x")));
    environment.set(
        String::from("c"),
        Object::Command {
            function: CommandFn::SetTorque,
        },
    );
    environment.set(String::from("a"), Object::Integer(5));
    environment.set(String::from("t"), Object::Null);
    let mut variables = environment.get_variables();
    variables.sort_by(|x, y| x.0.cmp(&y.0));
    assert_eq!(
        variables,
        vec![
            (String::from("a"), ProgramVariable::Integer(5)),
            (String::from("f"), ProgramVariable::Float(2.5f64.to_bits())),
        ]
    );
}

#[test]
fn equal_values_are_equal() {
    assert_eq!(Object::Integer(1), Object::Integer(1));
    assert_ne!(Object::Integer(1), Object::Integer(2));
    assert_ne!(Object::Integer(1), Object::Float(1));
    assert_eq!(Object::Float(7), Object::Float(7));
    assert_ne!(Object::Boolean(true), Object::Boolean(false));
    assert_eq!(Object::Null, Object::Null);
    assert_ne!(Object::Null, Object::Boolean(false));
    assert_eq!(
        Object::Error(String::from("a")),
        Object::Error(String::from("a"))
    );
    assert_ne!(
        Object::Error(String::from("a")),
        Object::Error(String::from("b"))
    );
    assert_eq!(
        Object::Return(Box::new(Object::Integer(1))),
        Object::Return(Box::new(Object::Integer(1)))
    );
    assert_ne!(
        Object::Return(Box::new(Object::Integer(1))),
        Object::Integer(1)
    );
}

#[test]
fn commands_are_equal_to_nothing() {
    let a = Object::Command {
        function: CommandFn::SetThrust,
    };
    let b = Object::Command {
        function: CommandFn::SetThrust,
    };
    assert_ne!(a, b);
    assert_ne!(a, a.clone());
    assert_ne!(
        Object::Return(Box::new(a.clone())),
        Object::Return(Box::new(b.clone()))
    );
    let mut first = Environment::new();
    first.set(String::from("c"), a);
    let mut second = Environment::new();
    second.set(String::from("c"), b);
    assert!(first != second);
}

fn function(environment: Environment) -> Object {
    Object::Function {
        parameters: vec![String::from("x")],
        body: BlockStatement {
            statements: vec![Statement::Expression {
                expression: Expression::Identifier(String::from("x")),
            }],
        },
        environment,
    }
}

#[test]
fn functions_are_equal_with_their_environments() {
    let mut first = Environment::new();
    first.set(String::from("a"), Object::Integer(1));
    first.set(String::from("b"), Object::Integer(2));
    let mut second = Environment::new();
    second.set(String::from("b"), Object::Integer(0));
    second.set(String::from("a"), Object::Integer(1));
    second.set(String::from("b"), Object::Integer(2));
    assert!(first == second);
    assert_eq!(function(first.clone()), function(second.clone()));
    second.set(String::from("c"), Object::Null);
    assert!(first != second);
    assert!(second != first);
    assert_ne!(function(first.clone()), function(second));
    let mut third = Environment::new();
    third.set(String::from("a"), Object::Integer(1));
    third.set(String::from("b"), Object::Integer(3));
    assert!(first != third);
    assert!(Environment::extend(first.clone()) == Environment::extend(first.clone()));
    assert!(Environment::extend(first.clone()) != Environment::extend(third));
    assert!(Environment::extend(first.clone()) != first);
}

#[test]
fn commands_hold_their_numbers() {
    assert_eq!(
        CommandFn::SetThrust.command(5),
        Command::SetThrust { throttle: 5 }
    );
    assert_eq!(
        CommandFn::SetTorque.command(5),
        Command::SetTorque { force: 5 }
    );
}

#[test]
fn runtime_errors_keep_their_message() {
    let error = RuntimeError::new(String::from("identifier not found: x"));
    assert_eq!(error.message, "identifier not found: x");
    assert_eq!(error.clone(), error);
}

#[test]
fn integer_numerals_are_read() {
    assert_eq!(parse_integer_literal("0"), Some(0));
    assert_eq!(parse_integer_literal("007"), Some(7));
    assert_eq!(parse_integer_literal("838383"), Some(838383));
    assert_eq!(
        parse_integer_literal(&format!("{}", isize::MAX)),
        Some(isize::MAX)
    );
    assert_eq!(
        parse_integer_literal(&format!("{}", isize::MAX as u128 + 1)),
        None
    );
    assert_eq!(parse_integer_literal("99999999999999999999999999"), None);
    assert_eq!(parse_integer_literal(""), None);
    assert_eq!(parse_integer_literal("12a"), None);
    assert_eq!(parse_integer_literal("-5"), None);
    assert_eq!(parse_integer_literal("+5"), None);
    assert_eq!(parse_integer_literal("1.5"), None);
}

#[test]
fn numbers_are_written_in_decimal() {
    let mut out = String::from("n=");
    push_count(&mut out, 0);
    out.push(',');
    push_count(&mut out, 1905);
    out.push(',');
    push_integer(&mut out, -1905);
    out.push(',');
    push_integer(&mut out, 10);
    out.push(',');
    push_integer(&mut out, isize::MIN);
    out.push(',');
    push_count(&mut out, usize::MAX);
    assert_eq!(
        out,
        format!("n=0,1905,-1905,10,{},{}", isize::MIN, usize::MAX)
    );
}

#[test]
fn digits_are_zero_to_nine() {
    for c in "0123456789".chars() {
        assert!(char_is_digit(c));
    }
    assert!(!char_is_digit('a'));
    assert!(!char_is_digit('/'));
    assert!(!char_is_digit(':'));
    assert!(!char_is_digit('٣'));
}

#[test]
fn strings_and_their_characters() {
    assert_eq!(chars_of("héllo"), vec!['h', 'é', 'l', 'l', 'o']);
    assert_eq!(chars_of(""), vec![] as Vec<char>);
    assert!(same_text("abc", "abc"));
    assert!(!same_text("abc", "abd"));
    assert!(!same_text("abc", "ab"));
    assert!(is_text(&String::from("func"), "func"));
    assert!(!is_text(&String::from("funcs"), "func"));
}
