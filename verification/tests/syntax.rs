use autopilot::interpreter::ast::{
    BlockStatement, Expression, Operator, Program, Statement,
};
use autopilot::interpreter::lexer::Lexer;
use autopilot::interpreter::parser::{is_float_literal, Parser, Precedence};
use autopilot::interpreter::token::Token;

fn parse(input: &str) -> (Program, Vec<String>) {
    let lexer = Lexer::new(input);
    let mut parser = Parser::new(lexer);
    let program = parser.parse_program();
    (program, parser.errors())
}

#[test]
fn operators_come_from_their_tokens() {
    assert_eq!(Operator::from(&Token::Bang), Some(Operator::Not));
    assert_eq!(Operator::from(&Token::Plus), Some(Operator::Plus));
    assert_eq!(Operator::from(&Token::Minus), Some(Operator::Minus));
    assert_eq!(Operator::from(&Token::Slash), Some(Operator::Divide));
    assert_eq!(Operator::from(&Token::Asterisk), Some(Operator::Multiply));
    assert_eq!(Operator::from(&Token::Equal), Some(Operator::Equal));
    assert_eq!(Operator::from(&Token::NotEqual), Some(Operator::NotEqual));
    assert_eq!(Operator::from(&Token::LessThan), Some(Operator::LessThan));
    assert_eq!(
        Operator::from(&Token::GreaterThan),
        Some(Operator::GreaterThan)
    );
    assert_eq!(Operator::from(&Token::Assign), None);
    assert_eq!(Operator::from(&Token::LeftParen), None);
    assert_eq!(Operator::from(&Token::Identifier(String::from("x"))), None);
}

#[test]
fn operators_print_their_signs() {
    let signs = vec![
        (Operator::Plus, "+"),
        (Operator::Minus, "-"),
        (Operator::Not, "!"),
        (Operator::Multiply, "*"),
        (Operator::Divide, "/"),
        (Operator::Equal, "=="),
        (Operator::NotEqual, "!="),
        (Operator::LessThan, "<"),
        (Operator::GreaterThan, ">"),
    ];
    for (operator, sign) in signs {
        assert_eq!(operator.to_string(), sign);
        assert_eq!(operator.symbol(), sign);
    }
}

#[test]
fn precedences_are_ordered() {
    let order = vec![
        Precedence::Lowest,
        Precedence::Equals,
        Precedence::LessGreater,
        Precedence::Sum,
        Precedence::Product,
        Precedence::Prefix,
        Precedence::Call,
    ];
    for i in 0..order.len() {
        assert_eq!(order[i].rank() as usize, i);
    }
}

#[test]
fn statements_print_as_written() {
    let (program, errors) = parse("let x = 5 + 1; return -x; x");
    assert_eq!(errors, vec![] as Vec<String>);
    assert_eq!(program.statements[0].to_string(), "let x = (5 + 1);");
    assert_eq!(program.statements[1].to_string(), "return (-x);");
    assert_eq!(program.statements[2].to_string(), "x");
    assert_eq!(program.to_string(), "let x = (5 + 1);return (-x);x");
}

#[test]
fn blocks_functions_and_ifs_print() {
    let (program, errors) =
        parse("if (a < b) { a; b } else { c } func(x, y, z) { x } func() { } 12 1.50 true");
    assert_eq!(errors, vec![] as Vec<String>);
    assert_eq!(
        program.statements[0].to_string(),
        "if (a < b) { a }{ b } else { c }"
    );
    assert_eq!(program.statements[1].to_string(), "(x,y,z) { x }");
    assert_eq!(program.statements[2].to_string(), "() ");
    assert_eq!(program.statements[3].to_string(), "12");
    assert_eq!(program.statements[4].to_string(), "1.50");
    assert_eq!(program.statements[5].to_string(), "true");
}

#[test]
fn negative_integers_print_with_their_sign() {
    assert_eq!(Expression::Int(-42).to_string(), "-42");
    assert_eq!(Expression::Int(0).to_string(), "0");
    assert_eq!(Expression::Int(isize::MIN).to_string(), format!("{}", isize::MIN));
    assert_eq!(Expression::Int(isize::MAX).to_string(), format!("{}", isize::MAX));
}

#[test]
fn block_text_wraps_each_statement() {
    let block = BlockStatement {
        statements: vec![
            Statement::Expression {
                expression: Expression::Int(1),
            },
            Statement::Return {
                expression: Expression::Boolean(false),
            },
        ],
    };
    assert_eq!(block.to_string(), "{ 1 }{ return false; }");
}

#[test]
fn copies_are_the_same_tree() {
    let (program, _) = parse("let f = func(a, b) { if (a) { b(1, 2.5) } else { !a } };");
    let statement = &program.statements[0];
    let copy = statement.clone();
    assert!(statement.same(&copy));
    assert_eq!(*statement, copy);
    let (other, _) = parse("let f = func(a, b) { if (a) { b(1, 2.5) } else { -a } };");
    assert!(!statement.same(&other.statements[0]));
    assert!(program.same(&program));
    assert!(!program.same(&other));
    assert!(Program::new().same(&Program::new()));
    assert_eq!(Program::new().statements.len(), 0);
}

#[test]
fn float_literals_are_digits_point_digits() {
    assert!(is_float_literal("1.5"));
    assert!(is_float_literal("1000.200"));
    assert!(is_float_literal("7."));
    assert!(!is_float_literal("1.2.3"));
    assert!(!is_float_literal("1..2"));
    assert!(!is_float_literal(".5"));
    assert!(!is_float_literal("15"));
    assert!(!is_float_literal(""));
    assert!(!is_float_literal("1.5x"));
    assert!(!is_float_literal("x.5"));
}

#[test]
fn float_literals_keep_their_text() {
    let (program, errors) = parse("1.50 + 7.");
    assert_eq!(errors, vec![] as Vec<String>);
    assert_eq!(
        program.statements,
        vec![Statement::Expression {
            expression: Expression::Infix {
                operator: Operator::Plus,
                left: Box::new(Expression::Float(String::from("1.50"))),
                right: Box::new(Expression::Float(String::from("7."))),
            }
        }]
    );
}

#[test]
fn malformed_numerals_are_parse_errors() {
    let (program, errors) = parse("1.2.3");
    assert_eq!(errors, vec![String::from("Could not parse 1.2.3 as float")]);
    assert_eq!(program.statements, vec![]);

    let (program, errors) = parse("99999999999999999999999999");
    assert_eq!(
        errors,
        vec![String::from(
            "Could not parse 99999999999999999999999999 as integer"
        )]
    );
    assert_eq!(program.statements, vec![]);

    let (program, errors) = parse(&format!("{}", isize::MAX));
    assert_eq!(errors, vec![] as Vec<String>);
    assert_eq!(
        program.statements,
        vec![Statement::Expression {
            expression: Expression::Int(isize::MAX)
        }]
    );
}

#[test]
fn a_missing_token_is_named_with_what_stands_there() {
    let (_, errors) = parse("let x 5;");
    assert_eq!(
        errors,
        vec![String::from(
            "Expected next token to be Assign, got Int(\"5\") instead"
        )]
    );

    let (_, errors) = parse("(1 + 2");
    assert_eq!(
        errors,
        vec![String::from(
            "Expected next token to be RightParen, got Eof instead"
        )]
    );

    let (_, errors) = parse("if (x) y");
    assert_eq!(
        errors,
        vec![String::from(
            "Expected next token to be LeftBrackets, got Identifier(\"y\") instead"
        )]
    );

    let (_, errors) = parse("let x = 5");
    assert_eq!(
        errors,
        vec![String::from(
            "Expected next token to be Semicolon, got Eof instead"
        )]
    );

    let (_, errors) = parse("func x");
    assert_eq!(
        errors,
        vec![String::from(
            "Expected next token to be LeftParen, got Identifier(\"x\") instead"
        )]
    );
}

#[test]
fn a_token_that_starts_no_expression_is_an_error() {
    let (program, errors) = parse(")");
    assert_eq!(
        errors,
        vec![String::from("No prefix parse function found for RightParen")]
    );
    assert_eq!(program.statements, vec![]);

    let (_, errors) = parse("#");
    assert_eq!(
        errors,
        vec![String::from("No prefix parse function found for Illegal")]
    );

    let (_, errors) = parse("1 + ");
    assert_eq!(
        errors,
        vec![String::from("No prefix parse function found for Eof")]
    );
}

#[test]
fn several_errors_are_found_in_one_pass() {
    let (program, errors) = parse("let x 5; let y = 10; let z 7; ) 3");
    assert_eq!(
        errors,
        vec![
            String::from("Expected next token to be Assign, got Int(\"5\") instead"),
            String::from("Expected next token to be Assign, got Int(\"7\") instead"),
            String::from("No prefix parse function found for RightParen"),
        ]
    );
    assert_eq!(
        program.statements,
        vec![
            Statement::Expression {
                expression: Expression::Int(5)
            },
            Statement::Let {
                identifier: String::from("y"),
                expression: Expression::Int(10)
            },
            Statement::Expression {
                expression: Expression::Int(7)
            },
            Statement::Expression {
                expression: Expression::Int(3)
            },
        ]
    );
}

#[test]
fn a_call_without_its_closing_parenthesis_loses_its_arguments() {
    let (program, errors) = parse("add(1, 2");
    assert_eq!(
        errors,
        vec![String::from(
            "Expected next token to be RightParen, got Eof instead"
        )]
    );
    assert_eq!(
        program.statements,
        vec![Statement::Expression {
            expression: Expression::Call {
                function: Box::new(Expression::Identifier(String::from("add"))),
                arguments: vec![],
            }
        }]
    );
}

#[test]
fn calls_and_groups_nest() {
    let (program, errors) = parse("f(g(1)(2), (3))(4)");
    assert_eq!(errors, vec![] as Vec<String>);
    assert_eq!(program.to_string(), "f(g(1)(2), 3)(4)");
    let (program, errors) = parse("a == b != c < d > e");
    assert_eq!(errors, vec![] as Vec<String>);
    assert_eq!(program.to_string(), "((a == b) != ((c < d) > e))");
    let (program, errors) = parse("-f(x) * !g(y)");
    assert_eq!(errors, vec![] as Vec<String>);
    assert_eq!(program.to_string(), "((-f(x)) * (!g(y)))");
}

#[test]
fn an_empty_source_is_an_empty_program() {
    let (program, errors) = parse("");
    assert_eq!(errors, vec![] as Vec<String>);
    assert_eq!(program.statements, vec![]);
    let (program, errors) = parse("  \n\t ");
    assert_eq!(errors, vec![] as Vec<String>);
    assert_eq!(program.statements, vec![]);
    let (program, errors) = parse(";;");
    assert_eq!(
        errors,
        vec![
            String::from("No prefix parse function found for Semicolon"),
            String::from("No prefix parse function found for Semicolon"),
        ]
    );
    assert_eq!(program.statements, vec![]);
}

#[test]
fn the_parser_stands_on_eof_at_the_end() {
    let lexer = Lexer::new("1 + 2;");
    let mut parser = Parser::new(lexer);
    parser.parse_program();
    assert_eq!(parser.current_token(), Token::Eof);
    assert_eq!(parser.peek_token(), Token::Eof);
}

#[test]
fn unicode_letters_and_spaces() {
    let mut lexer = Lexer::new("höhe\u{a0}=\u{2003}größe");
    assert_eq!(lexer.next_token(), Token::Identifier(String::from("höhe")));
    assert_eq!(lexer.next_token(), Token::Assign);
    assert_eq!(lexer.next_token(), Token::Identifier(String::from("größe")));
    assert_eq!(lexer.next_token(), Token::Eof);
}

#[test]
fn a_missing_name_is_an_error() {
    let (program, errors) = parse("let 5;");
    assert_eq!(
        errors,
        vec![String::from(
            "Expected next token to be Identifier, got Int(\"5\") instead"
        )]
    );
    assert_eq!(
        program.statements,
        vec![Statement::Expression {
            expression: Expression::Int(5)
        }]
    );

    let (program, errors) = parse("func(x, 1) { x }");
    assert_eq!(
        errors,
        vec![String::from(
            "Expected next token to be Identifier, got Int(\"1\") instead"
        )]
    );
    assert_eq!(program.to_string(), "(x) { x }");

    let (program, errors) = parse("func(1) { x }");
    assert_eq!(
        errors,
        vec![String::from(
            "Expected next token to be Identifier, got Int(\"1\") instead"
        )]
    );
    assert_eq!(program.to_string(), "() { x }");

    let (program, errors) = parse("func(x, ) { x }");
    assert_eq!(
        errors,
        vec![
            String::from("Expected next token to be Identifier, got RightParen instead"),
            String::from("Expected next token to be RightParen, got LeftBrackets instead"),
            String::from("No prefix parse function found for LeftBrackets"),
            String::from("No prefix parse function found for RightBrackets"),
        ]
    );
    assert_eq!(program.to_string(), "x");
}
