//! The parser: from the tokens of a source text to a syntax tree, by recursive
//! descent with operator precedence. Syntax errors are collected, and parsing
//! goes on behind each.

use crate::interpreter::ast::{
    copy_names, expressions_view, names_view, operator_of, statements_view, BlockStatement,
    Expression, ExpressionModel, Operator, Program, Statement, StatementModel,
};
use crate::interpreter::lexer::{scan_all, Lexer};
use crate::interpreter::text::{
    all_digits, char_is_digit, chars_of, integer_literal, is_digit, parse_integer_literal,
};
use crate::interpreter::token::{token_models, token_name, Token, TokenModel};
use vstd::prelude::*;

verus! {

/// How tightly an operator binds, from loosest to tightest.
#[derive(Debug, PartialEq, Eq, Structural, Copy, Clone)]
pub enum Precedence {
    Lowest,
    Equals,  // ==
    LessGreater,  // > or <
    Sum,  // +
    Product,  // *
    Prefix,  // -X or !X
    Call,  // myFunction(x)
}

/// The place of a precedence in the order `Lowest < Equals < LessGreater <
/// Sum < Product < Prefix < Call`.
pub open spec fn precedence_rank(precedence: Precedence) -> int {
    match precedence {
        Precedence::Lowest => 0,
        Precedence::Equals => 1,
        Precedence::LessGreater => 2,
        Precedence::Sum => 3,
        Precedence::Product => 4,
        Precedence::Prefix => 5,
        Precedence::Call => 6,
    }
}

/// The precedence with which a token continues an expression; `Lowest` for a
/// token that continues none.
pub open spec fn token_precedence(token: TokenModel) -> Precedence {
    match token {
        TokenModel::Equal => Precedence::Equals,
        TokenModel::NotEqual => Precedence::Equals,
        TokenModel::LessThan => Precedence::LessGreater,
        TokenModel::GreaterThan => Precedence::LessGreater,
        TokenModel::Plus => Precedence::Sum,
        TokenModel::Minus => Precedence::Sum,
        TokenModel::Slash => Precedence::Product,
        TokenModel::Asterisk => Precedence::Product,
        TokenModel::LeftParen => Precedence::Call,
        _ => Precedence::Lowest,
    }
}

/// Where the parser stands: the index of the current token, and the errors
/// found so far.
pub struct Cursor {
    pub position: int,
    pub errors: Seq<Seq<char>>,
}

/// The token at index `i`; behind the last token, and before the first, `Eof`.
pub open spec fn token_at(tokens: Seq<TokenModel>, i: int) -> TokenModel {
    if 0 <= i < tokens.len() {
        tokens[i]
    } else {
        TokenModel::Eof
    }
}

/// The token on which the cursor stands.
pub open spec fn current(tokens: Seq<TokenModel>, c: Cursor) -> TokenModel {
    token_at(tokens, c.position)
}

/// The token behind the one on which the cursor stands.
pub open spec fn peek(tokens: Seq<TokenModel>, c: Cursor) -> TokenModel {
    token_at(tokens, c.position + 1)
}

/// One token further; behind the last token the cursor stays.
pub open spec fn advance(tokens: Seq<TokenModel>, c: Cursor) -> Cursor {
    if c.position < tokens.len() {
        Cursor { position: c.position + 1, errors: c.errors }
    } else {
        c
    }
}

/// The same place, with one more error.
pub open spec fn fail(c: Cursor, message: Seq<char>) -> Cursor {
    Cursor { position: c.position, errors: c.errors.push(message) }
}

/// How many tokens lie at or behind the cursor.
pub open spec fn remaining(tokens: Seq<TokenModel>, c: Cursor) -> nat {
    if c.position < tokens.len() {
        (tokens.len() - c.position) as nat
    } else {
        0
    }
}

/// The message for a token that is not the expected one.
pub open spec fn unexpected_token_text(expected: TokenModel, found: TokenModel) -> Seq<char> {
    "Expected next token to be "@ + token_name(expected) + ", got "@ + token_name(found)
        + " instead"@
}

/// The message for a token that stands where a name is expected.
pub open spec fn missing_name_text(found: TokenModel) -> Seq<char> {
    "Expected next token to be Identifier, got "@ + token_name(found) + " instead"@
}

/// The message for a token that starts no expression.
pub open spec fn no_prefix_text(found: TokenModel) -> Seq<char> {
    "No prefix parse function found for "@ + token_name(found)
}

/// The message for an integer numeral that cannot be read.
pub open spec fn bad_integer_text(text: Seq<char>) -> Seq<char> {
    "Could not parse "@ + text + " as integer"@
}

/// The message for a float numeral that cannot be read.
pub open spec fn bad_float_text(text: Seq<char>) -> Seq<char> {
    "Could not parse "@ + text + " as float"@
}

/// A float numeral: digits, one point, and digits again, of which the second
/// run may be empty.
pub open spec fn float_literal(text: Seq<char>) -> bool {
    exists|point: int|
        0 < point < text.len() && #[trigger] text[point] == '.' && all_digits(
            text.subrange(0, point),
        ) && all_digits(text.subrange(point + 1, text.len() as int))
}

/// Steps over the next token if it is the expected one, and records an error
/// if it is not.
pub open spec fn expect_peek(tokens: Seq<TokenModel>, c: Cursor, expected: TokenModel) -> (
    bool,
    Cursor,
) {
    if peek(tokens, c) == expected {
        (true, advance(tokens, c))
    } else {
        (false, fail(c, unexpected_token_text(expected, peek(tokens, c))))
    }
}

/// Steps over a semicolon, if one comes next.
pub open spec fn skip_semicolon(tokens: Seq<TokenModel>, c: Cursor) -> Cursor {
    if peek(tokens, c) == TokenModel::Semicolon {
        advance(tokens, c)
    } else {
        c
    }
}

/// The expression that starts at the current token, and where it ends: one
/// prefix form, then every infix operator and call that binds more tightly
/// than `precedence`. The cursor ends on the last token of the expression.
///
/// The tests on positions in these definitions hold wherever they stand,
/// since no step moves the cursor back; they are what shows that the
/// definitions are well founded.
pub open spec fn parse_expression(tokens: Seq<TokenModel>, c: Cursor, precedence: Precedence) -> (
    Option<ExpressionModel>,
    Cursor,
)
    decreases remaining(tokens, c), 4int,
{
    let (prefix, c1) = parse_prefix(tokens, c);
    match prefix {
        Some(left) => if c1.position >= c.position {
            let (expression, c2) = infix_loop(tokens, c1, precedence, left);
            (Some(expression), c2)
        } else {
            (Some(left), c1)
        },
        None => (None, c1),
    }
}

/// Folds infix operators and calls into `left` while the next token binds more
/// tightly than `precedence`. Operators of one precedence group to the left.
pub open spec fn infix_loop(
    tokens: Seq<TokenModel>,
    c: Cursor,
    precedence: Precedence,
    left: ExpressionModel,
) -> (ExpressionModel, Cursor)
    decreases remaining(tokens, c), 3int,
{
    let next = peek(tokens, c);
    if next != TokenModel::Semicolon && precedence_rank(precedence) < precedence_rank(
        token_precedence(next),
    ) {
        let c1 = advance(tokens, c);
        if next == TokenModel::LeftParen {
            let (arguments, c2) = call_arguments(tokens, c1);
            let call = ExpressionModel::Call { function: Box::new(left), arguments };
            if c2.position > c.position {
                infix_loop(tokens, c2, precedence, call)
            } else {
                (call, c2)
            }
        } else {
            let c2 = advance(tokens, c1);
            let (right, c3) = parse_expression(tokens, c2, token_precedence(next));
            match (operator_of(next), right) {
                (Some(operator), Some(right)) => {
                    let infix = ExpressionModel::Infix {
                        operator,
                        left: Box::new(left),
                        right: Box::new(right),
                    };
                    if c3.position > c.position {
                        infix_loop(tokens, c3, precedence, infix)
                    } else {
                        (infix, c3)
                    }
                },
                _ => (left, c3),
            }
        }
    } else {
        (left, c)
    }
}

/// The prefix form that the current token starts: a name, a numeral, a truth
/// value, a prefix operator with its operand, a group in parentheses, an `if`
/// or a function literal. Any other token is an error.
pub open spec fn parse_prefix(tokens: Seq<TokenModel>, c: Cursor) -> (
    Option<ExpressionModel>,
    Cursor,
)
    decreases remaining(tokens, c), 3int,
{
    match current(tokens, c) {
        TokenModel::Identifier(name) => (Some(ExpressionModel::Identifier(name)), c),
        TokenModel::Int(text) => match integer_literal(text) {
            Some(value) => (Some(ExpressionModel::Int(value)), c),
            None => (None, fail(c, bad_integer_text(text))),
        },
        TokenModel::Float(text) => if float_literal(text) {
            (Some(ExpressionModel::Float(text)), c)
        } else {
            (None, fail(c, bad_float_text(text)))
        },
        TokenModel::True => (Some(ExpressionModel::Boolean(true)), c),
        TokenModel::False => (Some(ExpressionModel::Boolean(false)), c),
        TokenModel::Bang => prefix_operation(tokens, c, Operator::Not),
        TokenModel::Minus => prefix_operation(tokens, c, Operator::Minus),
        TokenModel::LeftParen => {
            let (inner, c1) = parse_expression(tokens, advance(tokens, c), Precedence::Lowest);
            match inner {
                Some(expression) => {
                    let (closed, c2) = expect_peek(tokens, c1, TokenModel::RightParen);
                    if closed {
                        (Some(expression), c2)
                    } else {
                        (None, c2)
                    }
                },
                None => (None, c1),
            }
        },
        TokenModel::If => parse_if(tokens, c),
        TokenModel::Function => parse_function(tokens, c),
        other => (None, fail(c, no_prefix_text(other))),
    }
}

/// A prefix operator, which is the current token, and its operand.
pub open spec fn prefix_operation(tokens: Seq<TokenModel>, c: Cursor, operator: Operator) -> (
    Option<ExpressionModel>,
    Cursor,
)
    decreases remaining(tokens, c), 2int,
{
    if current(tokens, c) == TokenModel::Eof {
        (None, c)
    } else {
        let (right, c1) = parse_expression(tokens, advance(tokens, c), Precedence::Prefix);
        match right {
            Some(right) => (Some(ExpressionModel::Prefix { operator, right: Box::new(right) }), c1),
            None => (None, c1),
        }
    }
}

/// `if ( condition ) { block }`, with an optional `else { block }`; the
/// current token is the `if`.
pub open spec fn parse_if(tokens: Seq<TokenModel>, c: Cursor) -> (Option<ExpressionModel>, Cursor)
    decreases remaining(tokens, c), 2int,
{
    let (opened, c1) = expect_peek(tokens, c, TokenModel::LeftParen);
    if !opened {
        (None, c1)
    } else {
        let (condition, c2) = parse_expression(tokens, advance(tokens, c1), Precedence::Lowest);
        match condition {
            None => (None, c2),
            Some(condition) => {
                let (closed, c3) = expect_peek(tokens, c2, TokenModel::RightParen);
                if !closed {
                    (None, c3)
                } else {
                    let (braced, c4) = expect_peek(tokens, c3, TokenModel::LeftBrackets);
                    if !braced || c4.position <= c.position {
                        (None, c4)
                    } else {
                        let (consequence, c5) = parse_block(tokens, c4);
                        if peek(tokens, c5) == TokenModel::Else && c5.position > c.position {
                            let (braced, c6) = expect_peek(
                                tokens,
                                advance(tokens, c5),
                                TokenModel::LeftBrackets,
                            );
                            if !braced {
                                (None, c6)
                            } else {
                                let (alternative, c7) = parse_block(tokens, c6);
                                (
                                    Some(
                                        ExpressionModel::If {
                                            condition: Box::new(condition),
                                            consequence,
                                            alternative: Some(alternative),
                                        },
                                    ),
                                    c7,
                                )
                            }
                        } else {
                            (
                                Some(
                                    ExpressionModel::If {
                                        condition: Box::new(condition),
                                        consequence,
                                        alternative: None,
                                    },
                                ),
                                c5,
                            )
                        }
                    }
                }
            },
        }
    }
}

/// `func ( parameters ) { block }`; the current token is the `func`.
pub open spec fn parse_function(tokens: Seq<TokenModel>, c: Cursor) -> (
    Option<ExpressionModel>,
    Cursor,
)
    decreases remaining(tokens, c), 2int,
{
    let (opened, c1) = expect_peek(tokens, c, TokenModel::LeftParen);
    if !opened {
        (None, c1)
    } else {
        let (parameters, c2) = function_parameters(tokens, c1);
        match parameters {
            None => (None, c2),
            Some(parameters) => {
                let (braced, c3) = expect_peek(tokens, c2, TokenModel::LeftBrackets);
                if !braced || c3.position <= c.position {
                    (None, c3)
                } else {
                    let (body, c4) = parse_block(tokens, c3);
                    (Some(ExpressionModel::Function { parameters, body }), c4)
                }
            },
        }
    }
}

/// The names between the parentheses of a function literal, separated by
/// commas; the current token is the opening parenthesis. What stands in the
/// place of a name and is none is an error, and is passed over.
pub open spec fn function_parameters(tokens: Seq<TokenModel>, c: Cursor) -> (
    Option<Seq<Seq<char>>>,
    Cursor,
) {
    if peek(tokens, c) == TokenModel::RightParen {
        (Some(Seq::empty()), advance(tokens, c))
    } else {
        let c1 = advance(tokens, c);
        let (names, c2) = match current(tokens, c1) {
            TokenModel::Identifier(name) => parameter_loop(tokens, c1, seq![name]),
            other => (Seq::empty(), fail(c1, missing_name_text(other))),
        };
        let (closed, c3) = expect_peek(tokens, c2, TokenModel::RightParen);
        if closed {
            (Some(names), c3)
        } else {
            (None, c3)
        }
    }
}

/// The names that follow commas, behind `names`.
pub open spec fn parameter_loop(tokens: Seq<TokenModel>, c: Cursor, names: Seq<Seq<char>>) -> (
    Seq<Seq<char>>,
    Cursor,
)
    decreases remaining(tokens, c),
{
    if peek(tokens, c) == TokenModel::Comma {
        let c1 = advance(tokens, advance(tokens, c));
        match current(tokens, c1) {
            TokenModel::Identifier(name) => parameter_loop(tokens, c1, names.push(name)),
            other => parameter_loop(tokens, fail(c1, missing_name_text(other)), names),
        }
    } else {
        (names, c)
    }
}

/// The arguments of a call, separated by commas; the current token is the
/// opening parenthesis. Without the closing parenthesis the list is dropped.
pub open spec fn call_arguments(tokens: Seq<TokenModel>, c: Cursor) -> (
    Seq<ExpressionModel>,
    Cursor,
)
    decreases remaining(tokens, c), 5int,
{
    if peek(tokens, c) == TokenModel::RightParen {
        (Seq::empty(), advance(tokens, c))
    } else {
        let (first, c1) = parse_expression(tokens, advance(tokens, c), Precedence::Lowest);
        match first {
            None => (Seq::empty(), c1),
            Some(first) => {
                let (arguments, c2) = if c1.position >= c.position {
                    argument_loop(tokens, c1, seq![first])
                } else {
                    (seq![first], c1)
                };
                let (closed, c3) = expect_peek(tokens, c2, TokenModel::RightParen);
                if closed {
                    (arguments, c3)
                } else {
                    (Seq::empty(), c3)
                }
            },
        }
    }
}

/// The expressions that follow commas, behind `arguments`. One that does not
/// parse is left out.
pub open spec fn argument_loop(
    tokens: Seq<TokenModel>,
    c: Cursor,
    arguments: Seq<ExpressionModel>,
) -> (Seq<ExpressionModel>, Cursor)
    decreases remaining(tokens, c), 0int,
{
    if peek(tokens, c) == TokenModel::Comma {
        let (next, c1) = parse_expression(
            tokens,
            advance(tokens, advance(tokens, c)),
            Precedence::Lowest,
        );
        let longer = match next {
            Some(next) => arguments.push(next),
            None => arguments,
        };
        if c1.position > c.position {
            argument_loop(tokens, c1, longer)
        } else {
            (longer, c1)
        }
    } else {
        (arguments, c)
    }
}

/// The statements between braces; the current token is the opening brace, and
/// the cursor ends on the closing brace or at the end of the input.
pub open spec fn parse_block(tokens: Seq<TokenModel>, c: Cursor) -> (Seq<StatementModel>, Cursor)
    decreases remaining(tokens, c), 8int,
{
    block_loop(tokens, advance(tokens, c), Seq::empty())
}

/// The statements up to a closing brace or the end of the input, behind
/// `statements`. One that does not parse is left out.
pub open spec fn block_loop(
    tokens: Seq<TokenModel>,
    c: Cursor,
    statements: Seq<StatementModel>,
) -> (Seq<StatementModel>, Cursor)
    decreases remaining(tokens, c), 7int,
{
    if current(tokens, c) == TokenModel::RightBrackets || current(tokens, c) == TokenModel::Eof {
        (statements, c)
    } else {
        let (statement, c1) = parse_statement(tokens, c);
        let longer = match statement {
            Some(statement) => statements.push(statement),
            None => statements,
        };
        let c2 = advance(tokens, c1);
        if c2.position > c.position {
            block_loop(tokens, c2, longer)
        } else {
            (longer, c2)
        }
    }
}

/// The statements of a program, up to the end of the input. A statement that
/// fails to parse leaves its errors and no statement.
pub open spec fn program_loop(
    tokens: Seq<TokenModel>,
    c: Cursor,
    statements: Seq<StatementModel>,
) -> (Seq<StatementModel>, Cursor)
    decreases remaining(tokens, c), 7int,
{
    if current(tokens, c) == TokenModel::Eof {
        (statements, c)
    } else {
        let (statement, c1) = parse_statement(tokens, c);
        let longer = match statement {
            Some(statement) => statements.push(statement),
            None => statements,
        };
        let c2 = advance(tokens, c1);
        if c2.position > c.position {
            program_loop(tokens, c2, longer)
        } else {
            (longer, c2)
        }
    }
}

/// One statement: `let NAME = EXPRESSION;`, `return EXPRESSION`, or an
/// expression; the last two may end in a semicolon. The cursor ends on the
/// last token of the statement, or where parsing it failed.
pub open spec fn parse_statement(tokens: Seq<TokenModel>, c: Cursor) -> (
    Option<StatementModel>,
    Cursor,
)
    decreases remaining(tokens, c), 6int,
{
    match current(tokens, c) {
        TokenModel::Let => match peek(tokens, c) {
            TokenModel::Identifier(identifier) => {
                let (assigned, c1) = expect_peek(tokens, advance(tokens, c), TokenModel::Assign);
                if !assigned {
                    (None, c1)
                } else {
                    let (value, c2) = parse_expression(
                        tokens,
                        advance(tokens, c1),
                        Precedence::Lowest,
                    );
                    match value {
                        Some(expression) => {
                            let (ended, c3) = expect_peek(tokens, c2, TokenModel::Semicolon);
                            if ended {
                                (Some(StatementModel::Let { identifier, expression }), c3)
                            } else {
                                (None, c3)
                            }
                        },
                        None => (None, c2),
                    }
                }
            },
            other => (None, fail(c, missing_name_text(other))),
        },
        TokenModel::Return => {
            let (value, c1) = parse_expression(tokens, advance(tokens, c), Precedence::Lowest);
            match value {
                Some(expression) => (
                    Some(StatementModel::Return { expression }),
                    skip_semicolon(tokens, c1),
                ),
                None => (None, c1),
            }
        },
        _ => {
            let (value, c1) = parse_expression(tokens, c, Precedence::Lowest);
            match value {
                Some(expression) => (
                    Some(StatementModel::Expression { expression }),
                    skip_semicolon(tokens, c1),
                ),
                None => (None, c1),
            }
        },
    }
}

/// The cursor has not moved back, and no error was dropped.
pub open spec fn follows(before: Cursor, after: Cursor) -> bool {
    after.position >= before.position && before.errors.is_prefix_of(after.errors)
}

proof fn lemma_steps_follow(tokens: Seq<TokenModel>, c: Cursor, expected: TokenModel)
    ensures
        follows(c, c),
        follows(c, advance(tokens, c)),
        follows(c, advance(tokens, advance(tokens, c))),
        follows(c, skip_semicolon(tokens, c)),
        follows(c, expect_peek(tokens, c, expected).1),
        forall|message: Seq<char>| follows(c, #[trigger] fail(c, message)),
{
}

proof fn lemma_follows_in_turn(a: Cursor, b: Cursor, c: Cursor)
    requires
        follows(a, b),
        follows(b, c),
    ensures
        follows(a, c),
{
}

/// Parsing an expression never moves the cursor back and never drops an
/// error. The tests on positions in the definitions of the grammar therefore
/// hold wherever they stand.
pub proof fn lemma_expression_follows(tokens: Seq<TokenModel>, c: Cursor, precedence: Precedence)
    ensures
        follows(c, parse_expression(tokens, c, precedence).1),
    decreases remaining(tokens, c), 4int,
{
    lemma_prefix_follows(tokens, c);
    let (prefix, c1) = parse_prefix(tokens, c);
    if let Some(left) = prefix {
        lemma_infix_follows(tokens, c1, precedence, left);
        lemma_follows_in_turn(c, c1, infix_loop(tokens, c1, precedence, left).1);
    }
}

#[verifier::rlimit(40)]
proof fn lemma_infix_follows(
    tokens: Seq<TokenModel>,
    c: Cursor,
    precedence: Precedence,
    left: ExpressionModel,
)
    ensures
        follows(c, infix_loop(tokens, c, precedence, left).1),
    decreases remaining(tokens, c), 3int,
{
    let next = peek(tokens, c);
    lemma_steps_follow(tokens, c, next);
    if next != TokenModel::Semicolon && precedence_rank(precedence) < precedence_rank(
        token_precedence(next),
    ) {
        let c1 = advance(tokens, c);
        if next == TokenModel::LeftParen {
            lemma_arguments_follow(tokens, c1);
            let (arguments, c2) = call_arguments(tokens, c1);
            lemma_follows_in_turn(c, c1, c2);
            let call = ExpressionModel::Call { function: Box::new(left), arguments };
            if c2.position > c.position {
                lemma_infix_follows(tokens, c2, precedence, call);
                lemma_follows_in_turn(c, c2, infix_loop(tokens, c2, precedence, call).1);
            }
        } else {
            let c2 = advance(tokens, c1);
            lemma_expression_follows(tokens, c2, token_precedence(next));
            let (right, c3) = parse_expression(tokens, c2, token_precedence(next));
            lemma_follows_in_turn(c, c2, c3);
            match (operator_of(next), right) {
                (Some(operator), Some(right)) => {
                    let infix = ExpressionModel::Infix {
                        operator,
                        left: Box::new(left),
                        right: Box::new(right),
                    };
                    if c3.position > c.position {
                        lemma_infix_follows(tokens, c3, precedence, infix);
                        lemma_follows_in_turn(c, c3, infix_loop(tokens, c3, precedence, infix).1);
                    }
                },
                _ => {},
            }
        }
    }
}

proof fn lemma_prefix_follows(tokens: Seq<TokenModel>, c: Cursor)
    ensures
        follows(c, parse_prefix(tokens, c).1),
    decreases remaining(tokens, c), 3int,
{
    lemma_steps_follow(tokens, c, TokenModel::RightParen);
    match current(tokens, c) {
        TokenModel::Bang => lemma_prefix_operation_follows(tokens, c, Operator::Not),
        TokenModel::Minus => lemma_prefix_operation_follows(tokens, c, Operator::Minus),
        TokenModel::LeftParen => {
            let c0 = advance(tokens, c);
            lemma_expression_follows(tokens, c0, Precedence::Lowest);
            let (inner, c1) = parse_expression(tokens, c0, Precedence::Lowest);
            lemma_follows_in_turn(c, c0, c1);
            lemma_steps_follow(tokens, c1, TokenModel::RightParen);
            lemma_follows_in_turn(c, c1, expect_peek(tokens, c1, TokenModel::RightParen).1);
        },
        TokenModel::If => lemma_if_follows(tokens, c),
        TokenModel::Function => lemma_function_follows(tokens, c),
        _ => {},
    }
}

proof fn lemma_prefix_operation_follows(tokens: Seq<TokenModel>, c: Cursor, operator: Operator)
    ensures
        follows(c, prefix_operation(tokens, c, operator).1),
    decreases remaining(tokens, c), 2int,
{
    lemma_steps_follow(tokens, c, TokenModel::Eof);
    if current(tokens, c) != TokenModel::Eof {
        let c0 = advance(tokens, c);
        lemma_expression_follows(tokens, c0, Precedence::Prefix);
        lemma_follows_in_turn(c, c0, parse_expression(tokens, c0, Precedence::Prefix).1);
    }
}

#[verifier::rlimit(40)]
proof fn lemma_if_follows(tokens: Seq<TokenModel>, c: Cursor)
    ensures
        follows(c, parse_if(tokens, c).1),
    decreases remaining(tokens, c), 2int,
{
    lemma_steps_follow(tokens, c, TokenModel::LeftParen);
    let (opened, c1) = expect_peek(tokens, c, TokenModel::LeftParen);
    if opened {
        let c1a = advance(tokens, c1);
        lemma_steps_follow(tokens, c1, TokenModel::LeftParen);
        lemma_follows_in_turn(c, c1, c1a);
        lemma_expression_follows(tokens, c1a, Precedence::Lowest);
        let (condition, c2) = parse_expression(tokens, c1a, Precedence::Lowest);
        lemma_follows_in_turn(c, c1a, c2);
        if condition is Some {
            lemma_steps_follow(tokens, c2, TokenModel::RightParen);
            let (closed, c3) = expect_peek(tokens, c2, TokenModel::RightParen);
            lemma_follows_in_turn(c, c2, c3);
            if closed {
                lemma_steps_follow(tokens, c3, TokenModel::LeftBrackets);
                let (braced, c4) = expect_peek(tokens, c3, TokenModel::LeftBrackets);
                lemma_follows_in_turn(c, c3, c4);
                if braced && c4.position > c.position {
                    lemma_block_follows(tokens, c4);
                    let (consequence, c5) = parse_block(tokens, c4);
                    lemma_follows_in_turn(c, c4, c5);
                    if peek(tokens, c5) == TokenModel::Else && c5.position > c.position {
                        let c5a = advance(tokens, c5);
                        lemma_steps_follow(tokens, c5, TokenModel::LeftBrackets);
                        lemma_follows_in_turn(c, c5, c5a);
                        lemma_steps_follow(tokens, c5a, TokenModel::LeftBrackets);
                        let (braced, c6) = expect_peek(tokens, c5a, TokenModel::LeftBrackets);
                        lemma_follows_in_turn(c, c5a, c6);
                        if braced {
                            lemma_block_follows(tokens, c6);
                            lemma_follows_in_turn(c, c6, parse_block(tokens, c6).1);
                        }
                    }
                }
            }
        }
    }
}

proof fn lemma_function_follows(tokens: Seq<TokenModel>, c: Cursor)
    ensures
        follows(c, parse_function(tokens, c).1),
    decreases remaining(tokens, c), 2int,
{
    lemma_steps_follow(tokens, c, TokenModel::LeftParen);
    let (opened, c1) = expect_peek(tokens, c, TokenModel::LeftParen);
    if opened {
        lemma_parameters_follow(tokens, c1);
        let (parameters, c2) = function_parameters(tokens, c1);
        lemma_follows_in_turn(c, c1, c2);
        if parameters is Some {
            lemma_steps_follow(tokens, c2, TokenModel::LeftBrackets);
            let (braced, c3) = expect_peek(tokens, c2, TokenModel::LeftBrackets);
            lemma_follows_in_turn(c, c2, c3);
            if braced && c3.position > c.position {
                lemma_block_follows(tokens, c3);
                lemma_follows_in_turn(c, c3, parse_block(tokens, c3).1);
            }
        }
    }
}

proof fn lemma_parameters_follow(tokens: Seq<TokenModel>, c: Cursor)
    ensures
        follows(c, function_parameters(tokens, c).1),
{
    lemma_steps_follow(tokens, c, TokenModel::RightParen);
    if peek(tokens, c) != TokenModel::RightParen {
        let c1 = advance(tokens, c);
        lemma_steps_follow(tokens, c1, TokenModel::RightParen);
        let c2 = match current(tokens, c1) {
            TokenModel::Identifier(name) => {
                lemma_parameter_loop_follows(tokens, c1, seq![name]);
                parameter_loop(tokens, c1, seq![name]).1
            },
            other => fail(c1, missing_name_text(other)),
        };
        lemma_follows_in_turn(c, c1, c2);
        lemma_steps_follow(tokens, c2, TokenModel::RightParen);
        lemma_follows_in_turn(c, c2, expect_peek(tokens, c2, TokenModel::RightParen).1);
    }
}

proof fn lemma_parameter_loop_follows(
    tokens: Seq<TokenModel>,
    c: Cursor,
    names: Seq<Seq<char>>,
)
    ensures
        follows(c, parameter_loop(tokens, c, names).1),
    decreases remaining(tokens, c),
{
    lemma_steps_follow(tokens, c, TokenModel::Comma);
    if peek(tokens, c) == TokenModel::Comma {
        let c1 = advance(tokens, advance(tokens, c));
        lemma_steps_follow(tokens, c1, TokenModel::Comma);
        match current(tokens, c1) {
            TokenModel::Identifier(name) => {
                lemma_parameter_loop_follows(tokens, c1, names.push(name));
                lemma_follows_in_turn(c, c1, parameter_loop(tokens, c1, names.push(name)).1);
            },
            other => {
                let c2 = fail(c1, missing_name_text(other));
                lemma_parameter_loop_follows(tokens, c2, names);
                lemma_follows_in_turn(c, c1, c2);
                lemma_follows_in_turn(c, c2, parameter_loop(tokens, c2, names).1);
            },
        }
    }
}

proof fn lemma_arguments_follow(tokens: Seq<TokenModel>, c: Cursor)
    ensures
        follows(c, call_arguments(tokens, c).1),
    decreases remaining(tokens, c), 5int,
{
    lemma_steps_follow(tokens, c, TokenModel::RightParen);
    if peek(tokens, c) != TokenModel::RightParen {
        let c0 = advance(tokens, c);
        lemma_expression_follows(tokens, c0, Precedence::Lowest);
        let (first, c1) = parse_expression(tokens, c0, Precedence::Lowest);
        lemma_follows_in_turn(c, c0, c1);
        if let Some(first) = first {
            lemma_argument_loop_follows(tokens, c1, seq![first]);
            let c2 = argument_loop(tokens, c1, seq![first]).1;
            lemma_follows_in_turn(c, c1, c2);
            lemma_steps_follow(tokens, c2, TokenModel::RightParen);
            lemma_follows_in_turn(c, c2, expect_peek(tokens, c2, TokenModel::RightParen).1);
        }
    }
}

proof fn lemma_argument_loop_follows(
    tokens: Seq<TokenModel>,
    c: Cursor,
    arguments: Seq<ExpressionModel>,
)
    ensures
        follows(c, argument_loop(tokens, c, arguments).1),
    decreases remaining(tokens, c), 0int,
{
    lemma_steps_follow(tokens, c, TokenModel::Comma);
    if peek(tokens, c) == TokenModel::Comma {
        let c0 = advance(tokens, advance(tokens, c));
        lemma_expression_follows(tokens, c0, Precedence::Lowest);
        let (next, c1) = parse_expression(tokens, c0, Precedence::Lowest);
        lemma_follows_in_turn(c, c0, c1);
        let longer = match next {
            Some(next) => arguments.push(next),
            None => arguments,
        };
        if c1.position > c.position {
            lemma_argument_loop_follows(tokens, c1, longer);
            lemma_follows_in_turn(c, c1, argument_loop(tokens, c1, longer).1);
        }
    }
}

proof fn lemma_block_follows(tokens: Seq<TokenModel>, c: Cursor)
    ensures
        follows(c, parse_block(tokens, c).1),
    decreases remaining(tokens, c), 8int,
{
    lemma_steps_follow(tokens, c, TokenModel::Eof);
    let c0 = advance(tokens, c);
    lemma_block_loop_follows(tokens, c0, Seq::empty());
    lemma_follows_in_turn(c, c0, block_loop(tokens, c0, Seq::empty()).1);
}

proof fn lemma_block_loop_follows(
    tokens: Seq<TokenModel>,
    c: Cursor,
    statements: Seq<StatementModel>,
)
    ensures
        follows(c, block_loop(tokens, c, statements).1),
    decreases remaining(tokens, c), 7int,
{
    lemma_steps_follow(tokens, c, TokenModel::Eof);
    if !(current(tokens, c) == TokenModel::RightBrackets || current(tokens, c) == TokenModel::Eof) {
        lemma_statement_follows(tokens, c);
        let (statement, c1) = parse_statement(tokens, c);
        let longer = match statement {
            Some(statement) => statements.push(statement),
            None => statements,
        };
        let c2 = advance(tokens, c1);
        lemma_steps_follow(tokens, c1, TokenModel::Eof);
        lemma_follows_in_turn(c, c1, c2);
        if c2.position > c.position {
            lemma_block_loop_follows(tokens, c2, longer);
            lemma_follows_in_turn(c, c2, block_loop(tokens, c2, longer).1);
        }
    }
}

/// Parsing a program never moves the cursor back and never drops an error.
pub proof fn lemma_program_follows(
    tokens: Seq<TokenModel>,
    c: Cursor,
    statements: Seq<StatementModel>,
)
    ensures
        follows(c, program_loop(tokens, c, statements).1),
    decreases remaining(tokens, c), 7int,
{
    lemma_steps_follow(tokens, c, TokenModel::Eof);
    if current(tokens, c) != TokenModel::Eof {
        lemma_statement_follows(tokens, c);
        let (statement, c1) = parse_statement(tokens, c);
        let longer = match statement {
            Some(statement) => statements.push(statement),
            None => statements,
        };
        let c2 = advance(tokens, c1);
        lemma_steps_follow(tokens, c1, TokenModel::Eof);
        lemma_follows_in_turn(c, c1, c2);
        if c2.position > c.position {
            lemma_program_follows(tokens, c2, longer);
            lemma_follows_in_turn(c, c2, program_loop(tokens, c2, longer).1);
        }
    }
}

/// Parsing a statement never moves the cursor back and never drops an error.
pub proof fn lemma_statement_follows(tokens: Seq<TokenModel>, c: Cursor)
    ensures
        follows(c, parse_statement(tokens, c).1),
    decreases remaining(tokens, c), 6int,
{
    lemma_steps_follow(tokens, c, TokenModel::Assign);
    match current(tokens, c) {
        TokenModel::Let => match peek(tokens, c) {
            TokenModel::Identifier(identifier) => {
                let c0 = advance(tokens, c);
                lemma_steps_follow(tokens, c0, TokenModel::Assign);
                let (assigned, c1) = expect_peek(tokens, c0, TokenModel::Assign);
                lemma_follows_in_turn(c, c0, c1);
                if assigned {
                    let c1a = advance(tokens, c1);
                    lemma_steps_follow(tokens, c1, TokenModel::Assign);
                    lemma_follows_in_turn(c, c1, c1a);
                    lemma_expression_follows(tokens, c1a, Precedence::Lowest);
                    let (value, c2) = parse_expression(tokens, c1a, Precedence::Lowest);
                    lemma_follows_in_turn(c, c1a, c2);
                    lemma_steps_follow(tokens, c2, TokenModel::Semicolon);
                    lemma_follows_in_turn(
                        c,
                        c2,
                        expect_peek(tokens, c2, TokenModel::Semicolon).1,
                    );
                }
            },
            _ => {},
        },
        TokenModel::Return => {
            let c0 = advance(tokens, c);
            lemma_expression_follows(tokens, c0, Precedence::Lowest);
            let (value, c1) = parse_expression(tokens, c0, Precedence::Lowest);
            lemma_follows_in_turn(c, c0, c1);
            lemma_steps_follow(tokens, c1, TokenModel::Semicolon);
            lemma_follows_in_turn(c, c1, skip_semicolon(tokens, c1));
        },
        _ => {
            lemma_expression_follows(tokens, c, Precedence::Lowest);
            let (value, c1) = parse_expression(tokens, c, Precedence::Lowest);
            lemma_steps_follow(tokens, c1, TokenModel::Semicolon);
            lemma_follows_in_turn(c, c1, skip_semicolon(tokens, c1));
        },
    }
}

/// The grammar without the tests on positions, which always hold: an
/// expression is a prefix form with the infix operators and calls that follow
/// it folded in.
pub proof fn lemma_expression_unfolded(tokens: Seq<TokenModel>, c: Cursor, precedence: Precedence)
    ensures
        parse_expression(tokens, c, precedence) == ({
            let (prefix, c1) = parse_prefix(tokens, c);
            match prefix {
                Some(left) => {
                    let (expression, c2) = infix_loop(tokens, c1, precedence, left);
                    (Some(expression), c2)
                },
                None => (None::<ExpressionModel>, c1),
            }
        }),
{
    lemma_prefix_follows(tokens, c);
}

/// While the next token binds more tightly than `precedence`, it is folded
/// into `left`, and the fold goes on behind it: a call takes the arguments in
/// the parentheses; an infix operator takes the expression to its right that
/// binds more tightly than itself, so that operators of one precedence group
/// to the left. Where no expression follows an operator, the fold ends with
/// what it has.
pub proof fn lemma_infix_unfolded(
    tokens: Seq<TokenModel>,
    c: Cursor,
    precedence: Precedence,
    left: ExpressionModel,
)
    ensures
        infix_loop(tokens, c, precedence, left) == ({
            let next = peek(tokens, c);
            if next != TokenModel::Semicolon && precedence_rank(precedence) < precedence_rank(
                token_precedence(next),
            ) {
                let c1 = advance(tokens, c);
                if next == TokenModel::LeftParen {
                    let (arguments, c2) = call_arguments(tokens, c1);
                    infix_loop(
                        tokens,
                        c2,
                        precedence,
                        ExpressionModel::Call { function: Box::new(left), arguments },
                    )
                } else {
                    let (right, c3) = parse_expression(
                        tokens,
                        advance(tokens, c1),
                        token_precedence(next),
                    );
                    match (operator_of(next), right) {
                        (Some(operator), Some(right)) => infix_loop(
                            tokens,
                            c3,
                            precedence,
                            ExpressionModel::Infix {
                                operator,
                                left: Box::new(left),
                                right: Box::new(right),
                            },
                        ),
                        _ => (left, c3),
                    }
                }
            } else {
                (left, c)
            }
        }),
{
    let next = peek(tokens, c);
    if next != TokenModel::Semicolon && precedence_rank(precedence) < precedence_rank(
        token_precedence(next),
    ) {
        let c1 = advance(tokens, c);
        lemma_arguments_follow(tokens, c1);
        lemma_expression_follows(tokens, advance(tokens, c1), token_precedence(next));
    }
}

/// The arguments of a call, without the tests on positions: none before a
/// closing parenthesis; otherwise one expression and those that follow
/// commas, and then the closing parenthesis, without which the list is
/// dropped. An argument that does not parse is left out.
pub proof fn lemma_arguments_unfolded(
    tokens: Seq<TokenModel>,
    c: Cursor,
    arguments: Seq<ExpressionModel>,
)
    ensures
        call_arguments(tokens, c) == ({
            if peek(tokens, c) == TokenModel::RightParen {
                (Seq::<ExpressionModel>::empty(), advance(tokens, c))
            } else {
                let (first, c1) = parse_expression(
                    tokens,
                    advance(tokens, c),
                    Precedence::Lowest,
                );
                match first {
                    None => (Seq::<ExpressionModel>::empty(), c1),
                    Some(first) => {
                        let (all, c2) = argument_loop(tokens, c1, seq![first]);
                        let (closed, c3) = expect_peek(tokens, c2, TokenModel::RightParen);
                        if closed {
                            (all, c3)
                        } else {
                            (Seq::<ExpressionModel>::empty(), c3)
                        }
                    },
                }
            }
        }),
        argument_loop(tokens, c, arguments) == ({
            if peek(tokens, c) == TokenModel::Comma {
                let (next, c1) = parse_expression(
                    tokens,
                    advance(tokens, advance(tokens, c)),
                    Precedence::Lowest,
                );
                argument_loop(
                    tokens,
                    c1,
                    match next {
                        Some(next) => arguments.push(next),
                        None => arguments,
                    },
                )
            } else {
                (arguments, c)
            }
        }),
{
    lemma_expression_follows(tokens, advance(tokens, c), Precedence::Lowest);
    lemma_expression_follows(tokens, advance(tokens, advance(tokens, c)), Precedence::Lowest);
}

/// The statements of a block and of a program, without the tests on
/// positions: statement after statement, one token being stepped over behind
/// each, up to a closing brace or the end of the input for a block, and up to
/// the end of the input for a program. A statement that does not parse is
/// left out.
pub proof fn lemma_statements_unfolded(
    tokens: Seq<TokenModel>,
    c: Cursor,
    statements: Seq<StatementModel>,
)
    ensures
        block_loop(tokens, c, statements) == ({
            if current(tokens, c) == TokenModel::RightBrackets || current(tokens, c)
                == TokenModel::Eof {
                (statements, c)
            } else {
                let (statement, c1) = parse_statement(tokens, c);
                block_loop(
                    tokens,
                    advance(tokens, c1),
                    match statement {
                        Some(statement) => statements.push(statement),
                        None => statements,
                    },
                )
            }
        }),
        program_loop(tokens, c, statements) == ({
            if current(tokens, c) == TokenModel::Eof {
                (statements, c)
            } else {
                let (statement, c1) = parse_statement(tokens, c);
                program_loop(
                    tokens,
                    advance(tokens, c1),
                    match statement {
                        Some(statement) => statements.push(statement),
                        None => statements,
                    },
                )
            }
        }),
{
    lemma_statement_follows(tokens, c);
}

/// `if` and function literals, without the tests on positions.
pub proof fn lemma_if_and_function_unfolded(tokens: Seq<TokenModel>, c: Cursor)
    ensures
        parse_if(tokens, c) == ({
            let (opened, c1) = expect_peek(tokens, c, TokenModel::LeftParen);
            if !opened {
                (None::<ExpressionModel>, c1)
            } else {
                let (condition, c2) = parse_expression(
                    tokens,
                    advance(tokens, c1),
                    Precedence::Lowest,
                );
                match condition {
                    None => (None::<ExpressionModel>, c2),
                    Some(condition) => {
                        let (closed, c3) = expect_peek(tokens, c2, TokenModel::RightParen);
                        let (braced, c4) = expect_peek(tokens, c3, TokenModel::LeftBrackets);
                        if !closed {
                            (None::<ExpressionModel>, c3)
                        } else if !braced {
                            (None::<ExpressionModel>, c4)
                        } else {
                            let (consequence, c5) = parse_block(tokens, c4);
                            if peek(tokens, c5) == TokenModel::Else {
                                let (braced, c6) = expect_peek(
                                    tokens,
                                    advance(tokens, c5),
                                    TokenModel::LeftBrackets,
                                );
                                if !braced {
                                    (None::<ExpressionModel>, c6)
                                } else {
                                    let (alternative, c7) = parse_block(tokens, c6);
                                    (
                                        Some(
                                            ExpressionModel::If {
                                                condition: Box::new(condition),
                                                consequence,
                                                alternative: Some(alternative),
                                            },
                                        ),
                                        c7,
                                    )
                                }
                            } else {
                                (
                                    Some(
                                        ExpressionModel::If {
                                            condition: Box::new(condition),
                                            consequence,
                                            alternative: None,
                                        },
                                    ),
                                    c5,
                                )
                            }
                        }
                    },
                }
            }
        }),
        parse_function(tokens, c) == ({
            let (opened, c1) = expect_peek(tokens, c, TokenModel::LeftParen);
            if !opened {
                (None::<ExpressionModel>, c1)
            } else {
                let (parameters, c2) = function_parameters(tokens, c1);
                match parameters {
                    None => (None::<ExpressionModel>, c2),
                    Some(parameters) => {
                        let (braced, c3) = expect_peek(tokens, c2, TokenModel::LeftBrackets);
                        if !braced {
                            (None::<ExpressionModel>, c3)
                        } else {
                            let (body, c4) = parse_block(tokens, c3);
                            (Some(ExpressionModel::Function { parameters, body }), c4)
                        }
                    },
                }
            }
        }),
{
    let (opened, c1) = expect_peek(tokens, c, TokenModel::LeftParen);
    if opened {
        lemma_steps_follow(tokens, c1, TokenModel::LeftParen);
        lemma_expression_follows(tokens, advance(tokens, c1), Precedence::Lowest);
        let c2 = parse_expression(tokens, advance(tokens, c1), Precedence::Lowest).1;
        lemma_steps_follow(tokens, c2, TokenModel::RightParen);
        let c3 = expect_peek(tokens, c2, TokenModel::RightParen).1;
        lemma_steps_follow(tokens, c3, TokenModel::LeftBrackets);
        let c4 = expect_peek(tokens, c3, TokenModel::LeftBrackets).1;
        lemma_block_follows(tokens, c4);
        lemma_parameters_follow(tokens, c1);
        let behind = function_parameters(tokens, c1).1;
        lemma_steps_follow(tokens, behind, TokenModel::LeftBrackets);
    }
}

/// A token that stands between the two sides of an infix expression.
pub open spec fn is_infix_operator(token: TokenModel) -> bool {
    token_precedence(token) != Precedence::Lowest && token != TokenModel::LeftParen
}

/// Precedence decides how operators group. In `a first b second c` the second
/// operator takes `b` if it binds more tightly than the first; otherwise the
/// first takes it, so that operators of one precedence group to the left.
pub proof fn lemma_precedence_decides_grouping(
    a: Seq<char>,
    b: Seq<char>,
    c: Seq<char>,
    first: TokenModel,
    second: TokenModel,
)
    requires
        is_infix_operator(first),
        is_infix_operator(second),
    ensures
        ({
            let tokens = seq![
                TokenModel::Identifier(a),
                first,
                TokenModel::Identifier(b),
                second,
                TokenModel::Identifier(c),
                TokenModel::Eof,
            ];
            let start = Cursor { position: 0, errors: Seq::empty() };
            let left = ExpressionModel::Identifier(a);
            let middle = ExpressionModel::Identifier(b);
            let right = ExpressionModel::Identifier(c);
            let one = operator_of(first)->Some_0;
            let two = operator_of(second)->Some_0;
            parse_expression(tokens, start, Precedence::Lowest) == (
                Some(
                    if precedence_rank(token_precedence(second)) > precedence_rank(
                        token_precedence(first),
                    ) {
                        ExpressionModel::Infix {
                            operator: one,
                            left: Box::new(left),
                            right: Box::new(
                                ExpressionModel::Infix {
                                    operator: two,
                                    left: Box::new(middle),
                                    right: Box::new(right),
                                },
                            ),
                        }
                    } else {
                        ExpressionModel::Infix {
                            operator: two,
                            left: Box::new(
                                ExpressionModel::Infix {
                                    operator: one,
                                    left: Box::new(left),
                                    right: Box::new(middle),
                                },
                            ),
                            right: Box::new(right),
                        }
                    },
                ),
                Cursor { position: 4, errors: Seq::empty() },
            )
        }),
{
    let tokens = seq![
        TokenModel::Identifier(a),
        first,
        TokenModel::Identifier(b),
        second,
        TokenModel::Identifier(c),
        TokenModel::Eof,
    ];
    let at = |position: int| Cursor { position, errors: Seq::<Seq<char>>::empty() };
    let left = ExpressionModel::Identifier(a);
    let middle = ExpressionModel::Identifier(b);
    let right = ExpressionModel::Identifier(c);
    let one = operator_of(first)->Some_0;
    let two = operator_of(second)->Some_0;
    let tight = token_precedence(first);
    let tighter = token_precedence(second);
    assert(tokens[0] == TokenModel::Identifier(a));
    assert(tokens[1] == first);
    assert(tokens[2] == TokenModel::Identifier(b));
    assert(tokens[3] == second);
    assert(tokens[4] == TokenModel::Identifier(c));
    assert(tokens[5] == TokenModel::Eof);
    // The last operand: nothing follows it.
    assert(parse_prefix(tokens, at(4)) == (Some(right), at(4)));
    assert forall|precedence: Precedence, so_far: ExpressionModel| #[trigger]
        infix_loop(tokens, at(4), precedence, so_far) == (so_far, at(4)) by {
        assert(peek(tokens, at(4)) == TokenModel::Eof);
    }
    assert forall|precedence: Precedence| #[trigger]
        parse_expression(tokens, at(4), precedence) == (Some(right), at(4)) by {
        assert(infix_loop(tokens, at(4), precedence, right) == (right, at(4)));
    }
    assert(advance(tokens, at(2)) == at(3));
    assert(advance(tokens, at(3)) == at(4));
    assert(advance(tokens, at(0)) == at(1));
    assert(advance(tokens, at(1)) == at(2));
    assert(peek(tokens, at(2)) == second);
    assert(peek(tokens, at(0)) == first);
    assert(parse_prefix(tokens, at(2)) == (Some(middle), at(2)));
    assert(parse_prefix(tokens, at(0)) == (Some(left), at(0)));
    let inner = ExpressionModel::Infix {
        operator: two,
        left: Box::new(middle),
        right: Box::new(right),
    };
    let outer = ExpressionModel::Infix { operator: one, left: Box::new(left), right: Box::new(middle) };
    assert(second != TokenModel::Semicolon);
    assert(second != TokenModel::LeftParen);
    assert(operator_of(second) == Some(two));
    assert(operator_of(first) == Some(one));
    assert(parse_expression(tokens, at(4), tighter) == (Some(right), at(4)));
    assert(infix_loop(tokens, at(4), tight, inner) == (inner, at(4)));
    if precedence_rank(tighter) > precedence_rank(tight) {
        assert(parse_expression(tokens, advance(tokens, advance(tokens, at(2))), tighter) == (
            Some(right),
            at(4),
        ));
        assert(at(4).position > at(2).position);
        assert(infix_loop(tokens, at(2), tight, middle) == (inner, at(4)));
        assert(parse_expression(tokens, at(2), tight) == (Some(inner), at(4)));
        let whole = ExpressionModel::Infix {
            operator: one,
            left: Box::new(left),
            right: Box::new(inner),
        };
        assert(first != TokenModel::Semicolon);
        assert(precedence_rank(Precedence::Lowest) < precedence_rank(tight));
        assert(parse_expression(tokens, advance(tokens, advance(tokens, at(0))), tight) == (
            Some(inner),
            at(4),
        ));
        assert(at(4).position > at(0).position);
        assert(infix_loop(tokens, at(4), Precedence::Lowest, whole) == (whole, at(4)));
        assert(infix_loop(tokens, at(0), Precedence::Lowest, left) == (whole, at(4)));
    } else {
        assert(infix_loop(tokens, at(2), tight, middle) == (middle, at(2)));
        assert(parse_expression(tokens, at(2), tight) == (Some(middle), at(2)));
        let whole = ExpressionModel::Infix {
            operator: two,
            left: Box::new(outer),
            right: Box::new(right),
        };
        assert(precedence_rank(Precedence::Lowest) < precedence_rank(tighter));
        assert(parse_expression(tokens, advance(tokens, advance(tokens, at(2))), tighter) == (
            Some(right),
            at(4),
        ));
        assert(at(4).position > at(2).position);
        assert(infix_loop(tokens, at(4), Precedence::Lowest, whole) == (whole, at(4)));
        assert(infix_loop(tokens, at(2), Precedence::Lowest, outer) == (whole, at(4)));
        assert(first != TokenModel::Semicolon);
        assert(precedence_rank(Precedence::Lowest) < precedence_rank(tight));
        assert(parse_expression(tokens, advance(tokens, advance(tokens, at(0))), tight) == (
            Some(middle),
            at(2),
        ));
        assert(at(2).position > at(0).position);
        assert(infix_loop(tokens, at(0), Precedence::Lowest, left) == (whole, at(4)));
    }
}

/// A prefix operator binds more tightly than every infix operator: in
/// `-a * b` and in `!a == b` the prefix operator takes `a` alone.
pub proof fn lemma_prefix_binds_tighter(
    a: Seq<char>,
    b: Seq<char>,
    prefix: TokenModel,
    infix: TokenModel,
)
    requires
        prefix == TokenModel::Bang || prefix == TokenModel::Minus,
        is_infix_operator(infix),
    ensures
        ({
            let tokens = seq![
                prefix,
                TokenModel::Identifier(a),
                infix,
                TokenModel::Identifier(b),
                TokenModel::Eof,
            ];
            parse_expression(
                tokens,
                Cursor { position: 0, errors: Seq::empty() },
                Precedence::Lowest,
            ) == (
                Some(
                    ExpressionModel::Infix {
                        operator: operator_of(infix)->Some_0,
                        left: Box::new(
                            ExpressionModel::Prefix {
                                operator: operator_of(prefix)->Some_0,
                                right: Box::new(ExpressionModel::Identifier(a)),
                            },
                        ),
                        right: Box::new(ExpressionModel::Identifier(b)),
                    },
                ),
                Cursor { position: 3, errors: Seq::empty() },
            )
        }),
{
    let tokens = seq![
        prefix,
        TokenModel::Identifier(a),
        infix,
        TokenModel::Identifier(b),
        TokenModel::Eof,
    ];
    let at = |position: int| Cursor { position, errors: Seq::<Seq<char>>::empty() };
    let operand = ExpressionModel::Identifier(a);
    let right = ExpressionModel::Identifier(b);
    let sign = operator_of(prefix)->Some_0;
    let negated = ExpressionModel::Prefix { operator: sign, right: Box::new(operand) };
    let whole = ExpressionModel::Infix {
        operator: operator_of(infix)->Some_0,
        left: Box::new(negated),
        right: Box::new(right),
    };
    let binding = token_precedence(infix);
    assert(tokens[0] == prefix);
    assert(tokens[1] == TokenModel::Identifier(a));
    assert(tokens[2] == infix);
    assert(tokens[3] == TokenModel::Identifier(b));
    assert(tokens[4] == TokenModel::Eof);
    assert(advance(tokens, at(0)) == at(1));
    assert(advance(tokens, at(1)) == at(2));
    assert(advance(tokens, at(2)) == at(3));
    // The operand of the prefix operator: the infix operator does not bind
    // more tightly than a prefix operator, so it stays outside.
    assert(parse_prefix(tokens, at(1)) == (Some(operand), at(1)));
    assert(peek(tokens, at(1)) == infix);
    assert(precedence_rank(binding) < precedence_rank(Precedence::Prefix));
    assert(infix_loop(tokens, at(1), Precedence::Prefix, operand) == (operand, at(1)));
    assert(parse_expression(tokens, at(1), Precedence::Prefix) == (Some(operand), at(1)));
    assert(prefix_operation(tokens, at(0), sign) == (Some(negated), at(1)));
    assert(parse_prefix(tokens, at(0)) == (Some(negated), at(1)));
    // The right side of the infix operator: nothing follows it.
    assert(parse_prefix(tokens, at(3)) == (Some(right), at(3)));
    assert(peek(tokens, at(3)) == TokenModel::Eof);
    assert(infix_loop(tokens, at(3), binding, right) == (right, at(3)));
    assert(parse_expression(tokens, at(3), binding) == (Some(right), at(3)));
    assert(infix_loop(tokens, at(3), Precedence::Lowest, whole) == (whole, at(3)));
    assert(infix != TokenModel::Semicolon);
    assert(precedence_rank(Precedence::Lowest) < precedence_rank(binding));
    assert(parse_expression(tokens, advance(tokens, advance(tokens, at(1))), binding) == (
        Some(right),
        at(3),
    ));
    assert(at(3).position > at(1).position);
    assert(infix_loop(tokens, at(1), Precedence::Lowest, negated) == (whole, at(3)));
}

/// The mathematical value of an expression that may be missing.
pub open spec fn expression_option(e: Option<Expression>) -> Option<ExpressionModel> {
    match e {
        Some(expression) => Some(expression@),
        None => None,
    }
}

/// The mathematical value of a statement that may be missing.
pub open spec fn statement_option(s: Option<Statement>) -> Option<StatementModel> {
    match s {
        Some(statement) => Some(statement@),
        None => None,
    }
}

/// The mathematical value of a list of names that may be missing.
pub open spec fn names_option(names: Option<Vec<String>>) -> Option<Seq<Seq<char>>> {
    match names {
        Some(names) => Some(names_view(&names)),
        None => None,
    }
}

fn push_statement(statements: &mut Vec<Statement>, statement: Statement)
    ensures
        statements_view(final(statements)) == statements_view(old(statements)).push(statement@),
{
    statements.push(statement);
    assert(statements_view(statements) =~= statements_view(old(statements)).push(statement@));
}

fn push_expression(expressions: &mut Vec<Expression>, expression: Expression)
    ensures
        expressions_view(final(expressions)) == expressions_view(old(expressions)).push(
            expression@,
        ),
{
    expressions.push(expression);
    assert(expressions_view(expressions) =~= expressions_view(old(expressions)).push(
        expression@,
    ));
}

fn push_name(names: &mut Vec<String>, name: String)
    ensures
        names_view(final(names)) == names_view(old(names)).push(name@),
{
    names.push(name);
    assert(names_view(names) =~= names_view(old(names)).push(name@));
}

/// Whether `text` is a float numeral.
pub fn is_float_literal(text: &str) -> (r: bool)
    ensures
        r == float_literal(text@),
{
    let chars = chars_of(text);
    let mut point: usize = 0;
    while point < chars.len() && char_is_digit(chars[point])
        invariant
            0 <= point <= chars.len(),
            all_digits(chars@.subrange(0, point as int)),
        decreases chars.len() - point,
    {
        point += 1;
        assert forall|k: int| 0 <= k < point implies is_digit(
            #[trigger] chars@.subrange(0, point as int)[k],
        ) by {
            if k < point - 1 {
                assert(chars@.subrange(0, point - 1)[k] == chars@[k]);
            }
        }
    }
    // Every point of a float numeral has only digits before it, so it can
    // only stand where the first run of digits ends.
    assert forall|q: int|
        0 < q < chars.len() && chars@[q] == '.' && all_digits(
            chars@.subrange(0, q),
        ) implies q == point by {
        if q < point {
            assert(chars@.subrange(0, point as int)[q] == chars@[q]);
        } else if q > point {
            assert(chars@.subrange(0, q)[point as int] == chars@[point as int]);
        }
    }
    if point == 0 || point >= chars.len() || chars[point] != '.' {
        return false;
    }
    let mut end: usize = point + 1;
    while end < chars.len() && char_is_digit(chars[end])
        invariant
            point < end <= chars.len(),
            all_digits(chars@.subrange(point + 1, end as int)),
        decreases chars.len() - end,
    {
        end += 1;
        assert forall|k: int| 0 <= k < end - point - 1 implies is_digit(
            #[trigger] chars@.subrange(point + 1, end as int)[k],
        ) by {
            if k < end - point - 2 {
                assert(chars@.subrange(point + 1, end - 1)[k] == chars@[point + 1 + k]);
            }
        }
    }
    if end == chars.len() {
        assert(chars@[point as int] == '.');
        true
    } else {
        assert(!all_digits(chars@.subrange(point + 1, chars.len() as int))) by {
            assert(chars@.subrange(point + 1, chars.len() as int)[end - point - 1]
                == chars@[end as int]);
        }
        false
    }
}

impl Precedence {
    /// The place of the precedence in the order.
    pub fn rank(&self) -> (r: u8)
        ensures
            r == precedence_rank(*self),
    {
        match self {
            Precedence::Lowest => 0,
            Precedence::Equals => 1,
            Precedence::LessGreater => 2,
            Precedence::Sum => 3,
            Precedence::Product => 4,
            Precedence::Prefix => 5,
            Precedence::Call => 6,
        }
    }
}

/// A parser over the tokens of one source text.
pub struct Parser {
    tokens: Vec<Token>,
    position: usize,
    errors: Vec<String>,
}

impl Parser {
    /// The tokens that the parser reads.
    pub closed spec fn tokens(&self) -> Seq<TokenModel> {
        token_models(self.tokens@)
    }

    /// Where the parser stands, and the errors it has found.
    pub closed spec fn cursor(&self) -> Cursor {
        Cursor { position: self.position as int, errors: names_view(&self.errors) }
    }

    /// A parser over all the tokens that `lexer` still has to give.
    pub fn new(lexer: Lexer) -> (parser: Parser)
        ensures
            parser.tokens() == scan_all(lexer.source(), lexer.cursor()),
            parser.cursor() == (Cursor { position: 0, errors: Seq::empty() }),
    {
        let mut lexer = lexer;
        let tokens = lexer.remaining_tokens();
        let parser = Parser { tokens, position: 0, errors: Vec::new() };
        assert(names_view(&parser.errors) =~= Seq::<Seq<char>>::empty());
        parser
    }

    /// The token that the parser stands on.
    pub fn current_token(&self) -> (token: Token)
        ensures
            token@ == current(self.tokens(), self.cursor()),
    {
        if self.position < self.tokens.len() {
            self.tokens[self.position].clone()
        } else {
            Token::Eof
        }
    }

    /// The token behind the current one.
    pub fn peek_token(&self) -> (token: Token)
        ensures
            token@ == peek(self.tokens(), self.cursor()),
    {
        if self.position < self.tokens.len() && self.position + 1 < self.tokens.len() {
            self.tokens[self.position + 1].clone()
        } else {
            Token::Eof
        }
    }

    /// The errors found so far, in the order in which they were found.
    pub fn errors(&self) -> (errors: Vec<String>)
        ensures
            names_view(&errors) == self.cursor().errors,
    {
        copy_names(&self.errors)
    }

    /// Parses the whole input. The program holds every statement that could be
    /// built; what went wrong on the way is in `errors`.
    pub fn parse_program(&mut self) -> (program: Program)
        ensures
            final(self).tokens() == old(self).tokens(),
            (program@, final(self).cursor()) == program_loop(
                old(self).tokens(),
                old(self).cursor(),
                Seq::empty(),
            ),
            follows(old(self).cursor(), final(self).cursor()),
    {
        proof {
            lemma_program_follows(self.tokens(), self.cursor(), Seq::empty());
        }
        let mut program = Program::new();
        let ghost tokens = self.tokens();
        let ghost start = self.cursor();
        loop
            invariant_except_break
                program_loop(tokens, self.cursor(), program@) == program_loop(
                    tokens,
                    start,
                    Seq::empty(),
                ),
            invariant
                self.tokens() == tokens,
            ensures
                (program@, self.cursor()) == program_loop(tokens, start, Seq::empty()),
            decreases remaining(tokens, self.cursor()),
        {
            let ghost before = self.cursor();
            if self.current_token().same(&Token::Eof) {
                break ;
            }
            let statement = self.parse_statement();
            if let Some(statement) = statement {
                push_statement(&mut program.statements, statement);
            }
            self.next_token();
            assert(self.cursor().position > before.position);
        }
        program
    }

    fn parse_statement(&mut self) -> (r: Option<Statement>)
        ensures
            final(self).tokens() == old(self).tokens(),
            (statement_option(r), final(self).cursor()) == parse_statement(
                old(self).tokens(),
                old(self).cursor(),
            ),
            final(self).cursor().position >= old(self).cursor().position,
        decreases remaining(old(self).tokens(), old(self).cursor()), 6int,
    {
        match self.current_token() {
            Token::Let => self.parse_let_statement(),
            Token::Return => self.parse_return_statement(),
            _ => self.parse_expression_statement(),
        }
    }

    fn parse_let_statement(&mut self) -> (r: Option<Statement>)
        requires
            current(old(self).tokens(), old(self).cursor()) == TokenModel::Let,
        ensures
            final(self).tokens() == old(self).tokens(),
            (statement_option(r), final(self).cursor()) == parse_statement(
                old(self).tokens(),
                old(self).cursor(),
            ),
            final(self).cursor().position >= old(self).cursor().position,
        decreases remaining(old(self).tokens(), old(self).cursor()), 5int,
    {
        match self.peek_token() {
            Token::Identifier(identifier) => {
                self.next_token();
                if !self.expect_peek(Token::Assign) {
                    return None;
                }
                self.next_token();
                if let Some(expression) = self.parse_expression(Precedence::Lowest) {
                    if !self.expect_peek(Token::Semicolon) {
                        return None;
                    }
                    return Some(Statement::Let { identifier, expression });
                }
                None
            },
            other => {
                self.name_error(&other);
                None
            },
        }
    }

    fn parse_return_statement(&mut self) -> (r: Option<Statement>)
        requires
            current(old(self).tokens(), old(self).cursor()) == TokenModel::Return,
        ensures
            final(self).tokens() == old(self).tokens(),
            (statement_option(r), final(self).cursor()) == parse_statement(
                old(self).tokens(),
                old(self).cursor(),
            ),
            final(self).cursor().position >= old(self).cursor().position,
        decreases remaining(old(self).tokens(), old(self).cursor()), 5int,
    {
        self.next_token();
        if let Some(expression) = self.parse_expression(Precedence::Lowest) {
            if self.peek_token().same(&Token::Semicolon) {
                self.next_token();
            }
            return Some(Statement::Return { expression });
        }
        None
    }

    fn parse_expression_statement(&mut self) -> (r: Option<Statement>)
        requires
            current(old(self).tokens(), old(self).cursor()) != TokenModel::Let,
            current(old(self).tokens(), old(self).cursor()) != TokenModel::Return,
        ensures
            final(self).tokens() == old(self).tokens(),
            (statement_option(r), final(self).cursor()) == parse_statement(
                old(self).tokens(),
                old(self).cursor(),
            ),
            final(self).cursor().position >= old(self).cursor().position,
        decreases remaining(old(self).tokens(), old(self).cursor()), 5int,
    {
        if let Some(expression) = self.parse_expression(Precedence::Lowest) {
            if self.peek_token().same(&Token::Semicolon) {
                self.next_token();
            }
            Some(Statement::Expression { expression })
        } else {
            None
        }
    }

    fn parse_expression(&mut self, precedence: Precedence) -> (r: Option<Expression>)
        ensures
            final(self).tokens() == old(self).tokens(),
            (expression_option(r), final(self).cursor()) == parse_expression(
                old(self).tokens(),
                old(self).cursor(),
                precedence,
            ),
            final(self).cursor().position >= old(self).cursor().position,
        decreases remaining(old(self).tokens(), old(self).cursor()), 4int,
    {
        match self.parse_prefix() {
            Some(left) => Some(self.parse_infix(precedence, left)),
            None => None,
        }
    }

    /// Folds the infix operators and calls that follow into `left`.
    #[verifier::rlimit(40)]
    fn parse_infix(&mut self, precedence: Precedence, left: Expression) -> (r: Expression)
        ensures
            final(self).tokens() == old(self).tokens(),
            (r@, final(self).cursor()) == infix_loop(
                old(self).tokens(),
                old(self).cursor(),
                precedence,
                left@,
            ),
            final(self).cursor().position >= old(self).cursor().position,
        decreases remaining(old(self).tokens(), old(self).cursor()), 3int,
    {
        let ghost tokens = self.tokens();
        let ghost start = self.cursor();
        let ghost first = left@;
        let mut left = left;
        loop
            invariant_except_break
                infix_loop(tokens, self.cursor(), precedence, left@) == infix_loop(
                    tokens,
                    start,
                    precedence,
                    first,
                ),
            invariant
                self.tokens() == tokens,
                self.cursor().position >= start.position,
                start == old(self).cursor(),
                tokens == old(self).tokens(),
            ensures
                (left@, self.cursor()) == infix_loop(tokens, start, precedence, first),
            decreases remaining(tokens, self.cursor()),
        {
            let next = self.peek_token();
            if next.same(&Token::Semicolon) || precedence.rank() >= self.peek_precedence().rank() {
                break ;
            }
            self.next_token();
            if next.same(&Token::LeftParen) {
                left = self.parse_call_expression(left);
            } else {
                match self.parse_infix_expression() {
                    Some((operator, right)) => {
                        left = Expression::Infix {
                            operator,
                            left: Box::new(left),
                            right: Box::new(right),
                        };
                    },
                    None => {
                        break ;
                    },
                }
            }
        }
        left
    }

    /// The prefix form that the current token starts.
    fn parse_prefix(&mut self) -> (r: Option<Expression>)
        ensures
            final(self).tokens() == old(self).tokens(),
            (expression_option(r), final(self).cursor()) == parse_prefix(
                old(self).tokens(),
                old(self).cursor(),
            ),
            final(self).cursor().position >= old(self).cursor().position,
        decreases remaining(old(self).tokens(), old(self).cursor()), 3int,
    {
        let token = self.current_token();
        match token {
            Token::Identifier(_) => self.parse_identifier(),
            Token::Int(_) => self.parse_integer(),
            Token::Float(_) => self.parse_float(),
            Token::Bang => self.parse_prefix_expression(Operator::Not),
            Token::Minus => self.parse_prefix_expression(Operator::Minus),
            Token::True => self.parse_boolean(),
            Token::False => self.parse_boolean(),
            Token::LeftParen => self.parse_grouped_expression(),
            Token::If => self.parse_if_expression(),
            Token::Function => self.parse_function_expression(),
            _ => {
                let mut message = "No prefix parse function found for ".to_owned();
                message.append(token.name().as_str());
                self.record(message);
                None
            },
        }
    }

    fn parse_identifier(&self) -> (r: Option<Expression>)
        ensures
            expression_option(r) == match current(self.tokens(), self.cursor()) {
                TokenModel::Identifier(name) => Some(ExpressionModel::Identifier(name)),
                _ => None,
            },
    {
        match self.current_token() {
            Token::Identifier(name) => Some(Expression::Identifier(name)),
            _ => None,
        }
    }

    fn parse_integer(&mut self) -> (r: Option<Expression>)
        requires
            current(old(self).tokens(), old(self).cursor()) is Int,
        ensures
            final(self).tokens() == old(self).tokens(),
            (expression_option(r), final(self).cursor()) == parse_prefix(
                old(self).tokens(),
                old(self).cursor(),
            ),
            final(self).cursor().position >= old(self).cursor().position,
    {
        match self.current_token() {
            Token::Int(value) => match parse_integer_literal(value.as_str()) {
                Some(literal) => Some(Expression::Int(literal)),
                None => {
                    let mut message = "Could not parse ".to_owned();
                    message.append(value.as_str());
                    message.append(" as integer");
                    self.record(message);
                    None
                },
            },
            _ => None,
        }
    }

    fn parse_float(&mut self) -> (r: Option<Expression>)
        requires
            current(old(self).tokens(), old(self).cursor()) is Float,
        ensures
            final(self).tokens() == old(self).tokens(),
            (expression_option(r), final(self).cursor()) == parse_prefix(
                old(self).tokens(),
                old(self).cursor(),
            ),
            final(self).cursor().position >= old(self).cursor().position,
    {
        match self.current_token() {
            Token::Float(value) => if is_float_literal(value.as_str()) {
                Some(Expression::Float(value))
            } else {
                let mut message = "Could not parse ".to_owned();
                message.append(value.as_str());
                message.append(" as float");
                self.record(message);
                None
            },
            _ => None,
        }
    }

    fn parse_boolean(&self) -> (r: Option<Expression>)
        ensures
            expression_option(r) == match current(self.tokens(), self.cursor()) {
                TokenModel::True => Some(ExpressionModel::Boolean(true)),
                TokenModel::False => Some(ExpressionModel::Boolean(false)),
                _ => None,
            },
    {
        match self.current_token() {
            Token::True => Some(Expression::Boolean(true)),
            Token::False => Some(Expression::Boolean(false)),
            _ => None,
        }
    }

    fn parse_prefix_expression(&mut self, operator: Operator) -> (r: Option<Expression>)
        requires
            current(old(self).tokens(), old(self).cursor()) != TokenModel::Eof,
        ensures
            final(self).tokens() == old(self).tokens(),
            (expression_option(r), final(self).cursor()) == prefix_operation(
                old(self).tokens(),
                old(self).cursor(),
                operator,
            ),
            final(self).cursor().position >= old(self).cursor().position,
        decreases remaining(old(self).tokens(), old(self).cursor()), 2int,
    {
        // The current token is either ! or - here, so we move to the next
        // token and parse that as an expression.
        self.next_token();
        match self.parse_expression(Precedence::Prefix) {
            Some(expression) => Some(Expression::Prefix { operator, right: Box::new(expression) }),
            None => None,
        }
    }

    /// The operator on which the parser stands, and the expression to its
    /// right.
    fn parse_infix_expression(&mut self) -> (r: Option<(Operator, Expression)>)
        requires
            current(old(self).tokens(), old(self).cursor()) != TokenModel::Eof,
        ensures
            final(self).tokens() == old(self).tokens(),
            final(self).cursor().position >= old(self).cursor().position,
            ({
                let tokens = old(self).tokens();
                let c = old(self).cursor();
                let (right, c1) = parse_expression(
                    tokens,
                    advance(tokens, c),
                    token_precedence(current(tokens, c)),
                );
                &&& final(self).cursor() == c1
                &&& match (operator_of(current(tokens, c)), right) {
                    (Some(operator), Some(right)) => r matches Some(pair) && pair.0 == operator
                        && pair.1@ == right,
                    _ => r is None,
                }
            }),
        decreases remaining(old(self).tokens(), old(self).cursor()), 2int,
    {
        let operator = Operator::from(&self.current_token());
        let precedence = self.current_precedence();
        self.next_token();
        match (operator, self.parse_expression(precedence)) {
            (Some(operator), Some(right)) => Some((operator, right)),
            _ => None,
        }
    }

    fn parse_grouped_expression(&mut self) -> (r: Option<Expression>)
        requires
            current(old(self).tokens(), old(self).cursor()) == TokenModel::LeftParen,
        ensures
            final(self).tokens() == old(self).tokens(),
            (expression_option(r), final(self).cursor()) == parse_prefix(
                old(self).tokens(),
                old(self).cursor(),
            ),
            final(self).cursor().position >= old(self).cursor().position,
        decreases remaining(old(self).tokens(), old(self).cursor()), 2int,
    {
        self.next_token();
        if let Some(expression) = self.parse_expression(Precedence::Lowest) {
            if self.expect_peek(Token::RightParen) {
                Some(expression)
            } else {
                None
            }
        } else {
            None
        }
    }

    #[verifier::rlimit(40)]
    fn parse_if_expression(&mut self) -> (r: Option<Expression>)
        ensures
            final(self).tokens() == old(self).tokens(),
            (expression_option(r), final(self).cursor()) == parse_if(
                old(self).tokens(),
                old(self).cursor(),
            ),
            final(self).cursor().position >= old(self).cursor().position,
        decreases remaining(old(self).tokens(), old(self).cursor()), 2int,
    {
        if !self.expect_peek(Token::LeftParen) {
            return None;
        }
        self.next_token();
        if let Some(condition) = self.parse_expression(Precedence::Lowest) {
            if !self.expect_peek(Token::RightParen) {
                return None;
            }
            if !self.expect_peek(Token::LeftBrackets) {
                return None;
            }
            let consequence = self.parse_block_statement();
            if self.peek_token().same(&Token::Else) {
                self.next_token();
                if !self.expect_peek(Token::LeftBrackets) {
                    return None;
                }
                let alternative = self.parse_block_statement();
                return Some(
                    Expression::If {
                        condition: Box::new(condition),
                        consequence,
                        alternative: Some(alternative),
                    },
                );
            } else {
                return Some(
                    Expression::If {
                        condition: Box::new(condition),
                        consequence,
                        alternative: None,
                    },
                );
            }
        }
        None
    }

    fn parse_function_expression(&mut self) -> (r: Option<Expression>)
        ensures
            final(self).tokens() == old(self).tokens(),
            (expression_option(r), final(self).cursor()) == parse_function(
                old(self).tokens(),
                old(self).cursor(),
            ),
            final(self).cursor().position >= old(self).cursor().position,
        decreases remaining(old(self).tokens(), old(self).cursor()), 2int,
    {
        if !self.expect_peek(Token::LeftParen) {
            return None;
        }
        if let Some(parameters) = self.parse_function_parameters() {
            if !self.expect_peek(Token::LeftBrackets) {
                return None;
            }
            let body = self.parse_block_statement();
            Some(Expression::Function { parameters, body })
        } else {
            None
        }
    }

    fn parse_function_parameters(&mut self) -> (r: Option<Vec<String>>)
        ensures
            final(self).tokens() == old(self).tokens(),
            (names_option(r), final(self).cursor()) == function_parameters(
                old(self).tokens(),
                old(self).cursor(),
            ),
            final(self).cursor().position >= old(self).cursor().position,
    {
        let mut identifiers: Vec<String> = Vec::new();
        assert(names_view(&identifiers) =~= Seq::<Seq<char>>::empty());
        if self.peek_token().same(&Token::RightParen) {
            self.next_token();
            return Some(identifiers);
        }
        self.next_token();
        let ghost tokens = self.tokens();
        if let Some(Expression::Identifier(identifier)) = self.parse_identifier() {
            push_name(&mut identifiers, identifier);
            assert(names_view(&identifiers) =~= seq![identifier@]);
            let ghost start = self.cursor();
            let ghost first = names_view(&identifiers);
            while self.peek_token().same(&Token::Comma)
                invariant
                    self.tokens() == tokens,
                    self.cursor().position >= start.position,
                    parameter_loop(tokens, self.cursor(), names_view(&identifiers))
                        == parameter_loop(tokens, start, first),
                decreases remaining(tokens, self.cursor()),
            {
                self.next_token();
                self.next_token();
                if let Some(Expression::Identifier(identifier)) = self.parse_identifier() {
                    push_name(&mut identifiers, identifier);
                } else {
                    let found = self.current_token();
                    self.name_error(&found);
                }
            }
        } else {
            let found = self.current_token();
            self.name_error(&found);
        }
        if !self.expect_peek(Token::RightParen) {
            return None;
        }
        Some(identifiers)
    }

    fn parse_block_statement(&mut self) -> (block: BlockStatement)
        ensures
            final(self).tokens() == old(self).tokens(),
            (block@, final(self).cursor()) == parse_block(old(self).tokens(), old(self).cursor()),
            final(self).cursor().position >= old(self).cursor().position,
        decreases remaining(old(self).tokens(), old(self).cursor()), 8int,
    {
        self.next_token();
        let mut statements: Vec<Statement> = Vec::new();
        assert(statements_view(&statements) =~= Seq::<StatementModel>::empty());
        let ghost tokens = self.tokens();
        let ghost start = self.cursor();
        loop
            invariant_except_break
                block_loop(tokens, self.cursor(), statements_view(&statements)) == block_loop(
                    tokens,
                    start,
                    Seq::empty(),
                ),
            invariant
                self.tokens() == tokens,
                tokens == old(self).tokens(),
                self.cursor().position >= start.position,
                start == advance(tokens, old(self).cursor()),
            ensures
                (statements_view(&statements), self.cursor()) == block_loop(
                    tokens,
                    start,
                    Seq::empty(),
                ),
            decreases remaining(tokens, self.cursor()),
        {
            let ghost before = self.cursor();
            let token = self.current_token();
            if token.same(&Token::RightBrackets) || token.same(&Token::Eof) {
                break ;
            }
            if let Some(statement) = self.parse_statement() {
                push_statement(&mut statements, statement);
            }
            self.next_token();
            assert(self.cursor().position > before.position);
        }
        BlockStatement { statements }
    }

    fn parse_call_expression(&mut self, function: Expression) -> (r: Expression)
        ensures
            final(self).tokens() == old(self).tokens(),
            final(self).cursor().position >= old(self).cursor().position,
            ({
                let (arguments, c1) = call_arguments(old(self).tokens(), old(self).cursor());
                &&& final(self).cursor() == c1
                &&& r@ == ExpressionModel::Call { function: Box::new(function@), arguments }
            }),
        decreases remaining(old(self).tokens(), old(self).cursor()), 6int,
    {
        let arguments = self.parse_call_arguments();
        Expression::Call { function: Box::new(function), arguments }
    }

    #[verifier::rlimit(40)]
    fn parse_call_arguments(&mut self) -> (arguments: Vec<Expression>)
        ensures
            final(self).tokens() == old(self).tokens(),
            (expressions_view(&arguments), final(self).cursor()) == call_arguments(
                old(self).tokens(),
                old(self).cursor(),
            ),
            final(self).cursor().position >= old(self).cursor().position,
        decreases remaining(old(self).tokens(), old(self).cursor()), 5int,
    {
        let mut arguments: Vec<Expression> = Vec::new();
        assert(expressions_view(&arguments) =~= Seq::<ExpressionModel>::empty());
        if self.peek_token().same(&Token::RightParen) {
            self.next_token();
            return arguments;
        }
        self.next_token();
        let ghost tokens = self.tokens();
        if let Some(expression) = self.parse_expression(Precedence::Lowest) {
            push_expression(&mut arguments, expression);
            assert(expressions_view(&arguments) =~= seq![expression@]);
            let ghost start = self.cursor();
            let ghost first = expressions_view(&arguments);
            loop
                invariant_except_break
                    argument_loop(tokens, self.cursor(), expressions_view(&arguments))
                        == argument_loop(tokens, start, first),
                invariant
                    self.tokens() == tokens,
                    tokens == old(self).tokens(),
                    self.cursor().position >= start.position,
                    start.position >= old(self).cursor().position,
                ensures
                    (expressions_view(&arguments), self.cursor()) == argument_loop(
                        tokens,
                        start,
                        first,
                    ),
                decreases remaining(tokens, self.cursor()),
            {
                if !self.peek_token().same(&Token::Comma) {
                    break ;
                }
                self.next_token();
                self.next_token();
                if let Some(expression) = self.parse_expression(Precedence::Lowest) {
                    push_expression(&mut arguments, expression);
                }
            }
            if !self.expect_peek(Token::RightParen) {
                let dropped: Vec<Expression> = Vec::new();
                assert(expressions_view(&dropped) =~= Seq::<ExpressionModel>::empty());
                return dropped;
            }
        }
        arguments
    }

    fn next_token(&mut self)
        ensures
            final(self).tokens() == old(self).tokens(),
            final(self).cursor() == advance(old(self).tokens(), old(self).cursor()),
    {
        if self.position < self.tokens.len() {
            self.position = self.position + 1;
        }
    }

    fn expect_peek(&mut self, token: Token) -> (r: bool)
        ensures
            final(self).tokens() == old(self).tokens(),
            (r, final(self).cursor()) == expect_peek(
                old(self).tokens(),
                old(self).cursor(),
                token@,
            ),
    {
        if self.peek_token().same(&token) {
            self.next_token();
            true
        } else {
            self.peek_error(token);
            false
        }
    }

    fn peek_error(&mut self, token: Token)
        ensures
            final(self).tokens() == old(self).tokens(),
            final(self).cursor() == fail(
                old(self).cursor(),
                unexpected_token_text(token@, peek(old(self).tokens(), old(self).cursor())),
            ),
    {
        let mut message = "Expected next token to be ".to_owned();
        message.append(token.name().as_str());
        message.append(", got ");
        message.append(self.peek_token().name().as_str());
        message.append(" instead");
        self.record(message);
    }

    /// Records that `found` stands where a name is expected.
    fn name_error(&mut self, found: &Token)
        ensures
            final(self).tokens() == old(self).tokens(),
            final(self).cursor() == fail(old(self).cursor(), missing_name_text(found@)),
    {
        let mut message = "Expected next token to be Identifier, got ".to_owned();
        message.append(found.name().as_str());
        message.append(" instead");
        self.record(message);
    }

    /// Adds an error to the list.
    fn record(&mut self, message: String)
        ensures
            final(self).tokens() == old(self).tokens(),
            final(self).cursor() == fail(old(self).cursor(), message@),
    {
        push_name(&mut self.errors, message);
    }

    fn peek_precedence(&self) -> (r: Precedence)
        ensures
            r == token_precedence(peek(self.tokens(), self.cursor())),
    {
        self.precedence_for_token(&self.peek_token())
    }

    fn current_precedence(&self) -> (r: Precedence)
        ensures
            r == token_precedence(current(self.tokens(), self.cursor())),
    {
        self.precedence_for_token(&self.current_token())
    }

    fn precedence_for_token(&self, token: &Token) -> (r: Precedence)
        ensures
            r == token_precedence(token@),
    {
        match token {
            Token::Equal => Precedence::Equals,
            Token::NotEqual => Precedence::Equals,
            Token::LessThan => Precedence::LessGreater,
            Token::GreaterThan => Precedence::LessGreater,
            Token::Plus => Precedence::Sum,
            Token::Minus => Precedence::Sum,
            Token::Slash => Precedence::Product,
            Token::Asterisk => Precedence::Product,
            Token::LeftParen => Precedence::Call,
            _ => Precedence::Lowest,
        }
    }
}

} // verus!
