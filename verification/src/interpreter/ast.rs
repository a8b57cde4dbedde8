//! The syntax tree: statements, expressions and operators, their mathematical
//! models, and the text in which a tree is printed.

use crate::interpreter::text::{push_integer, signed_decimal};
use crate::interpreter::token::{Token, TokenModel};
use vstd::prelude::*;

verus! {

#[derive(Debug, PartialEq)]
pub enum Statement {
    Let { identifier: String, expression: Expression },
    Return { expression: Expression },
    // An expression statement consists solely of one expression, as the second
    // line here:
    //
    // let x = 5;
    // x + 10;
    Expression { expression: Expression },
}

#[derive(Debug, PartialEq)]
pub struct BlockStatement {
    pub statements: Vec<Statement>,
}

#[derive(Debug, PartialEq)]
pub enum Expression {
    Identifier(String),
    Int(isize),
    /// A float numeral, kept as written: digits, one point, digits.
    Float(String),
    Boolean(bool),
    Prefix { operator: Operator, right: Box<Expression> },
    Infix { operator: Operator, left: Box<Expression>, right: Box<Expression> },
    If {
        condition: Box<Expression>,
        consequence: BlockStatement,
        alternative: Option<BlockStatement>,
    },
    Function { parameters: Vec<String>, body: BlockStatement },
    Call { function: Box<Expression>, arguments: Vec<Expression> },
}

#[derive(Debug, PartialEq, Eq, Structural, Copy, Clone)]
pub enum Operator {
    Plus,
    Minus,
    Not,
    Multiply,
    Divide,
    Equal,
    NotEqual,
    LessThan,
    GreaterThan,
}

#[derive(Debug, PartialEq)]
pub struct Program {
    pub statements: Vec<Statement>,
}

/// The mathematical value of a [`Statement`].
pub enum StatementModel {
    Let { identifier: Seq<char>, expression: ExpressionModel },
    Return { expression: ExpressionModel },
    Expression { expression: ExpressionModel },
}

/// The mathematical value of an [`Expression`]. A block is the sequence of its
/// statements.
pub enum ExpressionModel {
    Identifier(Seq<char>),
    Int(isize),
    Float(Seq<char>),
    Boolean(bool),
    Prefix { operator: Operator, right: Box<ExpressionModel> },
    Infix { operator: Operator, left: Box<ExpressionModel>, right: Box<ExpressionModel> },
    If {
        condition: Box<ExpressionModel>,
        consequence: Seq<StatementModel>,
        alternative: Option<Seq<StatementModel>>,
    },
    Function { parameters: Seq<Seq<char>>, body: Seq<StatementModel> },
    Call { function: Box<ExpressionModel>, arguments: Seq<ExpressionModel> },
}

/// The views of a list of names, one by one.
pub open spec fn names_view(names: &Vec<String>) -> Seq<Seq<char>> {
    Seq::new(names.len() as nat, |i: int| names[i]@)
}

/// The mathematical value of an expression.
pub open spec fn expression_view(e: &Expression) -> ExpressionModel
    decreases e,
{
    match e {
        Expression::Identifier(name) => ExpressionModel::Identifier(name@),
        Expression::Int(value) => ExpressionModel::Int(*value),
        Expression::Float(text) => ExpressionModel::Float(text@),
        Expression::Boolean(value) => ExpressionModel::Boolean(*value),
        Expression::Prefix { operator, right } => ExpressionModel::Prefix {
            operator: *operator,
            right: Box::new(expression_view(right)),
        },
        Expression::Infix { operator, left, right } => ExpressionModel::Infix {
            operator: *operator,
            left: Box::new(expression_view(left)),
            right: Box::new(expression_view(right)),
        },
        Expression::If { condition, consequence, alternative } => ExpressionModel::If {
            condition: Box::new(expression_view(condition)),
            consequence: statements_view(&consequence.statements),
            alternative: match alternative {
                Some(block) => Some(statements_view(&block.statements)),
                None => None,
            },
        },
        Expression::Function { parameters, body } => ExpressionModel::Function {
            parameters: names_view(parameters),
            body: statements_view(&body.statements),
        },
        Expression::Call { function, arguments } => ExpressionModel::Call {
            function: Box::new(expression_view(function)),
            arguments: expressions_view(arguments),
        },
    }
}

/// The mathematical values of a list of expressions, one by one.
pub open spec fn expressions_view(expressions: &Vec<Expression>) -> Seq<ExpressionModel>
    decreases expressions,
{
    Seq::new(
        expressions.len() as nat,
        |i: int|
            if 0 <= i < expressions.len() {
                expression_view(&expressions[i])
            } else {
                arbitrary()
            },
    )
}

/// The mathematical value of a statement.
pub open spec fn statement_view(s: &Statement) -> StatementModel
    decreases s,
{
    match s {
        Statement::Let { identifier, expression } => StatementModel::Let {
            identifier: identifier@,
            expression: expression_view(expression),
        },
        Statement::Return { expression } => StatementModel::Return {
            expression: expression_view(expression),
        },
        Statement::Expression { expression } => StatementModel::Expression {
            expression: expression_view(expression),
        },
    }
}

/// The mathematical values of a list of statements, one by one.
pub open spec fn statements_view(statements: &Vec<Statement>) -> Seq<StatementModel>
    decreases statements,
{
    Seq::new(
        statements.len() as nat,
        |i: int|
            if 0 <= i < statements.len() {
                statement_view(&statements[i])
            } else {
                arbitrary()
            },
    )
}

impl View for Expression {
    type V = ExpressionModel;

    open spec fn view(&self) -> ExpressionModel {
        expression_view(self)
    }
}

impl View for Statement {
    type V = StatementModel;

    open spec fn view(&self) -> StatementModel {
        statement_view(self)
    }
}

impl View for BlockStatement {
    type V = Seq<StatementModel>;

    open spec fn view(&self) -> Seq<StatementModel> {
        statements_view(&self.statements)
    }
}

impl View for Program {
    type V = Seq<StatementModel>;

    open spec fn view(&self) -> Seq<StatementModel> {
        statements_view(&self.statements)
    }
}

/// The operator that a token stands for, if it stands for one.
pub open spec fn operator_of(token: TokenModel) -> Option<Operator> {
    match token {
        TokenModel::Bang => Some(Operator::Not),
        TokenModel::Plus => Some(Operator::Plus),
        TokenModel::Minus => Some(Operator::Minus),
        TokenModel::Slash => Some(Operator::Divide),
        TokenModel::Asterisk => Some(Operator::Multiply),
        TokenModel::Equal => Some(Operator::Equal),
        TokenModel::NotEqual => Some(Operator::NotEqual),
        TokenModel::LessThan => Some(Operator::LessThan),
        TokenModel::GreaterThan => Some(Operator::GreaterThan),
        _ => None,
    }
}

/// The sign that an operator is written with.
pub open spec fn operator_text(operator: Operator) -> Seq<char> {
    match operator {
        Operator::Plus => "+"@,
        Operator::Minus => "-"@,
        Operator::Not => "!"@,
        Operator::Multiply => "*"@,
        Operator::Divide => "/"@,
        Operator::Equal => "=="@,
        Operator::NotEqual => "!="@,
        Operator::LessThan => "<"@,
        Operator::GreaterThan => ">"@,
    }
}

impl Operator {
    /// The operator that a token stands for, if it stands for one.
    pub fn from(token: &Token) -> (r: Option<Operator>)
        ensures
            r == operator_of(token@),
    {
        match token {
            Token::Bang => Some(Operator::Not),
            Token::Plus => Some(Operator::Plus),
            Token::Minus => Some(Operator::Minus),
            Token::Slash => Some(Operator::Divide),
            Token::Asterisk => Some(Operator::Multiply),
            Token::Equal => Some(Operator::Equal),
            Token::NotEqual => Some(Operator::NotEqual),
            Token::LessThan => Some(Operator::LessThan),
            Token::GreaterThan => Some(Operator::GreaterThan),
            _ => None,
        }
    }

    /// The sign of the operator.
    pub fn symbol(&self) -> (r: &'static str)
        ensures
            r@ == operator_text(*self),
    {
        match self {
            Operator::Plus => "+",
            Operator::Minus => "-",
            Operator::Not => "!",
            Operator::Multiply => "*",
            Operator::Divide => "/",
            Operator::Equal => "==",
            Operator::NotEqual => "!=",
            Operator::LessThan => "<",
            Operator::GreaterThan => ">",
        }
    }

    /// The operator as text.
    pub fn to_string(&self) -> (r: String)
        ensures
            r@ == operator_text(*self),
    {
        self.symbol().to_owned()
    }
}

impl Program {
    /// A program without statements.
    pub fn new() -> (program: Program)
        ensures
            program@ == Seq::<StatementModel>::empty(),
    {
        let program = Program { statements: Vec::new() };
        assert(program@ =~= Seq::<StatementModel>::empty());
        program
    }
}

/// The first `n` names, separated by commas.
pub open spec fn joined_names(names: Seq<Seq<char>>, n: int) -> Seq<char>
    decreases n,
{
    if n <= 0 || n > names.len() {
        Seq::empty()
    } else if n == 1 {
        names[0]
    } else {
        joined_names(names, n - 1) + ","@ + names[n - 1]
    }
}

/// How an expression is printed: every prefix and infix expression in
/// parentheses, so that the text shows how the operators were grouped.
pub open spec fn expression_text(e: ExpressionModel) -> Seq<char>
    decreases e, 0int,
{
    match e {
        ExpressionModel::Identifier(name) => name,
        ExpressionModel::Int(value) => signed_decimal(value as int),
        ExpressionModel::Float(text) => text,
        ExpressionModel::Boolean(value) => if value {
            "true"@
        } else {
            "false"@
        },
        ExpressionModel::Prefix { operator, right } => "("@ + operator_text(operator)
            + expression_text(*right) + ")"@,
        ExpressionModel::Infix { operator, left, right } => "("@ + expression_text(*left) + " "@
            + operator_text(operator) + " "@ + expression_text(*right) + ")"@,
        ExpressionModel::If { condition, consequence, alternative } => {
            let head = "if "@ + expression_text(*condition) + " "@ + block_text(
                consequence,
                consequence.len() as int,
            );
            match alternative {
                Some(block) => head + " else "@ + block_text(block, block.len() as int),
                None => head,
            }
        },
        ExpressionModel::Function { parameters, body } => "("@ + joined_names(
            parameters,
            parameters.len() as int,
        ) + ") "@ + block_text(body, body.len() as int),
        ExpressionModel::Call { function, arguments } => expression_text(*function) + "("@
            + joined_expressions(arguments, arguments.len() as int) + ")"@,
    }
}

/// The texts of the first `n` expressions, separated by a comma and a space.
pub open spec fn joined_expressions(expressions: Seq<ExpressionModel>, n: int) -> Seq<char>
    decreases expressions, n,
{
    if n <= 0 || n > expressions.len() {
        Seq::empty()
    } else if n == 1 {
        expression_text(expressions[0])
    } else {
        joined_expressions(expressions, n - 1) + ", "@ + expression_text(expressions[n - 1])
    }
}

/// How a statement is printed: `let` and `return` with their keyword and a
/// semicolon, an expression statement as its expression.
pub open spec fn statement_text(s: StatementModel) -> Seq<char>
    decreases s, 0int,
{
    match s {
        StatementModel::Let { identifier, expression } => "let "@ + identifier + " = "@
            + expression_text(expression) + ";"@,
        StatementModel::Return { expression } => "return "@ + expression_text(expression) + ";"@,
        StatementModel::Expression { expression } => expression_text(expression),
    }
}

/// The first `n` statements of a block, each between braces.
pub open spec fn block_text(statements: Seq<StatementModel>, n: int) -> Seq<char>
    decreases statements, n,
{
    if n <= 0 || n > statements.len() {
        Seq::empty()
    } else {
        block_text(statements, n - 1) + "{ "@ + statement_text(statements[n - 1]) + " }"@
    }
}

/// The first `n` statements of a program, one after the other.
pub open spec fn program_text(statements: Seq<StatementModel>, n: int) -> Seq<char>
    decreases statements, n,
{
    if n <= 0 || n > statements.len() {
        Seq::empty()
    } else {
        program_text(statements, n - 1) + statement_text(statements[n - 1])
    }
}

/// A copy of a list of names.
pub fn copy_names(names: &Vec<String>) -> (r: Vec<String>)
    ensures
        names_view(&r) == names_view(names),
{
    let mut out: Vec<String> = Vec::new();
    let mut i: usize = 0;
    while i < names.len()
        invariant
            0 <= i <= names.len(),
            out.len() == i,
            forall|k: int| 0 <= k < i ==> out[k]@ == names[k]@,
        decreases names.len() - i,
    {
        out.push(names[i].clone());
        i += 1;
    }
    assert(names_view(&out) =~= names_view(names));
    out
}

fn copy_expression(e: &Expression) -> (r: Expression)
    ensures
        r@ == e@,
    decreases e,
{
    match e {
        Expression::Identifier(name) => Expression::Identifier(name.clone()),
        Expression::Int(value) => Expression::Int(*value),
        Expression::Float(text) => Expression::Float(text.clone()),
        Expression::Boolean(value) => Expression::Boolean(*value),
        Expression::Prefix { operator, right } => Expression::Prefix {
            operator: *operator,
            right: Box::new(copy_expression(right)),
        },
        Expression::Infix { operator, left, right } => Expression::Infix {
            operator: *operator,
            left: Box::new(copy_expression(left)),
            right: Box::new(copy_expression(right)),
        },
        Expression::If { condition, consequence, alternative } => Expression::If {
            condition: Box::new(copy_expression(condition)),
            consequence: BlockStatement { statements: copy_statements(&consequence.statements) },
            alternative: match alternative {
                Some(block) => Some(
                    BlockStatement { statements: copy_statements(&block.statements) },
                ),
                None => None,
            },
        },
        Expression::Function { parameters, body } => Expression::Function {
            parameters: copy_names(parameters),
            body: BlockStatement { statements: copy_statements(&body.statements) },
        },
        Expression::Call { function, arguments } => Expression::Call {
            function: Box::new(copy_expression(function)),
            arguments: copy_expressions(arguments),
        },
    }
}

fn copy_expressions(expressions: &Vec<Expression>) -> (r: Vec<Expression>)
    ensures
        expressions_view(&r) == expressions_view(expressions),
    decreases expressions,
{
    let mut out: Vec<Expression> = Vec::new();
    let mut i: usize = 0;
    while i < expressions.len()
        invariant
            0 <= i <= expressions.len(),
            out.len() == i,
            forall|k: int| 0 <= k < i ==> out[k]@ == expressions[k]@,
        decreases expressions.len() - i,
    {
        out.push(copy_expression(&expressions[i]));
        i += 1;
    }
    assert(expressions_view(&out) =~= expressions_view(expressions));
    out
}

fn copy_statement(s: &Statement) -> (r: Statement)
    ensures
        r@ == s@,
    decreases s,
{
    match s {
        Statement::Let { identifier, expression } => Statement::Let {
            identifier: identifier.clone(),
            expression: copy_expression(expression),
        },
        Statement::Return { expression } => Statement::Return {
            expression: copy_expression(expression),
        },
        Statement::Expression { expression } => Statement::Expression {
            expression: copy_expression(expression),
        },
    }
}

fn copy_statements(statements: &Vec<Statement>) -> (r: Vec<Statement>)
    ensures
        statements_view(&r) == statements_view(statements),
    decreases statements,
{
    let mut out: Vec<Statement> = Vec::new();
    let mut i: usize = 0;
    while i < statements.len()
        invariant
            0 <= i <= statements.len(),
            out.len() == i,
            forall|k: int| 0 <= k < i ==> out[k]@ == statements[k]@,
        decreases statements.len() - i,
    {
        out.push(copy_statement(&statements[i]));
        i += 1;
    }
    assert(statements_view(&out) =~= statements_view(statements));
    out
}

impl Clone for Expression {
    fn clone(&self) -> (r: Self)
        ensures
            r@ == self@,
    {
        copy_expression(self)
    }
}

impl Clone for Statement {
    fn clone(&self) -> (r: Self)
        ensures
            r@ == self@,
    {
        copy_statement(self)
    }
}

impl Clone for BlockStatement {
    fn clone(&self) -> (r: Self)
        ensures
            r@ == self@,
    {
        BlockStatement { statements: copy_statements(&self.statements) }
    }
}

fn names_string(names: &Vec<String>) -> (r: String)
    ensures
        r@ == joined_names(names_view(names), names.len() as int),
{
    let mut out = String::new();
    let mut i: usize = 0;
    while i < names.len()
        invariant
            0 <= i <= names.len(),
            out@ == joined_names(names_view(names), i as int),
        decreases names.len() - i,
    {
        if i > 0 {
            out.append(",");
        }
        out.append(names[i].as_str());
        proof {
            if i == 0 {
                assert(out@ =~= names[0]@);
            }
        }
        i += 1;
    }
    out
}

fn expression_string(e: &Expression) -> (r: String)
    ensures
        r@ == expression_text(e@),
    decreases e,
{
    match e {
        Expression::Identifier(name) => name.clone(),
        Expression::Int(value) => {
            let mut out = String::new();
            push_integer(&mut out, *value);
            assert(out@ =~= signed_decimal(*value as int));
            out
        },
        Expression::Float(text) => text.clone(),
        Expression::Boolean(value) => if *value {
            "true".to_owned()
        } else {
            "false".to_owned()
        },
        Expression::Prefix { operator, right } => {
            let inner = expression_string(right);
            let mut out = "(".to_owned();
            out.append(operator.symbol());
            out.append(inner.as_str());
            out.append(")");
            out
        },
        Expression::Infix { operator, left, right } => {
            let left_text = expression_string(left);
            let right_text = expression_string(right);
            let mut out = "(".to_owned();
            out.append(left_text.as_str());
            out.append(" ");
            out.append(operator.symbol());
            out.append(" ");
            out.append(right_text.as_str());
            out.append(")");
            out
        },
        Expression::If { condition, consequence, alternative } => {
            let condition_text = expression_string(condition);
            let consequence_text = block_string(&consequence.statements);
            let mut out = "if ".to_owned();
            out.append(condition_text.as_str());
            out.append(" ");
            out.append(consequence_text.as_str());
            match alternative {
                Some(block) => {
                    let alternative_text = block_string(&block.statements);
                    out.append(" else ");
                    out.append(alternative_text.as_str());
                },
                None => {},
            }
            out
        },
        Expression::Function { parameters, body } => {
            let parameters_text = names_string(parameters);
            let body_text = block_string(&body.statements);
            let mut out = "(".to_owned();
            out.append(parameters_text.as_str());
            out.append(") ");
            out.append(body_text.as_str());
            out
        },
        Expression::Call { function, arguments } => {
            let function_text = expression_string(function);
            let arguments_text = expressions_string(arguments);
            let mut out = function_text;
            out.append("(");
            out.append(arguments_text.as_str());
            out.append(")");
            out
        },
    }
}

fn expressions_string(expressions: &Vec<Expression>) -> (r: String)
    ensures
        r@ == joined_expressions(expressions_view(expressions), expressions.len() as int),
    decreases expressions,
{
    let mut out = String::new();
    let mut i: usize = 0;
    while i < expressions.len()
        invariant
            0 <= i <= expressions.len(),
            out@ == joined_expressions(expressions_view(expressions), i as int),
        decreases expressions.len() - i,
    {
        let text = expression_string(&expressions[i]);
        if i > 0 {
            out.append(", ");
        }
        out.append(text.as_str());
        proof {
            if i == 0 {
                assert(out@ =~= text@);
            }
        }
        i += 1;
    }
    out
}

fn statement_string(s: &Statement) -> (r: String)
    ensures
        r@ == statement_text(s@),
    decreases s,
{
    match s {
        Statement::Let { identifier, expression } => {
            let text = expression_string(expression);
            let mut out = "let ".to_owned();
            out.append(identifier.as_str());
            out.append(" = ");
            out.append(text.as_str());
            out.append(";");
            out
        },
        Statement::Return { expression } => {
            let text = expression_string(expression);
            let mut out = "return ".to_owned();
            out.append(text.as_str());
            out.append(";");
            out
        },
        Statement::Expression { expression } => expression_string(expression),
    }
}

fn block_string(statements: &Vec<Statement>) -> (r: String)
    ensures
        r@ == block_text(statements_view(statements), statements.len() as int),
    decreases statements,
{
    let mut out = String::new();
    let mut i: usize = 0;
    while i < statements.len()
        invariant
            0 <= i <= statements.len(),
            out@ == block_text(statements_view(statements), i as int),
        decreases statements.len() - i,
    {
        let text = statement_string(&statements[i]);
        out.append("{ ");
        out.append(text.as_str());
        out.append(" }");
        i += 1;
    }
    out
}

impl Expression {
    /// The expression as text.
    pub fn to_string(&self) -> (r: String)
        ensures
            r@ == expression_text(self@),
    {
        expression_string(self)
    }
}

impl Statement {
    /// The statement as text.
    pub fn to_string(&self) -> (r: String)
        ensures
            r@ == statement_text(self@),
    {
        statement_string(self)
    }
}

impl BlockStatement {
    /// The block as text: each statement between braces.
    pub fn to_string(&self) -> (r: String)
        ensures
            r@ == block_text(self@, self@.len() as int),
    {
        block_string(&self.statements)
    }
}

impl Program {
    /// The program as text: its statements one after the other.
    pub fn to_string(&self) -> (r: String)
        ensures
            r@ == program_text(self@, self@.len() as int),
    {
        let mut out = String::new();
        let mut i: usize = 0;
        while i < self.statements.len()
            invariant
                0 <= i <= self.statements.len(),
                out@ == program_text(self@, i as int),
            decreases self.statements.len() - i,
        {
            let text = statement_string(&self.statements[i]);
            out.append(text.as_str());
            i += 1;
        }
        out
    }
}

/// Whether two lists of names hold the same names in the same order.
pub fn same_names(a: &Vec<String>, b: &Vec<String>) -> (r: bool)
    ensures
        r == (names_view(a) == names_view(b)),
{
    if a.len() != b.len() {
        assert(names_view(a).len() != names_view(b).len());
        return false;
    }
    let mut i: usize = 0;
    while i < a.len()
        invariant
            0 <= i <= a.len(),
            a.len() == b.len(),
            forall|k: int| 0 <= k < i ==> a[k]@ == b[k]@,
        decreases a.len() - i,
    {
        if a[i] != b[i] {
            assert(names_view(a)[i as int] != names_view(b)[i as int]);
            return false;
        }
        i += 1;
    }
    assert(names_view(a) =~= names_view(b));
    true
}

fn same_expression(a: &Expression, b: &Expression) -> (r: bool)
    ensures
        r == (a@ == b@),
    decreases a,
{
    match (a, b) {
        (Expression::Identifier(x), Expression::Identifier(y)) => {
            let equal = *x == *y;
            equal
        },
        (Expression::Int(x), Expression::Int(y)) => *x == *y,
        (Expression::Float(x), Expression::Float(y)) => {
            let equal = *x == *y;
            equal
        },
        (Expression::Boolean(x), Expression::Boolean(y)) => *x == *y,
        (
            Expression::Prefix { operator: o1, right: r1 },
            Expression::Prefix { operator: o2, right: r2 },
        ) => *o1 == *o2 && same_expression(r1, r2),
        (
            Expression::Infix { operator: o1, left: l1, right: r1 },
            Expression::Infix { operator: o2, left: l2, right: r2 },
        ) => *o1 == *o2 && same_expression(l1, l2) && same_expression(r1, r2),
        (
            Expression::If { condition: c1, consequence: q1, alternative: a1 },
            Expression::If { condition: c2, consequence: q2, alternative: a2 },
        ) => {
            let alternatives = match (a1, a2) {
                (Some(x), Some(y)) => same_statements(&x.statements, &y.statements),
                (None, None) => true,
                _ => false,
            };
            alternatives && same_expression(c1, c2) && same_statements(
                &q1.statements,
                &q2.statements,
            )
        },
        (
            Expression::Function { parameters: names1, body: b1 },
            Expression::Function { parameters: names2, body: b2 },
        ) => same_names(names1, names2) && same_statements(&b1.statements, &b2.statements),
        (
            Expression::Call { function: f1, arguments: a1 },
            Expression::Call { function: f2, arguments: a2 },
        ) => same_expression(f1, f2) && same_expressions(a1, a2),
        _ => false,
    }
}

fn same_expressions(a: &Vec<Expression>, b: &Vec<Expression>) -> (r: bool)
    ensures
        r == (expressions_view(a) == expressions_view(b)),
    decreases a,
{
    if a.len() != b.len() {
        assert(expressions_view(a).len() != expressions_view(b).len());
        return false;
    }
    let mut i: usize = 0;
    while i < a.len()
        invariant
            0 <= i <= a.len(),
            a.len() == b.len(),
            forall|k: int| 0 <= k < i ==> a[k]@ == b[k]@,
        decreases a.len() - i,
    {
        if !same_expression(&a[i], &b[i]) {
            assert(expressions_view(a)[i as int] != expressions_view(b)[i as int]);
            return false;
        }
        i += 1;
    }
    assert(expressions_view(a) =~= expressions_view(b));
    true
}

fn same_statement(a: &Statement, b: &Statement) -> (r: bool)
    ensures
        r == (a@ == b@),
    decreases a,
{
    match (a, b) {
        (
            Statement::Let { identifier: i1, expression: e1 },
            Statement::Let { identifier: i2, expression: e2 },
        ) => {
            let names = *i1 == *i2;
            names && same_expression(e1, e2)
        },
        (Statement::Return { expression: e1 }, Statement::Return { expression: e2 }) => {
            same_expression(e1, e2)
        },
        (Statement::Expression { expression: e1 }, Statement::Expression { expression: e2 }) => {
            same_expression(e1, e2)
        },
        _ => false,
    }
}

fn same_statements(a: &Vec<Statement>, b: &Vec<Statement>) -> (r: bool)
    ensures
        r == (statements_view(a) == statements_view(b)),
    decreases a,
{
    if a.len() != b.len() {
        assert(statements_view(a).len() != statements_view(b).len());
        return false;
    }
    let mut i: usize = 0;
    while i < a.len()
        invariant
            0 <= i <= a.len(),
            a.len() == b.len(),
            forall|k: int| 0 <= k < i ==> a[k]@ == b[k]@,
        decreases a.len() - i,
    {
        if !same_statement(&a[i], &b[i]) {
            assert(statements_view(a)[i as int] != statements_view(b)[i as int]);
            return false;
        }
        i += 1;
    }
    assert(statements_view(a) =~= statements_view(b));
    true
}

impl Expression {
    /// Whether two expressions are the same tree.
    pub fn same(&self, other: &Expression) -> (r: bool)
        ensures
            r == (self@ == other@),
    {
        same_expression(self, other)
    }
}

impl Statement {
    /// Whether two statements are the same tree.
    pub fn same(&self, other: &Statement) -> (r: bool)
        ensures
            r == (self@ == other@),
    {
        same_statement(self, other)
    }
}

impl BlockStatement {
    /// Whether two blocks hold the same statements.
    pub fn same(&self, other: &BlockStatement) -> (r: bool)
        ensures
            r == (self@ == other@),
    {
        same_statements(&self.statements, &other.statements)
    }
}

impl Program {
    /// Whether two programs hold the same statements.
    pub fn same(&self, other: &Program) -> (r: bool)
        ensures
            r == (self@ == other@),
    {
        same_statements(&self.statements, &other.statements)
    }
}

} // verus!
