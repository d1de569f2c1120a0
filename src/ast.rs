//! The syntax tree and the recursive-descent parser that builds it from tokens.
use vstd::prelude::*;

use crate::lexer::{kind_debug, kinds, Token, TokenType, TokView};
use crate::text::{int_text, push_int, push_quoted, push_text, quoted};

verus! {

#[derive(Debug, Clone, Copy, PartialEq, Eq, Structural)]
pub enum BinaryOperator {
    Add,
    Subtract,
    Multiply,
    Divide,
    Equal,
    NotEqual,
}

#[derive(Debug)]
pub enum Expression {
    Integer(i64),
    Variable(String),
    BinaryOperation(Box<Expression>, BinaryOperator, Box<Expression>),
    ParenthesisExpression(Box<Expression>),
}

#[derive(Debug)]
pub enum Statement {
    VariableDeclaration(String, Expression),
    Assignment(String, Expression),
    IfStatement(Expression, Vec<Statement>),
    LoopStatement(Vec<Statement>),
    BreakStatement,
    PrintStatement(Expression),
}

#[derive(Debug, Clone)]
pub struct Ast {
    pub statements: Vec<Statement>,
}

#[derive(Debug)]
pub enum AstError {
    UnexpectedStatement(TokenType),
    BadAssignment(String),
    BadLoop,
    BadVariableDeclaration,
    ExpectedBang,
    BadIfStatement,
    UnexpectedToken(TokenType),
    ExpectedClosingParenthesis,
    ExpectedExpression,
}

/// The model of an expression: names as character sequences.
pub enum ExprView {
    Integer(i64),
    Variable(Seq<char>),
    BinaryOperation(Box<ExprView>, BinaryOperator, Box<ExprView>),
    ParenthesisExpression(Box<ExprView>),
}

/// The model of a statement.
pub enum StmtView {
    VariableDeclaration(Seq<char>, ExprView),
    Assignment(Seq<char>, ExprView),
    IfStatement(ExprView, Seq<StmtView>),
    LoopStatement(Seq<StmtView>),
    BreakStatement,
    PrintStatement(ExprView),
}

/// The model of a parse error.
pub enum AstErrView {
    UnexpectedStatement(TokView),
    BadAssignment(Seq<char>),
    BadLoop,
    BadVariableDeclaration,
    ExpectedBang,
    BadIfStatement,
    UnexpectedToken(TokView),
    ExpectedClosingParenthesis,
    ExpectedExpression,
}

/// The model of an expression.
pub open spec fn expr_view(e: Expression) -> ExprView
    decreases e,
{
    match e {
        Expression::Integer(v) => ExprView::Integer(v),
        Expression::Variable(n) => ExprView::Variable(n@),
        Expression::BinaryOperation(l, op, r) => ExprView::BinaryOperation(
            Box::new(expr_view(*l)),
            op,
            Box::new(expr_view(*r)),
        ),
        Expression::ParenthesisExpression(i) => ExprView::ParenthesisExpression(
            Box::new(expr_view(*i)),
        ),
    }
}

impl View for Expression {
    type V = ExprView;

    open spec fn view(&self) -> ExprView {
        expr_view(*self)
    }
}

/// The models of a sequence of statements.
pub open spec fn stmts_view(ss: Seq<Statement>) -> Seq<StmtView>
    decreases ss,
{
    if ss.len() == 0 {
        Seq::empty()
    } else {
        stmts_view(ss.drop_last()).push(stmt_view(ss.last()))
    }
}

/// The model of a statement.
pub open spec fn stmt_view(s: Statement) -> StmtView
    decreases s,
{
    match s {
        Statement::VariableDeclaration(n, e) => StmtView::VariableDeclaration(n@, e@),
        Statement::Assignment(n, e) => StmtView::Assignment(n@, e@),
        Statement::IfStatement(c, body) => StmtView::IfStatement(c@, stmts_view(body@)),
        Statement::LoopStatement(body) => StmtView::LoopStatement(stmts_view(body@)),
        Statement::BreakStatement => StmtView::BreakStatement,
        Statement::PrintStatement(e) => StmtView::PrintStatement(e@),
    }
}

impl View for Statement {
    type V = StmtView;

    open spec fn view(&self) -> StmtView {
        stmt_view(*self)
    }
}

impl View for Ast {
    type V = Seq<StmtView>;

    open spec fn view(&self) -> Seq<StmtView> {
        stmts_view(self.statements@)
    }
}

impl View for AstError {
    type V = AstErrView;

    open spec fn view(&self) -> AstErrView {
        match self {
            AstError::UnexpectedStatement(t) => AstErrView::UnexpectedStatement(t@),
            AstError::BadAssignment(n) => AstErrView::BadAssignment(n@),
            AstError::BadLoop => AstErrView::BadLoop,
            AstError::BadVariableDeclaration => AstErrView::BadVariableDeclaration,
            AstError::ExpectedBang => AstErrView::ExpectedBang,
            AstError::BadIfStatement => AstErrView::BadIfStatement,
            AstError::UnexpectedToken(t) => AstErrView::UnexpectedToken(t@),
            AstError::ExpectedClosingParenthesis => AstErrView::ExpectedClosingParenthesis,
            AstError::ExpectedExpression => AstErrView::ExpectedExpression,
        }
    }
}

// ---------------------------------------------------------------------------
// The grammar, over the kinds of the tokens `t`; each rule starts at index `p`
// and gives what it built and the index just after it. Where a rule goes on
// after a part, it first tests that the part read at least one token within
// the tokens: that keeps the recursion's measure plain, and the lemmas
// `lemma_*_advances` below prove that the test always passes.
pub type ExprParse = Result<(ExprView, int), AstErrView>;

pub type StmtParse = Result<(StmtView, int), AstErrView>;

pub type BlockParse = Result<(Seq<StmtView>, int), AstErrView>;

pub open spec fn peek(t: Seq<TokView>, p: int) -> Option<TokView> {
    if 0 <= p < t.len() {
        Some(t[p])
    } else {
        None
    }
}

/// An integer, a variable, or an expression in parentheses.
pub open spec fn primary(t: Seq<TokView>, p: int) -> ExprParse
    decreases t.len() - p, 0int,
{
    match peek(t, p) {
        None => Err(AstErrView::ExpectedExpression),
        Some(TokView::Integer(v)) => Ok((ExprView::Integer(v), p + 1)),
        Some(TokView::Identifier(n)) => Ok((ExprView::Variable(n), p + 1)),
        Some(TokView::OpenParen) => match expression(t, p + 1) {
            Ok((e, q)) => if peek(t, q) == Some(TokView::CloseParen) {
                Ok((ExprView::ParenthesisExpression(Box::new(e)), q + 1))
            } else {
                Err(AstErrView::ExpectedClosingParenthesis)
            },
            Err(err) => Err(err),
        },
        Some(k) => Err(AstErrView::UnexpectedToken(k)),
    }
}

/// Whether a token can start a primary expression.
pub open spec fn starts_primary(k: Option<TokView>) -> bool {
    match k {
        Some(TokView::Integer(_)) => true,
        Some(TokView::Identifier(_)) => true,
        Some(TokView::OpenParen) => true,
        _ => false,
    }
}

/// The equality operator at a token, if any.
pub open spec fn comparison_op(k: Option<TokView>) -> Option<BinaryOperator> {
    match k {
        Some(TokView::EqualEqual) => Some(BinaryOperator::Equal),
        Some(TokView::SemicolonEqual) => Some(BinaryOperator::NotEqual),
        _ => None,
    }
}

/// The multiplicative operator at a token, if any.
pub open spec fn mult_op(k: Option<TokView>) -> Option<BinaryOperator> {
    match k {
        Some(TokView::Star) => Some(BinaryOperator::Multiply),
        Some(TokView::Slash) => Some(BinaryOperator::Divide),
        _ => None,
    }
}

/// The additive operator at a token, if any.
pub open spec fn add_op(k: Option<TokView>) -> Option<BinaryOperator> {
    match k {
        Some(TokView::Plus) => Some(BinaryOperator::Add),
        Some(TokView::Minus) => Some(BinaryOperator::Subtract),
        _ => None,
    }
}

pub open spec fn binary(l: ExprView, op: BinaryOperator, r: ExprView) -> ExprView {
    ExprView::BinaryOperation(Box::new(l), op, Box::new(r))
}

/// Primaries joined left to right by `==` and `;=`.
pub open spec fn comparison(t: Seq<TokView>, p: int) -> ExprParse
    decreases t.len() - p, 2int,
{
    match primary(t, p) {
        Ok((l, q)) => if p < q <= t.len() {
            comparison_rest(t, q, l)
        } else {
            Ok((l, q))
        },
        Err(e) => Err(e),
    }
}

/// Further `==` and `;=` operands, folded onto `left`.
pub open spec fn comparison_rest(t: Seq<TokView>, p: int, left: ExprView) -> ExprParse
    decreases t.len() - p, 2int,
{
    match comparison_op(peek(t, p)) {
        None => Ok((left, p)),
        Some(op) => match primary(t, p + 1) {
            Ok((r, q)) => if p < q <= t.len() {
                comparison_rest(t, q, binary(left, op, r))
            } else {
                Ok((left, q))
            },
            Err(e) => Err(e),
        },
    }
}

/// Comparisons joined left to right by `*` and `/`.
pub open spec fn mult_div(t: Seq<TokView>, p: int) -> ExprParse
    decreases t.len() - p, 4int,
{
    match comparison(t, p) {
        Ok((l, q)) => if p < q <= t.len() {
            mult_div_rest(t, q, l)
        } else {
            Ok((l, q))
        },
        Err(e) => Err(e),
    }
}

/// Further `*` and `/` operands, folded onto `left`.
pub open spec fn mult_div_rest(t: Seq<TokView>, p: int, left: ExprView) -> ExprParse
    decreases t.len() - p, 4int,
{
    match mult_op(peek(t, p)) {
        None => Ok((left, p)),
        Some(op) => match comparison(t, p + 1) {
            Ok((r, q)) => if p < q <= t.len() {
                mult_div_rest(t, q, binary(left, op, r))
            } else {
                Ok((left, q))
            },
            Err(e) => Err(e),
        },
    }
}

/// Products joined left to right by `+` and `-`.
pub open spec fn add_sub(t: Seq<TokView>, p: int) -> ExprParse
    decreases t.len() - p, 6int,
{
    match mult_div(t, p) {
        Ok((l, q)) => if p < q <= t.len() {
            add_sub_rest(t, q, l)
        } else {
            Ok((l, q))
        },
        Err(e) => Err(e),
    }
}

/// Further `+` and `-` operands, folded onto `left`.
pub open spec fn add_sub_rest(t: Seq<TokView>, p: int, left: ExprView) -> ExprParse
    decreases t.len() - p, 6int,
{
    match add_op(peek(t, p)) {
        None => Ok((left, p)),
        Some(op) => match mult_div(t, p + 1) {
            Ok((r, q)) => if p < q <= t.len() {
                add_sub_rest(t, q, binary(left, op, r))
            } else {
                Ok((left, q))
            },
            Err(e) => Err(e),
        },
    }
}

/// An expression: the additive level, the lowest.
pub open spec fn expression(t: Seq<TokView>, p: int) -> ExprParse
    decreases t.len() - p, 7int,
{
    add_sub(t, p)
}

/// The `!` that ends a simple statement.
pub open spec fn bang(t: Seq<TokView>, p: int) -> Result<int, AstErrView> {
    if peek(t, p) == Some(TokView::Bang) {
        Ok(p + 1)
    } else {
        Err(AstErrView::ExpectedBang)
    }
}

/// `print <expression> !`, after the keyword.
pub open spec fn print_statement(t: Seq<TokView>, p: int) -> StmtParse
    decreases t.len() - p, 8int,
{
    match expression(t, p) {
        Ok((e, q)) => match bang(t, q) {
            Ok(r) => Ok((StmtView::PrintStatement(e), r)),
            Err(err) => Err(err),
        },
        Err(err) => Err(err),
    }
}

/// `<name> = <expression> !`, after the name.
pub open spec fn assignment(t: Seq<TokView>, p: int, name: Seq<char>) -> StmtParse
    decreases t.len() - p, 8int,
{
    if peek(t, p) == Some(TokView::Equal) {
        match expression(t, p + 1) {
            Ok((e, q)) => match bang(t, q) {
                Ok(r) => Ok((StmtView::Assignment(name, e), r)),
                Err(err) => Err(err),
            },
            Err(err) => Err(err),
        }
    } else {
        Err(AstErrView::BadAssignment(name))
    }
}

/// `var <name> = <expression> !`, after the keyword.
pub open spec fn variable_declaration(t: Seq<TokView>, p: int) -> StmtParse
    decreases t.len() - p, 8int,
{
    match peek(t, p) {
        Some(TokView::Identifier(name)) => if peek(t, p + 1) == Some(TokView::Equal) {
            match expression(t, p + 2) {
                Ok((e, q)) => match bang(t, q) {
                    Ok(r) => Ok((StmtView::VariableDeclaration(name, e), r)),
                    Err(err) => Err(err),
                },
                Err(err) => Err(err),
            }
        } else {
            Err(AstErrView::BadVariableDeclaration)
        },
        _ => Err(AstErrView::BadVariableDeclaration),
    }
}

/// Statements up to a closing brace or the end of the tokens, neither of
/// which is read.
pub open spec fn block(t: Seq<TokView>, p: int) -> BlockParse
    decreases t.len() - p, 10int,
{
    match peek(t, p) {
        None => Ok((Seq::empty(), p)),
        Some(TokView::CloseBrace) => Ok((Seq::empty(), p)),
        Some(_) => match statement(t, p) {
            Ok((s, q)) => if p < q <= t.len() {
                match block(t, q) {
                    Ok((ss, r)) => Ok((seq![s] + ss, r)),
                    Err(err) => Err(err),
                }
            } else {
                Ok((seq![s], q))
            },
            Err(err) => Err(err),
        },
    }
}

/// `loop { <statements> }`, after the keyword.
pub open spec fn loop_statement(t: Seq<TokView>, p: int) -> StmtParse
    decreases t.len() - p, 8int,
{
    if peek(t, p) == Some(TokView::OpenBrace) {
        match block(t, p + 1) {
            Ok((ss, q)) => if peek(t, q) == Some(TokView::CloseBrace) {
                Ok((StmtView::LoopStatement(ss), q + 1))
            } else {
                Err(AstErrView::BadLoop)
            },
            Err(err) => Err(err),
        }
    } else {
        Err(AstErrView::BadLoop)
    }
}

/// `if ( <expression> ) { <statements> }`, after the keyword.
pub open spec fn if_statement(t: Seq<TokView>, p: int) -> StmtParse
    decreases t.len() - p, 8int,
{
    if peek(t, p) == Some(TokView::OpenParen) {
        match expression(t, p + 1) {
            Ok((c, q)) => if peek(t, q) == Some(TokView::CloseParen) && peek(t, q + 1) == Some(
                TokView::OpenBrace,
            ) && p < q {
                match block(t, q + 2) {
                    Ok((ss, r)) => if peek(t, r) == Some(TokView::CloseBrace) {
                        Ok((StmtView::IfStatement(c, ss), r + 1))
                    } else {
                        Err(AstErrView::BadIfStatement)
                    },
                    Err(err) => Err(err),
                }
            } else {
                Err(AstErrView::BadIfStatement)
            },
            Err(err) => Err(err),
        }
    } else {
        Err(AstErrView::BadIfStatement)
    }
}

/// One statement; its first token decides which.
pub open spec fn statement(t: Seq<TokView>, p: int) -> StmtParse
    decreases t.len() - p, 9int,
{
    match peek(t, p) {
        None => Err(AstErrView::ExpectedExpression),
        Some(TokView::Break) => match bang(t, p + 1) {
            Ok(r) => Ok((StmtView::BreakStatement, r)),
            Err(err) => Err(err),
        },
        Some(TokView::Identifier(name)) => assignment(t, p + 1, name),
        Some(TokView::Loop) => loop_statement(t, p + 1),
        Some(TokView::Var) => variable_declaration(t, p + 1),
        Some(TokView::If) => if_statement(t, p + 1),
        Some(TokView::Print) => print_statement(t, p + 1),
        Some(k) => Err(AstErrView::UnexpectedStatement(k)),
    }
}

/// The statements from index `p` to the end of the tokens.
pub open spec fn program(t: Seq<TokView>, p: int) -> Result<Seq<StmtView>, AstErrView>
    decreases t.len() - p,
{
    if p >= t.len() || p < 0 {
        Ok(Seq::empty())
    } else {
        match statement(t, p) {
            Ok((s, q)) => if p < q <= t.len() {
                match program(t, q) {
                    Ok(ss) => Ok(seq![s] + ss),
                    Err(err) => Err(err),
                }
            } else {
                Ok(seq![s])
            },
            Err(err) => Err(err),
        }
    }
}

// ---------------------------------------------------------------------------
// Every rule that succeeds reads at least one token and ends within the tokens
// (a block and the operand lists may read none), so the bounds that the rules
// test before they go on always hold.
pub proof fn lemma_primary_advances(t: Seq<TokView>, p: int)
    requires
        0 <= p,
    ensures
        primary(t, p) matches Ok((_, q)) ==> p < q <= t.len(),
    decreases t.len() - p, 0int,
{
    if p < t.len() && t[p] == TokView::OpenParen {
        lemma_expression_advances(t, p + 1);
    }
}

pub proof fn lemma_comparison_advances(t: Seq<TokView>, p: int)
    requires
        0 <= p,
    ensures
        comparison(t, p) matches Ok((_, q)) ==> p < q <= t.len(),
    decreases t.len() - p, 2int,
{
    lemma_primary_advances(t, p);
    if let Ok((l, q)) = primary(t, p) {
        lemma_comparison_rest_advances(t, q, l);
    }
}

pub proof fn lemma_comparison_rest_advances(t: Seq<TokView>, p: int, left: ExprView)
    requires
        0 <= p <= t.len(),
    ensures
        comparison_rest(t, p, left) matches Ok((_, q)) ==> p <= q <= t.len(),
    decreases t.len() - p, 2int,
{
    if let Some(op) = comparison_op(peek(t, p)) {
        lemma_primary_advances(t, p + 1);
        if let Ok((r, q)) = primary(t, p + 1) {
            lemma_comparison_rest_advances(t, q, binary(left, op, r));
        }
    }
}

pub proof fn lemma_mult_div_advances(t: Seq<TokView>, p: int)
    requires
        0 <= p,
    ensures
        mult_div(t, p) matches Ok((_, q)) ==> p < q <= t.len(),
    decreases t.len() - p, 4int,
{
    lemma_comparison_advances(t, p);
    if let Ok((l, q)) = comparison(t, p) {
        lemma_mult_div_rest_advances(t, q, l);
    }
}

pub proof fn lemma_mult_div_rest_advances(t: Seq<TokView>, p: int, left: ExprView)
    requires
        0 <= p <= t.len(),
    ensures
        mult_div_rest(t, p, left) matches Ok((_, q)) ==> p <= q <= t.len(),
    decreases t.len() - p, 4int,
{
    if let Some(op) = mult_op(peek(t, p)) {
        lemma_comparison_advances(t, p + 1);
        if let Ok((r, q)) = comparison(t, p + 1) {
            lemma_mult_div_rest_advances(t, q, binary(left, op, r));
        }
    }
}

pub proof fn lemma_add_sub_advances(t: Seq<TokView>, p: int)
    requires
        0 <= p,
    ensures
        add_sub(t, p) matches Ok((_, q)) ==> p < q <= t.len(),
    decreases t.len() - p, 6int,
{
    lemma_mult_div_advances(t, p);
    if let Ok((l, q)) = mult_div(t, p) {
        lemma_add_sub_rest_advances(t, q, l);
    }
}

pub proof fn lemma_add_sub_rest_advances(t: Seq<TokView>, p: int, left: ExprView)
    requires
        0 <= p <= t.len(),
    ensures
        add_sub_rest(t, p, left) matches Ok((_, q)) ==> p <= q <= t.len(),
    decreases t.len() - p, 6int,
{
    if let Some(op) = add_op(peek(t, p)) {
        lemma_mult_div_advances(t, p + 1);
        if let Ok((r, q)) = mult_div(t, p + 1) {
            lemma_add_sub_rest_advances(t, q, binary(left, op, r));
        }
    }
}

pub proof fn lemma_expression_advances(t: Seq<TokView>, p: int)
    requires
        0 <= p,
    ensures
        expression(t, p) matches Ok((_, q)) ==> p < q <= t.len(),
    decreases t.len() - p, 7int,
{
    lemma_add_sub_advances(t, p);
}

pub proof fn lemma_print_advances(t: Seq<TokView>, p: int)
    requires
        0 <= p,
    ensures
        print_statement(t, p) matches Ok((_, q)) ==> p < q <= t.len(),
    decreases t.len() - p, 8int,
{
    lemma_expression_advances(t, p);
}

pub proof fn lemma_assignment_advances(t: Seq<TokView>, p: int, name: Seq<char>)
    requires
        0 <= p,
    ensures
        assignment(t, p, name) matches Ok((_, q)) ==> p < q <= t.len(),
    decreases t.len() - p, 8int,
{
    lemma_expression_advances(t, p + 1);
}

pub proof fn lemma_variable_declaration_advances(t: Seq<TokView>, p: int)
    requires
        0 <= p,
    ensures
        variable_declaration(t, p) matches Ok((_, q)) ==> p < q <= t.len(),
    decreases t.len() - p, 8int,
{
    lemma_expression_advances(t, p + 2);
}

pub proof fn lemma_block_advances(t: Seq<TokView>, p: int)
    requires
        0 <= p <= t.len(),
    ensures
        block(t, p) matches Ok((_, q)) ==> p <= q <= t.len(),
    decreases t.len() - p, 10int,
{
    if p < t.len() && t[p] != TokView::CloseBrace {
        lemma_statement_advances(t, p);
        if let Ok((_, q)) = statement(t, p) {
            lemma_block_advances(t, q);
        }
    }
}

pub proof fn lemma_loop_advances(t: Seq<TokView>, p: int)
    requires
        0 <= p,
    ensures
        loop_statement(t, p) matches Ok((_, q)) ==> p < q <= t.len(),
    decreases t.len() - p, 8int,
{
    if p < t.len() {
        lemma_block_advances(t, p + 1);
    }
}

pub proof fn lemma_if_advances(t: Seq<TokView>, p: int)
    requires
        0 <= p,
    ensures
        if_statement(t, p) matches Ok((_, q)) ==> p < q <= t.len(),
    decreases t.len() - p, 8int,
{
    lemma_expression_advances(t, p + 1);
    if let Ok((_, q)) = expression(t, p + 1) {
        if q + 2 <= t.len() {
            lemma_block_advances(t, q + 2);
        }
    }
}

pub proof fn lemma_statement_advances(t: Seq<TokView>, p: int)
    requires
        0 <= p,
    ensures
        statement(t, p) matches Ok((_, q)) ==> p < q <= t.len(),
    decreases t.len() - p, 9int,
{
    if p < t.len() {
        match t[p] {
            TokView::Identifier(name) => lemma_assignment_advances(t, p + 1, name),
            TokView::Loop => lemma_loop_advances(t, p + 1),
            TokView::Var => lemma_variable_declaration_advances(t, p + 1),
            TokView::If => lemma_if_advances(t, p + 1),
            TokView::Print => lemma_print_advances(t, p + 1),
            _ => {},
        }
    }
}

impl Expression {
    /// A deep copy, with the same model.
    pub fn duplicate(&self) -> (r: Expression)
        ensures
            r@ == self@,
        decreases self,
    {
        match self {
            Expression::Integer(v) => Expression::Integer(*v),
            Expression::Variable(n) => Expression::Variable(n.clone()),
            Expression::BinaryOperation(l, op, r) => Expression::BinaryOperation(
                Box::new(l.duplicate()),
                *op,
                Box::new(r.duplicate()),
            ),
            Expression::ParenthesisExpression(i) => Expression::ParenthesisExpression(
                Box::new(i.duplicate()),
            ),
        }
    }
}

// `Clone` is written out: a derived one on these recursive types refers to
// itself through `Box` and `Vec`, which Verus refuses.
impl Clone for Expression {
    fn clone(&self) -> Self {
        self.duplicate()
    }
}

impl Clone for Statement {
    fn clone(&self) -> Self {
        self.duplicate()
    }
}

/// A deep copy of a sequence of statements, with the same models.
pub fn duplicate_all(statements: &Vec<Statement>) -> (r: Vec<Statement>)
    ensures
        stmts_view(r@) == stmts_view(statements@),
    decreases statements@,
{
    let mut r: Vec<Statement> = Vec::new();
    let mut i: usize = 0;
    while i < statements.len()
        invariant
            0 <= i <= statements@.len(),
            stmts_view(r@) == stmts_view(statements@.subrange(0, i as int)),
        decreases statements.len() - i,
    {
        proof {
            assert(decreases_to!(statements@ => statements@[i as int]));
            assert(statements@.subrange(0, i + 1) == statements@.subrange(0, i as int).push(
                statements@[i as int],
            ));
            lemma_stmts_view_push(statements@.subrange(0, i as int), statements@[i as int]);
        }
        let s = statements[i].duplicate();
        proof {
            lemma_stmts_view_push(r@, s);
        }
        r.push(s);
        i = i + 1;
    }
    assert(statements@.subrange(0, statements@.len() as int) == statements@);
    r
}

impl Statement {
    /// A deep copy, with the same model.
    pub fn duplicate(&self) -> (r: Statement)
        ensures
            r@ == self@,
        decreases self,
    {
        match self {
            Statement::VariableDeclaration(n, e) => Statement::VariableDeclaration(
                n.clone(),
                e.duplicate(),
            ),
            Statement::Assignment(n, e) => Statement::Assignment(n.clone(), e.duplicate()),
            Statement::IfStatement(c, body) => Statement::IfStatement(
                c.duplicate(),
                duplicate_all(body),
            ),
            Statement::LoopStatement(body) => Statement::LoopStatement(duplicate_all(body)),
            Statement::BreakStatement => Statement::BreakStatement,
            Statement::PrintStatement(e) => Statement::PrintStatement(e.duplicate()),
        }
    }
}

impl Ast {
    /// A deep copy, with the same model; the checker and the generator each
    /// take a tree of their own.
    pub fn duplicate(&self) -> (r: Ast)
        ensures
            r@ == self@,
    {
        Ast { statements: duplicate_all(&self.statements) }
    }
}

/// The number of top-level statement productions that the parse of a program
/// from index `p` goes through before it ends or fails.
pub open spec fn productions(t: Seq<TokView>, p: int) -> nat
    decreases t.len() - p,
{
    if p >= t.len() || p < 0 {
        0
    } else {
        match statement(t, p) {
            Ok((_, q)) => if p < q <= t.len() {
                1 + productions(t, q)
            } else {
                1
            },
            Err(_) => 0,
        }
    }
}

/// Of every program that parses, the tree holds one top-level statement for
/// each top-level statement production consumed; as each production reads at
/// least one token, there are no more of them than tokens.
pub proof fn lemma_statement_count(t: Seq<TokView>, p: int)
    ensures
        program(t, p) matches Ok(ss) ==> ss.len() == productions(t, p),
        0 <= p <= t.len() ==> productions(t, p) <= t.len() - p,
    decreases t.len() - p,
{
    if 0 <= p < t.len() {
        lemma_statement_advances(t, p);
        if let Ok((_, q)) = statement(t, p) {
            lemma_statement_count(t, q);
        }
    }
}

/// A parsed expression and where its tokens end, seen as the grammar sees it.
pub open spec fn expr_result(r: Result<Expression, AstError>, at: int) -> ExprParse {
    match r {
        Ok(e) => Ok((e@, at)),
        Err(err) => Err(err@),
    }
}

pub open spec fn stmt_result(r: Result<Statement, AstError>, at: int) -> StmtParse {
    match r {
        Ok(s) => Ok((s@, at)),
        Err(err) => Err(err@),
    }
}

pub open spec fn block_result(r: Result<Vec<Statement>, AstError>, at: int) -> BlockParse {
    match r {
        Ok(v) => Ok((stmts_view(v@), at)),
        Err(err) => Err(err@),
    }
}

/// A parsed program, seen as the grammar sees it.
pub open spec fn parse_result(r: Result<Ast, AstError>) -> Result<Seq<StmtView>, AstErrView> {
    match r {
        Ok(a) => Ok(a@),
        Err(err) => Err(err@),
    }
}

pub open spec fn prepend_block(k: Seq<StmtView>, r: BlockParse) -> BlockParse {
    match r {
        Ok((ss, q)) => Ok((k + ss, q)),
        Err(err) => Err(err),
    }
}

pub open spec fn prepend_program(
    k: Seq<StmtView>,
    r: Result<Seq<StmtView>, AstErrView>,
) -> Result<Seq<StmtView>, AstErrView> {
    match r {
        Ok(ss) => Ok(k + ss),
        Err(err) => Err(err),
    }
}

/// Appending a statement appends its model.
pub proof fn lemma_stmts_view_push(v: Seq<Statement>, s: Statement)
    ensures
        stmts_view(v.push(s)) == stmts_view(v).push(s@),
{
    assert(v.push(s).drop_last() == v);
}

/// The models of a sequence of statements, one for each, in order.
pub proof fn lemma_stmts_view_index(v: Seq<Statement>, i: int)
    ensures
        stmts_view(v).len() == v.len(),
        0 <= i < v.len() ==> stmts_view(v)[i] == v[i]@,
    decreases v.len(),
{
    if v.len() > 0 {
        lemma_stmts_view_index(v.drop_last(), i);
    }
}

pub struct AstParser {
    tokens: Vec<Token>,
    index: usize,
}

impl AstParser {
    /// The kinds of the tokens to parse.
    pub closed spec fn token_kinds(&self) -> Seq<TokView> {
        kinds(self.tokens@)
    }

    /// The index of the next token to read.
    pub closed spec fn cursor(&self) -> int {
        self.index as int
    }

    /// The cursor lies within the tokens.
    pub closed spec fn wf(&self) -> bool {
        self.index <= self.tokens@.len()
    }

    spec fn kinds_at(&self) -> Option<TokView> {
        peek(kinds(self.tokens@), self.index as int)
    }

    pub fn new(tokens: Vec<Token>) -> (r: Self)
        ensures
            r.token_kinds() == kinds(tokens@),
            r.cursor() == 0,
            r.wf(),
    {
        AstParser { tokens, index: 0 }
    }

    fn peek(&self) -> (r: Option<&Token>)
        ensures
            r is Some <==> self.index < self.tokens@.len(),
            r matches Some(t) ==> *t == self.tokens@[self.index as int],
            r matches Some(t) ==> self.kinds_at() == Some(t.token_type@),
            r is None ==> self.kinds_at() is None,
    {
        self.peek_fw(0)
    }

    fn peek_fw(&self, amount: usize) -> (r: Option<&Token>)
        ensures
            r is Some <==> self.index + amount < self.tokens@.len(),
            r matches Some(t) ==> *t == self.tokens@[self.index + amount],
            r matches Some(t) ==> peek(kinds(self.tokens@), self.index + amount) == Some(
                t.token_type@,
            ),
            r is None ==> peek(kinds(self.tokens@), self.index + amount) is None,
    {
        if self.index < self.tokens.len() && amount < self.tokens.len() - self.index {
            Some(&self.tokens[self.index + amount])
        } else {
            None
        }
    }

    fn consume(&mut self)
        requires
            old(self).index < old(self).tokens@.len(),
        ensures
            final(self).index == old(self).index + 1,
            final(self).tokens == old(self).tokens,
    {
        let n = self.tokens.len();
        assert(self.index < n);
        self.index = self.index + 1;
    }

    /// Whether the next token is a `)`.
    fn at_close_paren(&self) -> (r: bool)
        ensures
            r == (self.kinds_at() == Some(TokView::CloseParen)),
    {
        match self.peek() {
            Some(token) => matches!(token.token_type, TokenType::CloseParen),
            None => false,
        }
    }

    /// Whether the next token is a `(`.
    fn at_open_paren(&self) -> (r: bool)
        ensures
            r == (self.kinds_at() == Some(TokView::OpenParen)),
    {
        match self.peek() {
            Some(token) => matches!(token.token_type, TokenType::OpenParen),
            None => false,
        }
    }

    /// Whether the next token is a `{`.
    fn at_open_brace(&self) -> (r: bool)
        ensures
            r == (self.kinds_at() == Some(TokView::OpenBrace)),
    {
        match self.peek() {
            Some(token) => matches!(token.token_type, TokenType::OpenBrace),
            None => false,
        }
    }

    /// Whether the next token is a `}`.
    fn at_close_brace(&self) -> (r: bool)
        ensures
            r == (self.kinds_at() == Some(TokView::CloseBrace)),
    {
        match self.peek() {
            Some(token) => matches!(token.token_type, TokenType::CloseBrace),
            None => false,
        }
    }

    /// Whether the next token is a `=`.
    fn at_equal(&self) -> (r: bool)
        ensures
            r == (self.kinds_at() == Some(TokView::Equal)),
    {
        match self.peek() {
            Some(token) => matches!(token.token_type, TokenType::Equal),
            None => false,
        }
    }

    fn peek_add_op(&self) -> (r: Option<BinaryOperator>)
        ensures
            r == add_op(self.kinds_at()),
    {
        match self.peek() {
            Some(token) => match token.token_type {
                TokenType::Plus => Some(BinaryOperator::Add),
                TokenType::Minus => Some(BinaryOperator::Subtract),
                _ => None,
            },
            None => None,
        }
    }

    fn peek_mult_op(&self) -> (r: Option<BinaryOperator>)
        ensures
            r == mult_op(self.kinds_at()),
    {
        match self.peek() {
            Some(token) => match token.token_type {
                TokenType::Star => Some(BinaryOperator::Multiply),
                TokenType::Slash => Some(BinaryOperator::Divide),
                _ => None,
            },
            None => None,
        }
    }

    fn peek_comparison_op(&self) -> (r: Option<BinaryOperator>)
        ensures
            r == comparison_op(self.kinds_at()),
    {
        match self.peek() {
            Some(token) => match token.token_type {
                TokenType::EqualEqual => Some(BinaryOperator::Equal),
                TokenType::SemicolonEqual => Some(BinaryOperator::NotEqual),
                _ => None,
            },
            None => None,
        }
    }

    fn expect_bang(&mut self) -> (r: Result<(), AstError>)
        requires
            old(self).index <= old(self).tokens@.len(),
        ensures
            final(self).tokens == old(self).tokens,
            r is Ok <==> bang(kinds(old(self).tokens@), old(self).index as int) is Ok,
            r is Ok ==> final(self).index == old(self).index + 1,
            r matches Err(e) ==> e@ == AstErrView::ExpectedBang,
            r is Err ==> final(self).index == old(self).index,
            final(self).index <= final(self).tokens@.len(),
    {
        let is_bang = match self.peek() {
            Some(token) => matches!(token.token_type, TokenType::Bang),
            None => false,
        };
        if !is_bang {
            return Err(AstError::ExpectedBang);
        }
        self.consume();
        Ok(())
    }

    fn parse_primary(&mut self) -> (r: Result<Expression, AstError>)
        requires
            old(self).index <= old(self).tokens@.len(),
        ensures
            final(self).tokens == old(self).tokens,
            expr_result(r, final(self).index as int) == primary(
                kinds(old(self).tokens@),
                old(self).index as int,
            ),
            final(self).index <= final(self).tokens@.len(),
            r is Ok ==> old(self).index < final(self).index,
            !starts_primary(peek(kinds(old(self).tokens@), old(self).index as int))
                ==> final(self).index == old(self).index,
        decreases old(self).tokens@.len() - old(self).index, 0int,
    {
        let kind = match self.peek() {
            Some(token) => token.token_type.duplicate(),
            None => {
                return Err(AstError::ExpectedExpression);
            },
        };
        match kind {
            TokenType::Integer(value) => {
                self.consume();
                Ok(Expression::Integer(value))
            },
            TokenType::Identifier(name) => {
                self.consume();
                Ok(Expression::Variable(name))
            },
            TokenType::OpenParen => {
                self.consume();
                let expr = match self.parse_expression() {
                    Ok(e) => e,
                    Err(e) => {
                        return Err(e);
                    },
                };
                if self.at_close_paren() {
                    self.consume();
                    Ok(Expression::ParenthesisExpression(Box::new(expr)))
                } else {
                    Err(AstError::ExpectedClosingParenthesis)
                }
            },
            other => Err(AstError::UnexpectedToken(other)),
        }
    }

    fn parse_comparision_expression(&mut self) -> (r: Result<Expression, AstError>)
        requires
            old(self).index <= old(self).tokens@.len(),
        ensures
            final(self).tokens == old(self).tokens,
            expr_result(r, final(self).index as int) == comparison(
                kinds(old(self).tokens@),
                old(self).index as int,
            ),
            final(self).index <= final(self).tokens@.len(),
            r is Ok ==> old(self).index < final(self).index,
        decreases old(self).tokens@.len() - old(self).index, 2int,
    {
        let ghost t = kinds(self.tokens@);
        let ghost p0 = self.index as int;
        let mut left = match self.parse_primary() {
            Ok(e) => e,
            Err(e) => {
                return Err(e);
            },
        };
        loop
            invariant
                self.tokens == old(self).tokens,
                t == kinds(self.tokens@),
                p0 == old(self).index,
                p0 < self.index <= self.tokens@.len(),
                comparison(t, p0) == comparison_rest(t, self.index as int, left@),
            decreases self.tokens@.len() - self.index,
        {
            let op = match self.peek_comparison_op() {
                Some(op) => op,
                None => {
                    return Ok(left);
                },
            };
            self.consume();
            let right = match self.parse_primary() {
                Ok(e) => e,
                Err(e) => {
                    return Err(e);
                },
            };
            left = Expression::BinaryOperation(Box::new(left), op, Box::new(right));
        }
    }

    fn parse_mult_div_expression(&mut self) -> (r: Result<Expression, AstError>)
        requires
            old(self).index <= old(self).tokens@.len(),
        ensures
            final(self).tokens == old(self).tokens,
            expr_result(r, final(self).index as int) == mult_div(
                kinds(old(self).tokens@),
                old(self).index as int,
            ),
            final(self).index <= final(self).tokens@.len(),
            r is Ok ==> old(self).index < final(self).index,
        decreases old(self).tokens@.len() - old(self).index, 4int,
    {
        let ghost t = kinds(self.tokens@);
        let ghost p0 = self.index as int;
        let mut left = match self.parse_comparision_expression() {
            Ok(e) => e,
            Err(e) => {
                return Err(e);
            },
        };
        loop
            invariant
                self.tokens == old(self).tokens,
                t == kinds(self.tokens@),
                p0 == old(self).index,
                p0 < self.index <= self.tokens@.len(),
                mult_div(t, p0) == mult_div_rest(t, self.index as int, left@),
            decreases self.tokens@.len() - self.index,
        {
            let op = match self.peek_mult_op() {
                Some(op) => op,
                None => {
                    return Ok(left);
                },
            };
            self.consume();
            let right = match self.parse_comparision_expression() {
                Ok(e) => e,
                Err(e) => {
                    return Err(e);
                },
            };
            left = Expression::BinaryOperation(Box::new(left), op, Box::new(right));
        }
    }

    fn parse_add_sub_expression(&mut self) -> (r: Result<Expression, AstError>)
        requires
            old(self).index <= old(self).tokens@.len(),
        ensures
            final(self).tokens == old(self).tokens,
            expr_result(r, final(self).index as int) == add_sub(
                kinds(old(self).tokens@),
                old(self).index as int,
            ),
            final(self).index <= final(self).tokens@.len(),
            r is Ok ==> old(self).index < final(self).index,
        decreases old(self).tokens@.len() - old(self).index, 6int,
    {
        let ghost t = kinds(self.tokens@);
        let ghost p0 = self.index as int;
        let mut left = match self.parse_mult_div_expression() {
            Ok(e) => e,
            Err(e) => {
                return Err(e);
            },
        };
        loop
            invariant
                self.tokens == old(self).tokens,
                t == kinds(self.tokens@),
                p0 == old(self).index,
                p0 < self.index <= self.tokens@.len(),
                add_sub(t, p0) == add_sub_rest(t, self.index as int, left@),
            decreases self.tokens@.len() - self.index,
        {
            let op = match self.peek_add_op() {
                Some(op) => op,
                None => {
                    return Ok(left);
                },
            };
            self.consume();
            let right = match self.parse_mult_div_expression() {
                Ok(e) => e,
                Err(e) => {
                    return Err(e);
                },
            };
            left = Expression::BinaryOperation(Box::new(left), op, Box::new(right));
        }
    }

    fn parse_expression(&mut self) -> (r: Result<Expression, AstError>)
        requires
            old(self).index <= old(self).tokens@.len(),
        ensures
            final(self).tokens == old(self).tokens,
            expr_result(r, final(self).index as int) == expression(
                kinds(old(self).tokens@),
                old(self).index as int,
            ),
            final(self).index <= final(self).tokens@.len(),
            r is Ok ==> old(self).index < final(self).index,
        decreases old(self).tokens@.len() - old(self).index, 7int,
    {
        self.parse_add_sub_expression()
    }

    fn parse_print_statement(&mut self) -> (r: Result<Statement, AstError>)
        requires
            old(self).index <= old(self).tokens@.len(),
        ensures
            final(self).tokens == old(self).tokens,
            stmt_result(r, final(self).index as int) == print_statement(
                kinds(old(self).tokens@),
                old(self).index as int,
            ),
            final(self).index <= final(self).tokens@.len(),
            r is Ok ==> old(self).index < final(self).index,
        decreases old(self).tokens@.len() - old(self).index, 8int,
    {
        let expression = match self.parse_expression() {
            Ok(e) => e,
            Err(e) => {
                return Err(e);
            },
        };
        match self.expect_bang() {
            Ok(()) => Ok(Statement::PrintStatement(expression)),
            Err(e) => Err(e),
        }
    }

    fn parse_assignment(&mut self, identifier: String) -> (r: Result<Statement, AstError>)
        requires
            old(self).index <= old(self).tokens@.len(),
        ensures
            final(self).tokens == old(self).tokens,
            stmt_result(r, final(self).index as int) == assignment(
                kinds(old(self).tokens@),
                old(self).index as int,
                identifier@,
            ),
            final(self).index <= final(self).tokens@.len(),
            r is Ok ==> old(self).index < final(self).index,
        decreases old(self).tokens@.len() - old(self).index, 8int,
    {
        if !self.at_equal() {
            return Err(AstError::BadAssignment(identifier));
        }
        self.consume();
        let expression = match self.parse_expression() {
            Ok(e) => e,
            Err(e) => {
                return Err(e);
            },
        };
        match self.expect_bang() {
            Ok(()) => Ok(Statement::Assignment(identifier, expression)),
            Err(e) => Err(e),
        }
    }

    fn parse_variable_declaration(&mut self) -> (r: Result<Statement, AstError>)
        requires
            old(self).index <= old(self).tokens@.len(),
        ensures
            final(self).tokens == old(self).tokens,
            stmt_result(r, final(self).index as int) == variable_declaration(
                kinds(old(self).tokens@),
                old(self).index as int,
            ),
            final(self).index <= final(self).tokens@.len(),
            r is Ok ==> old(self).index < final(self).index,
        decreases old(self).tokens@.len() - old(self).index, 8int,
    {
        let identifier = match self.peek() {
            Some(token) => match &token.token_type {
                TokenType::Identifier(name) => name.clone(),
                _ => {
                    return Err(AstError::BadVariableDeclaration);
                },
            },
            None => {
                return Err(AstError::BadVariableDeclaration);
            },
        };
        self.consume();
        if !self.at_equal() {
            return Err(AstError::BadVariableDeclaration);
        }
        self.consume();
        let expression = match self.parse_expression() {
            Ok(e) => e,
            Err(e) => {
                return Err(e);
            },
        };
        match self.expect_bang() {
            Ok(()) => Ok(Statement::VariableDeclaration(identifier, expression)),
            Err(e) => Err(e),
        }
    }

    /// The statements of a block, up to a closing brace or the end of the
    /// tokens, neither of which is read.
    fn parse_block(&mut self) -> (r: Result<Vec<Statement>, AstError>)
        requires
            old(self).index <= old(self).tokens@.len(),
        ensures
            final(self).tokens == old(self).tokens,
            block_result(r, final(self).index as int) == block(
                kinds(old(self).tokens@),
                old(self).index as int,
            ),
            final(self).index <= final(self).tokens@.len(),
            r is Ok ==> old(self).index <= final(self).index,
        decreases old(self).tokens@.len() - old(self).index, 10int,
    {
        let ghost t = kinds(self.tokens@);
        let ghost p0 = self.index as int;
        let mut statements: Vec<Statement> = Vec::new();
        loop
            invariant
                self.tokens == old(self).tokens,
                t == kinds(self.tokens@),
                p0 == old(self).index,
                p0 <= self.index <= self.tokens@.len(),
                block(t, p0) == prepend_block(
                    stmts_view(statements@),
                    block(t, self.index as int),
                ),
            decreases self.tokens@.len() - self.index,
        {
            let ghost before = stmts_view(statements@);
            if self.index >= self.tokens.len() || self.at_close_brace() {
                assert(before + Seq::<StmtView>::empty() == before);
                return Ok(statements);
            }
            let statement = match self.parse_statement() {
                Ok(s) => s,
                Err(e) => {
                    return Err(e);
                },
            };
            let ghost sv = statement@;
            proof {
                lemma_stmts_view_push(statements@, statement);
            }
            statements.push(statement);
            proof {
                if let Ok((ss, q)) = block(t, self.index as int) {
                    assert(before + (seq![sv] + ss) == before.push(sv) + ss);
                }
            }
        }
    }

    fn parse_loop(&mut self) -> (r: Result<Statement, AstError>)
        requires
            old(self).index <= old(self).tokens@.len(),
        ensures
            final(self).tokens == old(self).tokens,
            stmt_result(r, final(self).index as int) == loop_statement(
                kinds(old(self).tokens@),
                old(self).index as int,
            ),
            final(self).index <= final(self).tokens@.len(),
            r is Ok ==> old(self).index < final(self).index,
        decreases old(self).tokens@.len() - old(self).index, 8int,
    {
        if !self.at_open_brace() {
            return Err(AstError::BadLoop);
        }
        self.consume();
        let statements = match self.parse_block() {
            Ok(b) => b,
            Err(e) => {
                return Err(e);
            },
        };
        if !self.at_close_brace() {
            return Err(AstError::BadLoop);
        }
        self.consume();
        Ok(Statement::LoopStatement(statements))
    }

    fn parse_if_statement(&mut self) -> (r: Result<Statement, AstError>)
        requires
            old(self).index <= old(self).tokens@.len(),
        ensures
            final(self).tokens == old(self).tokens,
            stmt_result(r, final(self).index as int) == if_statement(
                kinds(old(self).tokens@),
                old(self).index as int,
            ),
            final(self).index <= final(self).tokens@.len(),
            r is Ok ==> old(self).index < final(self).index,
        decreases old(self).tokens@.len() - old(self).index, 8int,
    {
        if !self.at_open_paren() {
            return Err(AstError::BadIfStatement);
        }
        self.consume();
        let condition = match self.parse_expression() {
            Ok(e) => e,
            Err(e) => {
                return Err(e);
            },
        };
        if !self.at_close_paren() {
            return Err(AstError::BadIfStatement);
        }
        self.consume();
        if !self.at_open_brace() {
            return Err(AstError::BadIfStatement);
        }
        self.consume();
        let statements = match self.parse_block() {
            Ok(b) => b,
            Err(e) => {
                return Err(e);
            },
        };
        if !self.at_close_brace() {
            return Err(AstError::BadIfStatement);
        }
        self.consume();
        Ok(Statement::IfStatement(condition, statements))
    }

    fn parse_statement(&mut self) -> (r: Result<Statement, AstError>)
        requires
            old(self).index < old(self).tokens@.len(),
        ensures
            final(self).tokens == old(self).tokens,
            stmt_result(r, final(self).index as int) == statement(
                kinds(old(self).tokens@),
                old(self).index as int,
            ),
            final(self).index <= final(self).tokens@.len(),
            r is Ok ==> old(self).index < final(self).index,
        decreases old(self).tokens@.len() - old(self).index, 9int,
    {
        let next_token_type = self.tokens[self.index].token_type.duplicate();
        self.consume();
        match next_token_type {
            TokenType::Break => match self.expect_bang() {
                Ok(()) => Ok(Statement::BreakStatement),
                Err(e) => Err(e),
            },
            TokenType::Identifier(identifier) => self.parse_assignment(identifier),
            TokenType::Loop => self.parse_loop(),
            TokenType::Var => self.parse_variable_declaration(),
            TokenType::If => self.parse_if_statement(),
            TokenType::Print => self.parse_print_statement(),
            other => Err(AstError::UnexpectedStatement(other)),
        }
    }

    /// Parses the tokens from the cursor to the end as a program.
    pub fn parse(&mut self) -> (r: Result<Ast, AstError>)
        requires
            old(self).wf(),
        ensures
            final(self).wf(),
            final(self).token_kinds() == old(self).token_kinds(),
            parse_result(r) == program(old(self).token_kinds(), old(self).cursor()),
            r is Ok ==> final(self).cursor() == final(self).token_kinds().len(),
    {
        let ghost t = kinds(self.tokens@);
        let ghost p0 = self.index as int;
        let mut statements: Vec<Statement> = Vec::new();
        while self.index < self.tokens.len()
            invariant
                self.tokens == old(self).tokens,
                t == kinds(self.tokens@),
                p0 == old(self).index,
                p0 <= self.index <= self.tokens@.len(),
                program(t, p0) == prepend_program(
                    stmts_view(statements@),
                    program(t, self.index as int),
                ),
            decreases self.tokens@.len() - self.index,
        {
            let ghost before = stmts_view(statements@);
            let statement = match self.parse_statement() {
                Ok(s) => s,
                Err(e) => {
                    return Err(e);
                },
            };
            let ghost sv = statement@;
            proof {
                lemma_stmts_view_push(statements@, statement);
            }
            statements.push(statement);
            proof {
                if let Ok(ss) = program(t, self.index as int) {
                    assert(before + (seq![sv] + ss) == before.push(sv) + ss);
                }
            }
        }
        assert(stmts_view(statements@) + Seq::<StmtView>::empty() == stmts_view(statements@));
        Ok(Ast { statements })
    }
}

// ---------------------------------------------------------------------------
// Printing the tree.
/// The name of an operator.
pub open spec fn op_name(op: BinaryOperator) -> Seq<char> {
    match op {
        BinaryOperator::Add => "Add"@,
        BinaryOperator::Subtract => "Subtract"@,
        BinaryOperator::Multiply => "Multiply"@,
        BinaryOperator::Divide => "Divide"@,
        BinaryOperator::Equal => "Equal"@,
        BinaryOperator::NotEqual => "NotEqual"@,
    }
}

/// The `Debug` form of an expression.
pub open spec fn expr_debug(e: ExprView) -> Seq<char>
    decreases e,
{
    match e {
        ExprView::Integer(v) => "Integer("@ + int_text(v as int) + ")"@,
        ExprView::Variable(n) => "Variable("@ + quoted(n) + ")"@,
        ExprView::BinaryOperation(l, op, r) => "BinaryOperation("@ + expr_debug(*l) + ", "@
            + op_name(op) + ", "@ + expr_debug(*r) + ")"@,
        ExprView::ParenthesisExpression(i) => "ParenthesisExpression("@ + expr_debug(*i) + ")"@,
    }
}

/// The `Debug` form of a statement that holds no block.
pub open spec fn simple_debug(s: StmtView) -> Seq<char> {
    match s {
        StmtView::VariableDeclaration(n, e) => "VariableDeclaration("@ + quoted(n) + ", "@
            + expr_debug(e) + ")"@,
        StmtView::Assignment(n, e) => "Assignment("@ + quoted(n) + ", "@ + expr_debug(e) + ")"@,
        StmtView::BreakStatement => "BreakStatement"@,
        StmtView::PrintStatement(e) => "PrintStatement("@ + expr_debug(e) + ")"@,
        _ => Seq::empty(),
    }
}

/// One line: the indentation, the text, and a line break.
pub open spec fn line(indent: Seq<char>, text: Seq<char>) -> Seq<char> {
    indent + text + "\n"@
}

/// The printed lines of a statement at an indentation: a block's statements
/// go four spaces further in.
pub open spec fn stmt_lines(s: StmtView, indent: Seq<char>) -> Seq<char>
    decreases s,
{
    match s {
        StmtView::LoopStatement(body) => line(indent, "Loop:"@) + block_lines(
            body,
            indent + "    "@,
        ),
        StmtView::IfStatement(c, body) => line(indent, "If:"@) + line(
            indent + "    "@,
            expr_debug(c),
        ) + line(indent, "Then:"@) + block_lines(body, indent + "    "@),
        _ => line(indent, simple_debug(s)),
    }
}

/// The printed lines of a sequence of statements, in order.
pub open spec fn block_lines(ss: Seq<StmtView>, indent: Seq<char>) -> Seq<char>
    decreases ss,
{
    if ss.len() == 0 {
        Seq::empty()
    } else {
        block_lines(ss.drop_last(), indent) + stmt_lines(ss.last(), indent)
    }
}

/// The message of a parse error.
pub open spec fn ast_message(e: AstErrView) -> Seq<char> {
    match e {
        AstErrView::UnexpectedStatement(k) => "Unexpected statement, began with token type "@
            + kind_debug(k),
        AstErrView::BadAssignment(n) => "Bad assignment for "@ + n,
        AstErrView::BadLoop => "Bad loop"@,
        AstErrView::BadVariableDeclaration => "Bad variable declaration"@,
        AstErrView::ExpectedBang => "Expected bang"@,
        AstErrView::BadIfStatement => "Bad if statement"@,
        AstErrView::UnexpectedToken(k) => "Unexpected token of type "@ + kind_debug(k),
        AstErrView::ExpectedClosingParenthesis => "Expected closing parenthesis"@,
        AstErrView::ExpectedExpression => "Expected an expression"@,
    }
}

impl AstError {
    /// The error as a sentence for the user.
    pub fn to_message(&self) -> (r: String)
        ensures
            r@ == ast_message(self@),
    {
        let mut out = String::new();
        match self {
            AstError::UnexpectedStatement(token_type) => {
                push_text(&mut out, "Unexpected statement, began with token type ");
                token_type.push_debug(&mut out);
            },
            AstError::BadAssignment(identifier) => {
                push_text(&mut out, "Bad assignment for ");
                push_text(&mut out, identifier.as_str());
            },
            AstError::BadLoop => push_text(&mut out, "Bad loop"),
            AstError::BadVariableDeclaration => push_text(&mut out, "Bad variable declaration"),
            AstError::ExpectedBang => push_text(&mut out, "Expected bang"),
            AstError::BadIfStatement => push_text(&mut out, "Bad if statement"),
            AstError::UnexpectedToken(token_type) => {
                push_text(&mut out, "Unexpected token of type ");
                token_type.push_debug(&mut out);
            },
            AstError::ExpectedClosingParenthesis => push_text(
                &mut out,
                "Expected closing parenthesis",
            ),
            AstError::ExpectedExpression => push_text(&mut out, "Expected an expression"),
        }
        out
    }
}

fn push_op_name(out: &mut String, op: BinaryOperator)
    ensures
        final(out)@ == old(out)@ + op_name(op),
{
    match op {
        BinaryOperator::Add => push_text(out, "Add"),
        BinaryOperator::Subtract => push_text(out, "Subtract"),
        BinaryOperator::Multiply => push_text(out, "Multiply"),
        BinaryOperator::Divide => push_text(out, "Divide"),
        BinaryOperator::Equal => push_text(out, "Equal"),
        BinaryOperator::NotEqual => push_text(out, "NotEqual"),
    }
}

impl Expression {
    /// Appends the `Debug` form of the expression.
    pub fn push_debug(&self, out: &mut String)
        ensures
            final(out)@ == old(out)@ + expr_debug(self@),
        decreases self,
    {
        let ghost start = out@;
        match self {
            Expression::Integer(v) => {
                push_text(out, "Integer(");
                push_int(out, *v);
                push_text(out, ")");
            },
            Expression::Variable(n) => {
                push_text(out, "Variable(");
                push_quoted(out, n.as_str());
                push_text(out, ")");
            },
            Expression::BinaryOperation(l, op, r) => {
                push_text(out, "BinaryOperation(");
                l.push_debug(out);
                push_text(out, ", ");
                push_op_name(out, *op);
                push_text(out, ", ");
                r.push_debug(out);
                push_text(out, ")");
            },
            Expression::ParenthesisExpression(i) => {
                push_text(out, "ParenthesisExpression(");
                i.push_debug(out);
                push_text(out, ")");
            },
        }
        assert(out@ == start + expr_debug(self@));
    }
}

impl Ast {
    /// The tree, printed one statement to a line; the statements of a loop or
    /// a conditional stand four spaces further in, under a `Loop:` line or
    /// under `If:`, the condition and `Then:`.
    pub fn print(&self) -> (r: String)
        ensures
            r@ == block_lines(self@, Seq::empty()),
    {
        let mut out = String::new();
        proof {
            reveal_strlit("");
        }
        Self::print_block(&mut out, &self.statements, "");
        assert(""@ == Seq::<char>::empty());
        assert(Seq::<char>::empty() + block_lines(self@, Seq::empty()) == block_lines(
            self@,
            Seq::empty(),
        ));
        out
    }

    fn print_block(out: &mut String, statements: &Vec<Statement>, indentation: &str)
        ensures
            final(out)@ == old(out)@ + block_lines(stmts_view(statements@), indentation@),
        decreases statements@, 0int,
    {
        let ghost start = out@;
        let ghost all = stmts_view(statements@);
        let mut i: usize = 0;
        proof {
            lemma_stmts_view_index(statements@, 0);
            assert(all.subrange(0, 0) == Seq::<StmtView>::empty());
            assert(start + Seq::<char>::empty() == start);
        }
        while i < statements.len()
            invariant
                0 <= i <= statements@.len(),
                all == stmts_view(statements@),
                all.len() == statements@.len(),
                out@ == start + block_lines(all.subrange(0, i as int), indentation@),
            decreases statements.len() - i,
        {
            proof {
                lemma_stmts_view_index(statements@, i as int);
                assert(decreases_to!(statements@ => statements@[i as int]));
                assert(all.subrange(0, i + 1).drop_last() == all.subrange(0, i as int));
            }
            Self::print_statement(out, &statements[i], indentation);
            assert(out@ == start + block_lines(all.subrange(0, i + 1), indentation@));
            i = i + 1;
        }
        assert(all.subrange(0, all.len() as int) == all);
    }

    fn print_statement(out: &mut String, statement: &Statement, indentation: &str)
        ensures
            final(out)@ == old(out)@ + stmt_lines(statement@, indentation@),
        decreases statement,
    {
        let ghost start = out@;
        match statement {
            Statement::LoopStatement(statements) => {
                Self::print_indented(out, "Loop:", indentation);
                let mut inner = String::new();
                push_text(&mut inner, indentation);
                push_text(&mut inner, "    ");
                Self::print_block(out, statements, inner.as_str());
            },
            Statement::IfStatement(expression, statements) => {
                Self::print_indented(out, "If:", indentation);
                let mut inner = String::new();
                push_text(&mut inner, indentation);
                push_text(&mut inner, "    ");
                let mut condition = String::new();
                expression.push_debug(&mut condition);
                Self::print_indented(out, condition.as_str(), inner.as_str());
                Self::print_indented(out, "Then:", indentation);
                Self::print_block(out, statements, inner.as_str());
            },
            _ => {
                let mut text = String::new();
                Self::simple_statement_debug(&mut text, statement);
                Self::print_indented(out, text.as_str(), indentation);
            },
        }
        assert(out@ == start + stmt_lines(statement@, indentation@));
    }

    /// Appends the `Debug` form of a statement that holds no block.
    fn simple_statement_debug(out: &mut String, statement: &Statement)
        ensures
            final(out)@ == old(out)@ + simple_debug(statement@),
    {
        let ghost start = out@;
        match statement {
            Statement::VariableDeclaration(name, value) => {
                push_text(out, "VariableDeclaration(");
                push_quoted(out, name.as_str());
                push_text(out, ", ");
                value.push_debug(out);
                push_text(out, ")");
            },
            Statement::Assignment(name, value) => {
                push_text(out, "Assignment(");
                push_quoted(out, name.as_str());
                push_text(out, ", ");
                value.push_debug(out);
                push_text(out, ")");
            },
            Statement::BreakStatement => push_text(out, "BreakStatement"),
            Statement::PrintStatement(value) => {
                push_text(out, "PrintStatement(");
                value.push_debug(out);
                push_text(out, ")");
            },
            _ => {
                assert(start + Seq::<char>::empty() == start);
            },
        }
        assert(out@ == start + simple_debug(statement@));
    }

    fn print_indented(out: &mut String, to_print: &str, indentation: &str)
        ensures
            final(out)@ == old(out)@ + line(indentation@, to_print@),
    {
        push_text(out, indentation);
        push_text(out, to_print);
        push_text(out, "\n");
        assert(old(out)@ + indentation@ + to_print@ + "\n"@ == old(out)@ + line(
            indentation@,
            to_print@,
        ));
    }
}

} // verus!
