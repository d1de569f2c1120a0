//! The scope and flow checker: names are declared before use and once per
//! block, and `break` stands inside a loop.
use vstd::prelude::*;

use crate::text::push_text;
use crate::ast::{
    lemma_stmts_view_index, stmts_view, Ast, ExprView, Expression, Statement, StmtView,
};

verus! {

#[derive(Debug)]
pub enum SemanticError {
    VariableAlreadyDeclared(String),
    UnknownVariable(String),
    BreakOutsideLoop,
}

/// The model of a checker error.
pub enum SemErrView {
    VariableAlreadyDeclared(Seq<char>),
    UnknownVariable(Seq<char>),
    BreakOutsideLoop,
}

impl View for SemanticError {
    type V = SemErrView;

    open spec fn view(&self) -> SemErrView {
        match self {
            SemanticError::VariableAlreadyDeclared(n) => SemErrView::VariableAlreadyDeclared(n@),
            SemanticError::UnknownVariable(n) => SemErrView::UnknownVariable(n@),
            SemanticError::BreakOutsideLoop => SemErrView::BreakOutsideLoop,
        }
    }
}

/// The message of a checker error.
pub open spec fn sem_message(e: SemErrView) -> Seq<char> {
    match e {
        SemErrView::BreakOutsideLoop => "Used break outside of for loop"@,
        SemErrView::UnknownVariable(n) => "Unknown variable "@ + n,
        SemErrView::VariableAlreadyDeclared(n) => "Variable "@ + n + " already declared"@,
    }
}

impl SemanticError {
    /// The error as a sentence for the user.
    pub fn to_message(&self) -> (r: String)
        ensures
            r@ == sem_message(self@),
    {
        let mut out = String::new();
        match self {
            SemanticError::BreakOutsideLoop => {
                push_text(&mut out, "Used break outside of for loop");
            },
            SemanticError::UnknownVariable(name) => {
                push_text(&mut out, "Unknown variable ");
                push_text(&mut out, name.as_str());
            },
            SemanticError::VariableAlreadyDeclared(name) => {
                push_text(&mut out, "Variable ");
                push_text(&mut out, name.as_str());
                push_text(&mut out, " already declared");
            },
        }
        out
    }
}

/// Every variable of `e` is among `vars`; otherwise the first one, from the
/// left, that is not.
pub open spec fn check_expr(e: ExprView, vars: Seq<Seq<char>>) -> Result<(), SemErrView>
    decreases e,
{
    match e {
        ExprView::Integer(_) => Ok(()),
        ExprView::Variable(n) => if vars.contains(n) {
            Ok(())
        } else {
            Err(SemErrView::UnknownVariable(n))
        },
        ExprView::BinaryOperation(l, _, r) => match check_expr(*l, vars) {
            Ok(()) => check_expr(*r, vars),
            Err(err) => Err(err),
        },
        ExprView::ParenthesisExpression(i) => check_expr(*i, vars),
    }
}

/// The names in scope at a point of a block, and those among them that the
/// block itself declared so far.
pub type Scope = (Seq<Seq<char>>, Seq<Seq<char>>);

/// One statement, with the names `vars` in scope of which `declared` were
/// declared in the current block: the scope after it, or the first error. A
/// name may be declared once per block; a block's body starts with no names
/// declared in it, so a name declared outside may be declared again inside.
pub open spec fn check_stmt(
    s: StmtView,
    vars: Seq<Seq<char>>,
    declared: Seq<Seq<char>>,
    in_loop: bool,
) -> Result<Scope, SemErrView>
    decreases s,
{
    match s {
        StmtView::VariableDeclaration(n, e) => if declared.contains(n) {
            Err(SemErrView::VariableAlreadyDeclared(n))
        } else {
            match check_expr(e, vars) {
                Ok(()) => Ok((vars.push(n), declared.push(n))),
                Err(err) => Err(err),
            }
        },
        StmtView::Assignment(n, e) => if !vars.contains(n) {
            Err(SemErrView::UnknownVariable(n))
        } else {
            match check_expr(e, vars) {
                Ok(()) => Ok((vars, declared)),
                Err(err) => Err(err),
            }
        },
        StmtView::IfStatement(c, body) => match check_expr(c, vars) {
            Ok(()) => match check_block(body, vars, Seq::empty(), in_loop) {
                Ok(()) => Ok((vars, declared)),
                Err(err) => Err(err),
            },
            Err(err) => Err(err),
        },
        StmtView::LoopStatement(body) => match check_block(body, vars, Seq::empty(), true) {
            Ok(()) => Ok((vars, declared)),
            Err(err) => Err(err),
        },
        StmtView::BreakStatement => if in_loop {
            Ok((vars, declared))
        } else {
            Err(SemErrView::BreakOutsideLoop)
        },
        StmtView::PrintStatement(e) => match check_expr(e, vars) {
            Ok(()) => Ok((vars, declared)),
            Err(err) => Err(err),
        },
    }
}

/// A sequence of statements in order, each seeing the names that the ones
/// before it declared; names declared here are not seen outside.
pub open spec fn check_block(
    ss: Seq<StmtView>,
    vars: Seq<Seq<char>>,
    declared: Seq<Seq<char>>,
    in_loop: bool,
) -> Result<(), SemErrView>
    decreases ss,
{
    if ss.len() == 0 {
        Ok(())
    } else {
        match check_stmt(ss[0], vars, declared, in_loop) {
            Ok((v, d)) => check_block(ss.drop_first(), v, d, in_loop),
            Err(err) => Err(err),
        }
    }
}

/// A whole program: no names in scope, outside any loop.
pub open spec fn check_program(ss: Seq<StmtView>) -> Result<(), SemErrView> {
    check_block(ss, Seq::empty(), Seq::empty(), false)
}

pub open spec fn sem_result(r: Result<(), SemanticError>) -> Result<(), SemErrView> {
    match r {
        Ok(()) => Ok(()),
        Err(err) => Err(err@),
    }
}

/// The names of a list of declared variables.
pub open spec fn names(v: Seq<String>) -> Seq<Seq<char>> {
    v.map_values(|s: String| s@)
}

/// Checking is a function of the tree alone: checking the same tree twice,
/// or two trees with the same model, gives the same verdict.
pub proof fn lemma_check_repeatable(a: Seq<StmtView>, b: Seq<StmtView>)
    requires
        a == b,
    ensures
        check_program(a) == check_program(b),
{
}

fn contains_name(variables: &Vec<String>, name: &String) -> (r: bool)
    ensures
        r == names(variables@).contains(name@),
{
    let mut i: usize = 0;
    while i < variables.len()
        invariant
            0 <= i <= variables@.len(),
            forall|j: int| 0 <= j < i ==> variables@[j]@ != name@,
        decreases variables.len() - i,
    {
        if variables[i] == *name {
            assert(names(variables@)[i as int] == name@);
            return true;
        }
        i = i + 1;
    }
    proof {
        if names(variables@).contains(name@) {
            let j = choose|j: int|
                0 <= j < names(variables@).len() && names(variables@)[j] == name@;
            assert(variables@[j]@ == name@);
        }
    }
    false
}

fn copy_names(variables: &Vec<String>) -> (r: Vec<String>)
    ensures
        names(r@) == names(variables@),
{
    let mut r: Vec<String> = Vec::new();
    let mut i: usize = 0;
    while i < variables.len()
        invariant
            0 <= i <= variables@.len(),
            r@.len() == i,
            forall|j: int| 0 <= j < i ==> #[trigger] r@[j]@ == variables@[j]@,
        decreases variables.len() - i,
    {
        r.push(variables[i].clone());
        i = i + 1;
    }
    assert(names(r@) =~= names(variables@));
    r
}

pub struct Semantic {
    ast: Ast,
}

impl Semantic {
    /// The model of the tree to check.
    pub closed spec fn tree(&self) -> Seq<StmtView> {
        self.ast@
    }

    pub fn new(ast: Ast) -> (r: Self)
        ensures
            r.tree() == ast@,
    {
        Semantic { ast }
    }

    /// Checks the whole tree and returns the first error met, in source order.
    pub fn check(&self) -> (r: Result<(), SemanticError>)
        ensures
            sem_result(r) == check_program(self.tree()),
    {
        let variables: Vec<String> = Vec::new();
        assert(names(variables@) == Seq::<Seq<char>>::empty());
        Self::check_statement_block_scope(&self.ast.statements, &variables, false)
    }

    fn check_expression_scope(expression: &Expression, variables: &Vec<String>) -> (r: Result<
        (),
        SemanticError,
    >)
        ensures
            sem_result(r) == check_expr(expression@, names(variables@)),
        decreases expression,
    {
        match expression {
            Expression::Variable(name) => {
                if !contains_name(variables, name) {
                    return Err(SemanticError::UnknownVariable(name.clone()));
                }
                Ok(())
            },
            Expression::ParenthesisExpression(inner) => Self::check_expression_scope(
                inner,
                variables,
            ),
            Expression::BinaryOperation(left, _, right) => {
                match Self::check_expression_scope(left, variables) {
                    Ok(()) => {},
                    Err(e) => {
                        return Err(e);
                    },
                }
                Self::check_expression_scope(right, variables)
            },
            Expression::Integer(_) => Ok(()),
        }
    }

    fn check_statement_block_scope(
        statements: &Vec<Statement>,
        outer: &Vec<String>,
        inside_loop: bool,
    ) -> (r: Result<(), SemanticError>)
        ensures
            sem_result(r) == check_block(
                stmts_view(statements@),
                names(outer@),
                Seq::empty(),
                inside_loop,
            ),
        decreases statements@,
    {
        let ghost all = stmts_view(statements@);
        let mut variables = copy_names(outer);
        let mut declared: Vec<String> = Vec::new();
        let mut i: usize = 0;
        proof {
            assert(names(declared@) =~= Seq::<Seq<char>>::empty());
            lemma_stmts_view_index(statements@, 0);
            assert(all.subrange(0, all.len() as int) == all);
        }
        while i < statements.len()
            invariant
                0 <= i <= statements@.len(),
                all == stmts_view(statements@),
                check_block(all, names(outer@), Seq::empty(), inside_loop) == check_block(
                    all.subrange(i as int, all.len() as int),
                    names(variables@),
                    names(declared@),
                    inside_loop,
                ),
            decreases statements.len() - i,
        {
            proof {
                lemma_stmts_view_index(statements@, i as int);
                let rest = all.subrange(i as int, all.len() as int);
                assert(rest[0] == all[i as int]);
                assert(rest.drop_first() == all.subrange(i + 1, all.len() as int));
            }
            let statement = &statements[i];
            match statement {
                Statement::IfStatement(condition, body) => {
                    match Self::check_expression_scope(condition, &variables) {
                        Ok(()) => {},
                        Err(e) => {
                            assert(check_stmt(
                                all[i as int],
                                names(variables@),
                                names(declared@),
                                inside_loop,
                            ) == Err::<Scope, SemErrView>(e@));
                            return Err(e);
                        },
                    }
                    proof {
                        assert(decreases_to!(statements@ => body@));
                    }
                    match Self::check_statement_block_scope(body, &variables, inside_loop) {
                        Ok(()) => {},
                        Err(e) => {
                            return Err(e);
                        },
                    }
                },
                Statement::LoopStatement(body) => {
                    proof {
                        assert(decreases_to!(statements@ => body@));
                    }
                    match Self::check_statement_block_scope(body, &variables, true) {
                        Ok(()) => {},
                        Err(e) => {
                            return Err(e);
                        },
                    }
                },
                Statement::VariableDeclaration(name, value) => {
                    if contains_name(&declared, name) {
                        return Err(SemanticError::VariableAlreadyDeclared(name.clone()));
                    }
                    match Self::check_expression_scope(value, &variables) {
                        Ok(()) => {},
                        Err(e) => {
                            return Err(e);
                        },
                    }
                    let ghost before = variables@;
                    let ghost before_declared = declared@;
                    variables.push(name.clone());
                    declared.push(name.clone());
                    assert(names(variables@) =~= names(before).push(name@));
                    assert(names(declared@) =~= names(before_declared).push(name@));
                },
                Statement::Assignment(name, value) => {
                    if !contains_name(&variables, name) {
                        return Err(SemanticError::UnknownVariable(name.clone()));
                    }
                    match Self::check_expression_scope(value, &variables) {
                        Ok(()) => {},
                        Err(e) => {
                            return Err(e);
                        },
                    }
                },
                Statement::BreakStatement => {
                    if !inside_loop {
                        return Err(SemanticError::BreakOutsideLoop);
                    }
                },
                Statement::PrintStatement(value) => {
                    match Self::check_expression_scope(value, &variables) {
                        Ok(()) => {},
                        Err(e) => {
                            return Err(e);
                        },
                    }
                },
            }
            i = i + 1;
        }
        Ok(())
    }
}

} // verus!
