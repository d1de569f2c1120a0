//! The code generator: a tree-driven walk that emits a C program.
use vstd::prelude::*;

use crate::ast::{
    lemma_stmts_view_index, stmts_view, Ast, BinaryOperator, ExprView, Expression, Statement,
    StmtView,
};
use crate::text::{int_text, push_int, push_text};

verus! {

/// The C spelling of an operator.
pub open spec fn op_text(op: BinaryOperator) -> Seq<char> {
    match op {
        BinaryOperator::Add => "+"@,
        BinaryOperator::Subtract => "-"@,
        BinaryOperator::Multiply => "*"@,
        BinaryOperator::Divide => "/"@,
        BinaryOperator::Equal => "=="@,
        BinaryOperator::NotEqual => "!="@,
    }
}

/// The C text of an expression: the tree's own shape, with no parentheses
/// but those that the source wrote.
pub open spec fn expr_text(e: ExprView) -> Seq<char>
    decreases e,
{
    match e {
        ExprView::Integer(v) => int_text(v as int),
        ExprView::Variable(n) => n,
        ExprView::ParenthesisExpression(i) => "("@ + expr_text(*i) + ")"@,
        ExprView::BinaryOperation(l, op, r) => expr_text(*l) + " "@ + op_text(op) + " "@
            + expr_text(*r),
    }
}

/// The C text of a statement, one line for each simple statement.
pub open spec fn stmt_text(s: StmtView) -> Seq<char>
    decreases s,
{
    match s {
        StmtView::VariableDeclaration(n, e) => "int "@ + n + " = "@ + expr_text(e) + ";\n"@,
        StmtView::Assignment(n, e) => n + " = "@ + expr_text(e) + ";\n"@,
        StmtView::LoopStatement(body) => "while(1){\n"@ + block_text(body) + "}\n"@,
        StmtView::IfStatement(c, body) => "if("@ + expr_text(c) + "){\n"@ + block_text(body)
            + "}\n"@,
        StmtView::PrintStatement(e) => "printf(\"%d\\n\", "@ + expr_text(e) + ");\n"@,
        StmtView::BreakStatement => "break;\n"@,
    }
}

/// The C text of a sequence of statements, one after the other.
pub open spec fn block_text(ss: Seq<StmtView>) -> Seq<char>
    decreases ss,
{
    if ss.len() == 0 {
        Seq::empty()
    } else {
        block_text(ss.drop_last()) + stmt_text(ss.last())
    }
}

/// A whole C program: the includes, `main`, the body, and `return 0;`.
pub open spec fn program_text(ss: Seq<StmtView>) -> Seq<char> {
    "#include <stdlib.h>\n#include <stdio.h>\nint main(){\n"@ + block_text(ss) + "return 0;\n}"@
}

/// Wraps a generated body in the program's prologue and epilogue.
pub fn template(code: &str) -> (r: String)
    ensures
        r@ == "#include <stdlib.h>\n#include <stdio.h>\nint main(){\n"@ + code@
            + "return 0;\n}"@,
{
    let head = "#include <stdlib.h>\n#include <stdio.h>\nint main(){\n";
    let tail = "return 0;\n}";
    let mut result = String::new();
    push_text(&mut result, head);
    push_text(&mut result, code);
    push_text(&mut result, tail);
    result
}

pub struct Transpiler {}

impl Transpiler {
    pub fn new() -> Self {
        Self {  }
    }

    /// The C program for a tree.
    pub fn transpile(&self, ast: Ast) -> (r: String)
        ensures
            r@ == program_text(ast@),
    {
        let code = Self::compile_block(&ast.statements);
        template(code.as_str())
    }

    fn compile_expression(expression: &Expression) -> (r: String)
        ensures
            r@ == expr_text(expression@),
        decreases expression,
    {
        let mut code = String::new();
        match expression {
            Expression::Integer(value) => {
                push_int(&mut code, *value);
            },
            Expression::Variable(name) => {
                push_text(&mut code, name.as_str());
            },
            Expression::ParenthesisExpression(inner) => {
                push_text(&mut code, "(");
                push_text(&mut code, Self::compile_expression(inner).as_str());
                push_text(&mut code, ")");
            },
            Expression::BinaryOperation(left, operation, right) => {
                push_text(&mut code, Self::compile_expression(left).as_str());
                push_text(&mut code, " ");
                push_text(
                    &mut code,
                    match operation {
                        BinaryOperator::Add => "+",
                        BinaryOperator::Subtract => "-",
                        BinaryOperator::Multiply => "*",
                        BinaryOperator::Divide => "/",
                        BinaryOperator::Equal => "==",
                        BinaryOperator::NotEqual => "!=",
                    },
                );
                push_text(&mut code, " ");
                push_text(&mut code, Self::compile_expression(right).as_str());
            },
        }
        code
    }

    fn compile_block(statements: &Vec<Statement>) -> (r: String)
        ensures
            r@ == block_text(stmts_view(statements@)),
        decreases statements@,
    {
        let ghost all = stmts_view(statements@);
        let mut code = String::new();
        let mut i: usize = 0;
        proof {
            lemma_stmts_view_index(statements@, 0);
            assert(all.subrange(0, 0) == Seq::<StmtView>::empty());
        }
        while i < statements.len()
            invariant
                0 <= i <= statements@.len(),
                all == stmts_view(statements@),
                all.len() == statements@.len(),
                code@ == block_text(all.subrange(0, i as int)),
            decreases statements.len() - i,
        {
            proof {
                lemma_stmts_view_index(statements@, i as int);
                assert(decreases_to!(statements@ => statements@[i as int]));
                assert(all.subrange(0, i + 1).drop_last() == all.subrange(0, i as int));
            }
            let part = Self::compile_statement(&statements[i]);
            push_text(&mut code, part.as_str());
            i = i + 1;
        }
        assert(all.subrange(0, all.len() as int) == all);
        code
    }

    fn compile_statement(statement: &Statement) -> (r: String)
        ensures
            r@ == stmt_text(statement@),
        decreases statement,
    {
        let mut code = String::new();
        match statement {
            Statement::VariableDeclaration(name, value) => {
                push_text(&mut code, "int ");
                push_text(&mut code, name.as_str());
                push_text(&mut code, " = ");
                push_text(&mut code, Self::compile_expression(value).as_str());
                push_text(&mut code, ";\n");
            },
            Statement::Assignment(name, expression) => {
                push_text(&mut code, name.as_str());
                push_text(&mut code, " = ");
                push_text(&mut code, Self::compile_expression(expression).as_str());
                push_text(&mut code, ";\n");
            },
            Statement::LoopStatement(statements) => {
                push_text(&mut code, "while(1){\n");
                push_text(&mut code, Self::compile_block(statements).as_str());
                push_text(&mut code, "}\n");
            },
            Statement::IfStatement(condition, statements) => {
                push_text(&mut code, "if(");
                push_text(&mut code, Self::compile_expression(condition).as_str());
                push_text(&mut code, "){\n");
                push_text(&mut code, Self::compile_block(statements).as_str());
                push_text(&mut code, "}\n");
            },
            Statement::PrintStatement(expression) => {
                push_text(&mut code, "printf(\"%d\\n\", ");
                push_text(&mut code, Self::compile_expression(expression).as_str());
                push_text(&mut code, ");\n");
            },
            Statement::BreakStatement => {
                push_text(&mut code, "break;\n");
            },
        }
        code
    }
}

} // verus!
