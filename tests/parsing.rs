use viering_compiler::ast::{Ast, AstError, AstParser, BinaryOperator, Expression, Statement};
use viering_compiler::lexer::{Lexer, TokenType};

fn parse(code: &str) -> Result<Ast, AstError> {
    let tokens = Lexer::new(code.to_string()).tokenize().unwrap();
    AstParser::new(tokens).parse()
}

fn expression_of(code: &str) -> String {
    let ast = parse(&format!("print {}!", code)).unwrap();
    match &ast.statements[0] {
        Statement::PrintStatement(e) => format!("{:?}", e),
        other => panic!("not a print statement: {:?}", other),
    }
}

#[test]
fn parse_multiplication_binds_tighter_than_addition() {
    assert_eq!(
        expression_of("2 + 3 * 4"),
        "BinaryOperation(Integer(2), Add, BinaryOperation(Integer(3), Multiply, Integer(4)))"
    );
}

#[test]
fn parse_levels_are_left_associative() {
    assert_eq!(
        expression_of("1 - 2 - 3"),
        "BinaryOperation(BinaryOperation(Integer(1), Subtract, Integer(2)), Subtract, Integer(3))"
    );
    assert_eq!(
        expression_of("8 / 4 * 2"),
        "BinaryOperation(BinaryOperation(Integer(8), Divide, Integer(4)), Multiply, Integer(2))"
    );
}

#[test]
fn parse_equality_binds_tighter_than_multiplication() {
    assert_eq!(
        expression_of("2 * 3 == 6"),
        "BinaryOperation(Integer(2), Multiply, BinaryOperation(Integer(3), Equal, Integer(6)))"
    );
    assert_eq!(
        expression_of("a ;= b"),
        "BinaryOperation(Variable(\"a\"), NotEqual, Variable(\"b\"))"
    );
}

#[test]
fn parse_parentheses() {
    assert_eq!(
        expression_of("(2 + 3) * 4"),
        "BinaryOperation(ParenthesisExpression(BinaryOperation(Integer(2), Add, Integer(3))), Multiply, Integer(4))"
    );
}

#[test]
fn parse_counts_top_level_statements() {
    let ast = parse("var a = 1! print a! loop { break! } if (a == 1) { a = 2! }").unwrap();
    assert_eq!(ast.statements.len(), 4);
    assert!(parse("").unwrap().statements.is_empty());
}

#[test]
fn parse_missing_identifier_is_bad_variable_declaration() {
    let tokens = Lexer::new("var = 5!".to_string()).tokenize();
    assert!(tokens.is_ok());
    assert!(matches!(
        AstParser::new(tokens.unwrap()).parse(),
        Err(AstError::BadVariableDeclaration)
    ));
    assert!(matches!(parse("var x 5!"), Err(AstError::BadVariableDeclaration)));
    assert!(matches!(parse("var"), Err(AstError::BadVariableDeclaration)));
}

#[test]
fn parse_errors_of_each_kind() {
    assert!(matches!(parse("x 5!"), Err(AstError::BadAssignment(n)) if n == "x"));
    assert!(matches!(parse("loop ( }"), Err(AstError::BadLoop)));
    assert!(matches!(parse("loop { print 1!"), Err(AstError::BadLoop)));
    assert!(matches!(parse("if 1 == 1 { }"), Err(AstError::BadIfStatement)));
    assert!(matches!(parse("if (1 == 1) print 1!"), Err(AstError::BadIfStatement)));
    assert!(matches!(parse("if (1 == 1) { print 1!"), Err(AstError::BadIfStatement)));
    assert!(matches!(parse("print 1"), Err(AstError::ExpectedBang)));
    assert!(matches!(parse("break"), Err(AstError::ExpectedBang)));
    assert!(matches!(parse("print (1 !"), Err(AstError::ExpectedClosingParenthesis)));
    assert!(matches!(parse("print (1"), Err(AstError::ExpectedClosingParenthesis)));
    assert!(matches!(parse("print"), Err(AstError::ExpectedExpression)));
    assert!(matches!(
        parse("print +!"),
        Err(AstError::UnexpectedToken(TokenType::Plus))
    ));
    assert!(matches!(
        parse("+ 1!"),
        Err(AstError::UnexpectedStatement(TokenType::Plus))
    ));
}

#[test]
fn parse_end_to_end_shape() {
    let ast = parse(
        "var a = 0! var b = 1! loop { if(b == 5){ break! } a = b! b = a + 1! print(a)! }",
    )
    .unwrap();
    assert_eq!(ast.statements.len(), 3);
    assert!(matches!(ast.statements[0], Statement::VariableDeclaration(_, _)));
    assert!(matches!(ast.statements[1], Statement::VariableDeclaration(_, _)));
    match &ast.statements[2] {
        Statement::LoopStatement(body) => {
            assert_eq!(body.len(), 4);
            match &body[0] {
                Statement::IfStatement(_, inner) => {
                    assert!(matches!(inner[..], [Statement::BreakStatement]));
                }
                other => panic!("expected a conditional: {:?}", other),
            }
            assert!(matches!(body[1], Statement::Assignment(_, _)));
            assert!(matches!(body[2], Statement::Assignment(_, _)));
            assert!(matches!(body[3], Statement::PrintStatement(_)));
        }
        other => panic!("expected a loop: {:?}", other),
    }
}

#[test]
fn print_tree() {
    let ast = parse("var a = 1! loop { if (a == 1) { break! } a = a + 1! }").unwrap();
    assert_eq!(
        ast.print(),
        "VariableDeclaration(\"a\", Integer(1))\n\
         Loop:\n    \
         If:\n        \
         BinaryOperation(Variable(\"a\"), Equal, Integer(1))\n    \
         Then:\n        \
         BreakStatement\n    \
         Assignment(\"a\", BinaryOperation(Variable(\"a\"), Add, Integer(1)))\n"
    );
}

#[test]
fn parse_error_messages() {
    assert_eq!(
        parse("+ 1!").unwrap_err().to_message(),
        "Unexpected statement, began with token type Plus"
    );
    assert_eq!(
        parse("print x = 1!").unwrap_err().to_message(),
        "Expected bang"
    );
    assert_eq!(
        parse("print var!").unwrap_err().to_message(),
        "Unexpected token of type Var"
    );
    assert_eq!(parse("x!").unwrap_err().to_message(), "Bad assignment for x");
}

#[test]
fn duplicate_keeps_the_tree() {
    let ast = parse("var a = (1 + 2) * 3! loop { print a! break! }").unwrap();
    let copy = ast.duplicate();
    assert_eq!(format!("{:?}", copy), format!("{:?}", ast));
    assert_eq!(format!("{:?}", ast.clone()), format!("{:?}", ast));
    let e = Expression::BinaryOperation(
        Box::new(Expression::Integer(1)),
        BinaryOperator::Add,
        Box::new(Expression::Variable("z".to_string())),
    );
    assert_eq!(format!("{:?}", e.duplicate()), format!("{:?}", e));
    assert_eq!(format!("{:?}", e.clone()), format!("{:?}", e));
}
