use viering_compiler::ast::{Ast, AstParser};
use viering_compiler::lexer::Lexer;
use viering_compiler::semantic::{Semantic, SemanticError};

fn tree(code: &str) -> Ast {
    let tokens = Lexer::new(code.to_string()).tokenize().unwrap();
    AstParser::new(tokens).parse().unwrap()
}

fn check(code: &str) -> Result<(), SemanticError> {
    Semantic::new(tree(code)).check()
}

#[test]
fn check_redeclaration_in_same_scope_fails() {
    assert!(matches!(
        check("var x = 5! var x = 6!"),
        Err(SemanticError::VariableAlreadyDeclared(n)) if n == "x"
    ));
}

#[test]
fn check_declaration_in_nested_if_succeeds() {
    assert!(check("var x = 5! if (1 == 1) { var x = 6! }").is_ok());
    assert!(check("var x = 5! if (x == 5) { var x = 6! x = x + 1! }").is_ok());
    assert!(check("var x = 5! loop { var x = 6! break! } x = 7!").is_ok());
}

#[test]
fn check_redeclaration_in_same_nested_block_fails() {
    assert!(matches!(
        check("var x = 5! if (1 == 1) { var x = 6! var x = 7! }"),
        Err(SemanticError::VariableAlreadyDeclared(n)) if n == "x"
    ));
    assert!(matches!(
        check("loop { var y = 1! if (y == 1) { var y = 2! } var y = 3! }"),
        Err(SemanticError::VariableAlreadyDeclared(n)) if n == "y"
    ));
}

#[test]
fn check_outer_names_visible_in_nested_blocks() {
    assert!(check("var x = 5! if (1 == 1) { var y = x! loop { y = x + y! break! } }").is_ok());
}

#[test]
fn check_block_names_may_be_declared_again_after_it() {
    assert!(check("if (1 == 1) { var y = 1! } var y = 2!").is_ok());
    assert!(check("loop { var y = 1! break! } loop { var y = 2! break! }").is_ok());
}

#[test]
fn check_break_outside_loop_fails() {
    assert!(matches!(check("break!"), Err(SemanticError::BreakOutsideLoop)));
    assert!(matches!(
        check("if (1 == 1) { break! }"),
        Err(SemanticError::BreakOutsideLoop)
    ));
}

#[test]
fn check_break_in_if_inside_loop_succeeds() {
    assert!(check("loop { if (1 == 1) { break! } }").is_ok());
}

#[test]
fn check_unknown_variables() {
    assert!(matches!(
        check("y = 1!"),
        Err(SemanticError::UnknownVariable(n)) if n == "y"
    ));
    assert!(matches!(
        check("var a = b + 1!"),
        Err(SemanticError::UnknownVariable(n)) if n == "b"
    ));
    assert!(matches!(
        check("print z!"),
        Err(SemanticError::UnknownVariable(n)) if n == "z"
    ));
    assert!(matches!(
        check("var x = x!"),
        Err(SemanticError::UnknownVariable(n)) if n == "x"
    ));
}

#[test]
fn check_names_do_not_leave_their_block() {
    assert!(matches!(
        check("if (1 == 1) { var y = 1! } print y!"),
        Err(SemanticError::UnknownVariable(n)) if n == "y"
    ));
    assert!(matches!(
        check("loop { var y = 1! break! } y = 2!"),
        Err(SemanticError::UnknownVariable(n)) if n == "y"
    ));
}

#[test]
fn check_reports_first_error_in_source_order() {
    assert!(matches!(
        check("print q! break!"),
        Err(SemanticError::UnknownVariable(n)) if n == "q"
    ));
}

#[test]
fn check_twice_gives_same_result() {
    let checker = Semantic::new(tree("var x = 1! x = x + 1!"));
    assert!(checker.check().is_ok());
    assert!(checker.check().is_ok());
    let failing = Semantic::new(tree("var x = 1! var x = 2!"));
    let first = format!("{:?}", failing.check());
    let second = format!("{:?}", failing.check());
    assert_eq!(first, second);
}

#[test]
fn checker_error_messages() {
    assert_eq!(
        check("break!").unwrap_err().to_message(),
        "Used break outside of for loop"
    );
    assert_eq!(check("y = 1!").unwrap_err().to_message(), "Unknown variable y");
    assert_eq!(
        check("var k = 1! var k = 1!").unwrap_err().to_message(),
        "Variable k already declared"
    );
}
