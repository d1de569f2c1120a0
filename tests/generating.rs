use viering_compiler::ast::{Ast, AstParser, Expression, Statement};
use viering_compiler::lexer::Lexer;
use viering_compiler::semantic::Semantic;
use viering_compiler::transpiler::{template, Transpiler};

const HEAD: &str = "#include <stdlib.h>\n#include <stdio.h>\nint main(){\n";
const TAIL: &str = "return 0;\n}";

fn tree(code: &str) -> Ast {
    let tokens = Lexer::new(code.to_string()).tokenize().unwrap();
    AstParser::new(tokens).parse().unwrap()
}

#[test]
fn generate_template_wraps_body() {
    assert_eq!(template("x;\n"), format!("{}x;\n{}", HEAD, TAIL));
    assert_eq!(template(""), format!("{}{}", HEAD, TAIL));
}

#[test]
fn generate_precedence_example() {
    let code = Transpiler::new().transpile(tree("var x = 2 + 3 * 4!"));
    assert_eq!(code, format!("{}int x = 2 + 3 * 4;\n{}", HEAD, TAIL));
}

#[test]
fn generate_keeps_source_parentheses() {
    let code = Transpiler::new().transpile(tree("var x = (2 + 3) * 4! x = x ;= 1!"));
    assert_eq!(
        code,
        format!("{}int x = (2 + 3) * 4;\nx = x != 1;\n{}", HEAD, TAIL)
    );
}

#[test]
fn generate_end_to_end_program() {
    let ast = tree(
        "var a = 0! var b = 1! loop { if(b == 5){ break! } a = b! b = a + 1! print(a)! }",
    );
    assert!(Semantic::new(ast.duplicate()).check().is_ok());
    let code = Transpiler::new().transpile(ast);
    assert_eq!(
        code,
        format!(
            "{}int a = 0;\nint b = 1;\nwhile(1){{\nif(b == 5){{\nbreak;\n}}\na = b;\nb = a + 1;\nprintf(\"%d\\n\", (a));\n}}\n{}",
            HEAD, TAIL
        )
    );
}

#[test]
fn generate_integer_literals_in_decimal() {
    let ast = Ast {
        statements: vec![
            Statement::PrintStatement(Expression::Integer(-5)),
            Statement::PrintStatement(Expression::Integer(i64::MIN)),
            Statement::PrintStatement(Expression::Integer(0)),
            Statement::PrintStatement(Expression::Integer(1234567890)),
        ],
    };
    assert_eq!(
        Transpiler::new().transpile(ast),
        format!(
            "{}printf(\"%d\\n\", -5);\nprintf(\"%d\\n\", -9223372036854775808);\nprintf(\"%d\\n\", 0);\nprintf(\"%d\\n\", 1234567890);\n{}",
            HEAD, TAIL
        )
    );
}

#[test]
fn generate_empty_program() {
    assert_eq!(
        Transpiler::new().transpile(Ast { statements: Vec::new() }),
        format!("{}{}", HEAD, TAIL)
    );
}
