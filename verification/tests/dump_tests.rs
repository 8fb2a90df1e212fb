use tiny_lang::ast::ast_new_expression;
use tiny_lang::ast::ast_new_file;
use tiny_lang::ast::ast_new_statement;
use tiny_lang::ast::AstType;
use tiny_lang::lex::lex_new;
use tiny_lang::lex::Token;
use tiny_lang::parser::parser_new;
use tiny_lang::parser::Parser;

fn parse(source: &str) -> Parser {
    let mut parser = parser_new("test.tl".to_string());
    let lines: Vec<String> = source.lines().map(|line| line.to_string()).collect();
    parser.init(&lines);
    parser.run();
    parser
}

fn expression_dump(source: &str) -> String {
    let mut parser = parser_new("test.tl".to_string());
    parser.init(&vec![source.to_string()]);
    let expr = parser.build_expression(Token::SemiColon);
    assert!(expr.is_complete());
    expr.print()
}

#[test]
fn dump_of_the_round_trip_scenario() {
    let parser = parse("func f is var x : i32 := 5; end");
    let file = parser.get_file();
    assert!(file.is_printable());
    assert_eq!(
        file.print(),
        "FILE test.tl\n\nfunc f is\n  VarDec I32 x (ID(x) := 5)\nend\n"
    );
}

#[test]
fn dump_of_an_empty_file() {
    assert_eq!(ast_new_file("none.tl".to_string()).print(), "FILE none.tl\n\n");
}

#[test]
fn dump_of_expressions() {
    assert_eq!(expression_dump("a + 1;"), "(ID(a) + 1)");
    assert_eq!(expression_dump("a - b - c;"), "(ID(a) - (ID(b) - ID(c)))");
    assert_eq!(expression_dump("(a, b);"), "{ID(a), ID(b)}");
    assert_eq!(expression_dump("\"s\";"), "\"s\"");
    assert_eq!(expression_dump("'c';"), "''c''");
    assert_eq!(expression_dump("true;"), "??-> BoolLiteral(true)");
    assert_eq!(expression_dump("false;"), "??-> BoolLiteral(false)");
    assert_eq!(expression_dump(";"), "??-> None");
    assert_eq!(expression_dump("f(1);"), "??-> Call");
    assert_eq!(expression_dump("a && b;"), "??-> LGAnd");
    assert_eq!(expression_dump("a <= b;"), "(ID(a) <= ID(b))");
}

#[test]
fn dump_of_statements_with_blocks() {
    let parser = parse(
        "func f is\nwhile a do\n one;\nend\nif b then\n two;\nelif c then\n three;\nelse\n four;\nend\nend",
    );
    let file = parser.get_file();
    assert!(file.is_printable());
    assert_eq!(
        file.print(),
        concat_lines(&[
            "FILE test.tl",
            "",
            "func f is",
            "  While Void  ID(a)",
            "        CallStmt Void one ??-> None",
            "  end",
            "  If Void  ID(b)",
            "        CallStmt Void two ??-> None",
            "  Elif Void  ID(c)",
            "        CallStmt Void three ??-> None",
            "  Else Void  ??-> None",
            "        CallStmt Void four ??-> None",
            "  end",
            "end",
        ])
    );
}

fn concat_lines(lines: &[&str]) -> String {
    let mut text = String::new();
    for line in lines {
        text.push_str(line);
        text.push('\n');
    }
    text
}

#[test]
fn dump_of_one_statement_at_an_indentation() {
    let mut stmt = ast_new_statement(AstType::Return);
    let mut value = ast_new_expression(AstType::IntLiteral);
    value.set_int(7);
    stmt.set_expression(value);
    assert!(stmt.is_printable());
    assert_eq!(stmt.print(0), "Return Void  7\n");
    assert_eq!(stmt.print(3), "   Return Void  7\n");
    assert_eq!(stmt.print(-2), "Return Void  7\n");
}

#[test]
fn a_statement_with_an_operator_without_operands_is_not_printable() {
    let mut stmt = ast_new_statement(AstType::Return);
    stmt.set_expression(ast_new_expression(AstType::Add));
    assert!(!stmt.is_printable());
    let mut block = ast_new_statement(AstType::Block);
    block.add_statement(ast_new_statement(AstType::Break));
    assert!(block.is_printable());
    block.add_statement(stmt);
    assert!(!block.is_printable());
    assert!(!ast_new_statement(AstType::If).is_printable());
}

#[test]
fn debug_of_a_scanner_shows_name_and_text() {
    let mut scanner = lex_new("demo.tl".to_string());
    scanner.init(&vec!["  func f is ".to_string(), "end".to_string()]);
    assert_eq!(scanner.debug(), "FILE: demo.tl\nContents: \nfunc f is end \n\n");
}

#[test]
fn debug_of_a_parser_shows_text_and_dump() {
    let parser = parse("func f is end");
    assert_eq!(
        parser.debug(),
        "FILE: test.tl\nContents: \nfunc f is end \n\n=================\nFILE test.tl\n\nfunc f is\nend\n"
    );
}
