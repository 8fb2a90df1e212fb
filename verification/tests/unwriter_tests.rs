use tiny_lang::ast::ast_new_expression;
use tiny_lang::ast::ast_new_file;
use tiny_lang::ast::ast_new_function;
use tiny_lang::ast::ast_new_statement;
use tiny_lang::ast::AstExpression;
use tiny_lang::ast::AstFile;
use tiny_lang::ast::AstType;
use tiny_lang::lex::Token;
use tiny_lang::parser::parser_new;
use tiny_lang::unwriter::is_complete;
use tiny_lang::unwriter::unwrite;
use tiny_lang::unwriter::unwrite_checked;
use tiny_lang::unwriter::unwrite_expression;
use tiny_lang::unwriter::unwrite_statement;
use tiny_lang::unwriter::write_decimal;

fn parse(source: &str) -> AstFile {
    let mut parser = parser_new("test.tl".to_string());
    let lines: Vec<String> = source.lines().map(|line| line.to_string()).collect();
    parser.init(&lines);
    parser.run();
    assert_eq!(parser.get_diagnostics().len(), 0);
    parser.get_file()
}

fn rewritten(source: &str) -> String {
    let file = parse(source);
    assert!(is_complete(&file));
    unwrite(file)
}

fn expression_text(source: &str) -> String {
    let mut parser = parser_new("test.tl".to_string());
    parser.init(&vec![source.to_string()]);
    let expr = parser.build_expression(Token::SemiColon);
    assert!(expr.is_complete());
    let mut out = String::new();
    unwrite_expression(&mut out, &expr, false);
    out
}

fn leaf(kind: AstType, name: &str) -> AstExpression {
    let mut expr = ast_new_expression(kind);
    expr.set_name(name.to_string());
    expr
}

#[test]
fn round_trip_scenario_is_written_back() {
    let text = rewritten("func f is var x : i32 := 5; end");
    assert_eq!(text, "func f is\n    var x : i32 := 5;\nend\n");
    // What was written parses to a tree that is written the same way.
    assert_eq!(rewritten(&text), text);
}

#[test]
fn an_empty_file_writes_nothing() {
    assert_eq!(unwrite(ast_new_file("empty".to_string())), "");
    assert_eq!(rewritten(""), "");
}

#[test]
fn functions_are_written_in_order() {
    assert_eq!(
        rewritten("func a is end func b is end"),
        "func a is\nend\nfunc b is\nend\n"
    );
}

#[test]
fn parameters_and_return_type_are_not_written() {
    assert_eq!(
        rewritten("func add(a : i32, b : i32) -> i32 is end"),
        "func add is\nend\n"
    );
}

#[test]
fn declarations_with_every_type() {
    assert_eq!(
        rewritten(
            "func f is\nvar a : i8 := 1;\nvar b : u8 := 2;\nvar c : i16 := 3;\nvar d : u16 := 4;\nvar e : i32 := 5;\nvar g : u32 := 6;\nvar h : i64 := 7;\nvar i : u64 := 8;\nvar j : string := \"s\";\nvar k : char := 'c';\nvar l : bool := true;\nend"
        ),
        "func f is\n    var a : i8 := 1;\n    var b : u8 := 2;\n    var c : i16 := 3;\n    var d : u16 := 4;\n    var e : i32 := 5;\n    var g : u32 := 6;\n    var h : i64 := 7;\n    var i : u64 := 8;\n    var j : string := \"s\";\n    var k : char := 'c';\n    var l : bool := true;\nend\n"
    );
}

#[test]
fn an_array_declaration_is_written_with_its_size() {
    assert_eq!(
        rewritten("func f is var v : u8[4 * n]; end"),
        "func f is\n    var v : u8[4 * n];\nend\n"
    );
}

#[test]
fn a_call_statement_is_written_with_its_arguments() {
    assert_eq!(
        rewritten("func f is print(a, 2, \"x\"); done; end"),
        "func f is\n    print(a, 2, \"x\");\n    done();\nend\n"
    );
}

#[test]
fn a_loop_is_written_with_its_block_one_step_in() {
    assert_eq!(
        rewritten("func f is while i < 10 do step(i); while j do inner(); end end end"),
        "func f is\n    while i < 10 do\n        step(i);\n        while j do\n            inner();\n        end\n    end\nend\n"
    );
}

#[test]
fn a_chain_is_written_with_one_end() {
    let text = rewritten(
        "func f is if a = 1 then one(); elif b then two(); elif c then three(); else four(); end after(); end",
    );
    assert_eq!(
        text,
        "func f is\n    if a = 1 then\n        one();\n    elif b then\n        two();\n    elif c then\n        three();\n    else\n        four();\n    end\n    after();\nend\n"
    );
    assert_eq!(rewritten(&text), text);
}

#[test]
fn statements_that_the_unwriter_does_not_know_leave_an_empty_line() {
    assert_eq!(
        rewritten("func f is x := 1; return x; break; continue; struct p : Point; end"),
        "func f is\n    \n    \n    \n    \n    \nend\n"
    );
}

#[test]
fn every_written_operator() {
    for symbol in ["+", "-", "*", "/", "%", "&", "|", "^", "=", "!=", ">", ">=", "<", "<="] {
        assert_eq!(
            expression_text(&format!("a {} 1;", symbol)),
            format!("a {} 1", symbol)
        );
    }
}

#[test]
fn operators_are_written_without_brackets() {
    assert_eq!(expression_text("(a - b) - c;"), "a - b - c");
    assert_eq!(expression_text("a - b - c;"), "a - b - c");
}

#[test]
fn expressions_that_the_unwriter_does_not_know_are_left_out() {
    assert_eq!(expression_text("f(1);"), "");
    assert_eq!(expression_text("v[1];"), "");
    assert_eq!(expression_text("s.m;"), "");
    assert_eq!(expression_text("a && b;"), "");
    assert_eq!(expression_text(";"), "");
    assert_eq!(expression_text("1 + f(2);"), "1 + ");
}

#[test]
fn literals_are_written_as_they_are_read() {
    assert_eq!(expression_text("0;"), "0");
    assert_eq!(expression_text("18446744073709551615;"), "18446744073709551615");
    assert_eq!(expression_text("true;"), "true");
    assert_eq!(expression_text("false;"), "false");
    assert_eq!(expression_text("'x';"), "'x'");
    assert_eq!(expression_text("\"two words\";"), "\"two words\"");
}

#[test]
fn strings_and_characters_are_written_with_escapes() {
    let mut text = ast_new_expression(AstType::StringLiteral);
    text.set_string("a\"b\\c\n".to_string());
    let mut out = String::new();
    unwrite_expression(&mut out, &text, false);
    assert_eq!(out, "\"a\\\"b\\\\c\\n\"");
    let mut letter = ast_new_expression(AstType::CharLiteral);
    letter.set_char('\'');
    let mut out = String::new();
    unwrite_expression(&mut out, &letter, false);
    assert_eq!(out, "'\\''");
}

#[test]
fn a_list_is_written_with_commas() {
    assert_eq!(expression_text("(a, 2, c);"), "a, 2, c");
    assert_eq!(expression_text("(a, b);"), "a, b");
}

#[test]
fn an_assignment_can_leave_out_its_target() {
    let mut assign = ast_new_expression(AstType::Assign);
    assign.set_rval(leaf(AstType::Id, "value"));
    assign.set_lval(leaf(AstType::Id, "target"));
    assert!(assign.is_complete());
    let mut out = String::new();
    unwrite_expression(&mut out, &assign, false);
    assert_eq!(out, "target := value");
    let mut out = String::from("kept: ");
    unwrite_expression(&mut out, &assign, true);
    assert_eq!(out, "kept: value");
}

#[test]
fn decimal_numbers() {
    for (value, text) in [
        (0u64, "0"),
        (9, "9"),
        (10, "10"),
        (123, "123"),
        (1000, "1000"),
        (u64::MAX, "18446744073709551615"),
    ] {
        let mut out = String::new();
        write_decimal(&mut out, value);
        assert_eq!(out, text);
        assert_eq!(out, format!("{}", value));
    }
}

#[test]
fn an_operator_without_operands_is_not_complete() {
    let mut add = ast_new_expression(AstType::Add);
    assert!(!add.is_complete());
    add.set_rval(leaf(AstType::Id, "b"));
    assert!(!add.is_complete());
    add.set_lval(leaf(AstType::Id, "a"));
    assert!(add.is_complete());
    let assign = ast_new_expression(AstType::Assign);
    assert!(!assign.is_complete());
    let mut list = ast_new_expression(AstType::ExprList);
    list.add_list_item(leaf(AstType::Id, "x"));
    assert!(list.is_complete());
    list.add_list_item(ast_new_expression(AstType::Mul));
    assert!(!list.is_complete());
    assert!(ast_new_expression(AstType::LGAnd).is_complete());
    assert!(ast_new_expression(AstType::Call).is_complete());
}

#[test]
fn a_file_with_a_loop_that_owns_no_block_is_not_complete() {
    let mut block = ast_new_statement(AstType::Block);
    block.add_statement(ast_new_statement(AstType::While));
    let mut func = ast_new_function("f".to_string());
    func.set_block(block);
    let mut file = ast_new_file("test".to_string());
    file.add_function(ast_new_function("ok".to_string()));
    assert!(is_complete(&file));
    file.add_function(func);
    assert!(!is_complete(&file));
}

#[test]
fn a_nested_assignment_is_not_complete() {
    let mut parser = parser_new("test.tl".to_string());
    parser.init(&vec!["func f is var x : i32 := a := 1; end".to_string()]);
    parser.run();
    let file = parser.get_file();
    assert!(!is_complete(&file));
    assert!(!file.is_printable());
}

#[test]
fn unwrite_checked_tests_before_it_writes() {
    assert_eq!(
        unwrite_checked(parse("func f is end")),
        Some("func f is\nend\n".to_string())
    );
    let mut parser = parser_new("test.tl".to_string());
    parser.init(&vec!["func f is var x : i32 := a := 1; end".to_string()]);
    parser.run();
    assert_eq!(unwrite_checked(parser.get_file()), None);
}

#[test]
fn a_chain_writes_one_end_and_writes_it_last() {
    let file = parse(
        "func f is if a then one(); two(); elif b then three(); else four(); five(); end end",
    );
    let chain = &file.get_functions()[0].get_block().get_statements()[0];
    let mut text = String::new();
    unwrite_statement(&mut text, chain, "  ");
    let lines: Vec<&str> = text.lines().collect();
    let ends = lines.iter().filter(|line| line.trim() == "end").count();
    assert_eq!(ends, 1);
    assert_eq!(*lines.last().unwrap(), "  end");
    assert_eq!(
        lines,
        vec![
            "  if a then",
            "      one();",
            "      two();",
            "  elif b then",
            "      three();",
            "  else",
            "      four();",
            "      five();",
            "  end",
        ]
    );
}
