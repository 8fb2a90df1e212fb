use tiny_lang::ast::ast_new_expression;
use tiny_lang::ast::ast_new_function;
use tiny_lang::ast::AstExpression;
use tiny_lang::ast::AstStatement;
use tiny_lang::ast::AstType;
use tiny_lang::ast::DataType;
use tiny_lang::diagnostic::ErrorKind;
use tiny_lang::diagnostic::Problem;
use tiny_lang::lex::Token;
use tiny_lang::parser::parser_new;
use tiny_lang::parser::Parser;

fn parser_for(source: &str) -> Parser {
    let mut parser = parser_new("test.tl".to_string());
    let lines: Vec<String> = source.lines().map(|line| line.to_string()).collect();
    parser.init(&lines);
    parser
}

fn parse(source: &str) -> Parser {
    let mut parser = parser_for(source);
    parser.run();
    parser
}

/// An expression as one line: the tag, then what the node carries.
fn show(expr: &AstExpression) -> String {
    let mut parts: Vec<String> = Vec::new();
    match expr.get_type() {
        AstType::Id | AstType::Call | AstType::ArrayAcc | AstType::StructAcc => {
            parts.push(expr.get_name())
        }
        AstType::StringLiteral => parts.push(format!("{:?}", expr.get_string())),
        AstType::IntLiteral => parts.push(format!("{}", expr.get_int())),
        AstType::CharLiteral => parts.push(format!("{:?}", expr.get_char())),
        _ => {}
    }
    match expr.get_arg_count() {
        0 => {}
        1 => parts.push(show(expr.get_arg())),
        2 => {
            parts.push(show(expr.get_lval()));
            parts.push(show(expr.get_rval()));
        }
        _ => return "more than two operands".to_string(),
    }
    if expr.get_type() == AstType::ExprList {
        let items: Vec<String> = expr.get_list().iter().map(show).collect();
        parts.push(format!("[{}]", items.join(", ")));
    }
    if parts.is_empty() {
        format!("{:?}", expr.get_type())
    } else {
        format!("{:?}({})", expr.get_type(), parts.join(", "))
    }
}

/// The expression that the builder makes of a text, up to `;`.
fn expression(source: &str) -> String {
    let mut parser = parser_for(source);
    let expr = parser.build_expression(Token::SemiColon);
    show(&expr)
}

fn problems(parser: &Parser) -> Vec<Problem> {
    parser.get_diagnostics().iter().map(|d| d.get_problem()).collect()
}

fn body(parser: &Parser, function: usize) -> Vec<AstStatement> {
    let file = parser.get_file();
    file.get_functions()[function].get_block().get_statements().clone()
}

#[test]
fn round_trip_scenario_builds_one_function() {
    let parser = parse("func f is var x : i32 := 5; end");
    let file = parser.get_file();
    assert_eq!(parser.get_diagnostics().len(), 0);
    let functions = file.get_functions();
    assert_eq!(functions.len(), 1);
    let func = &functions[0];
    assert_eq!(func.get_name(), "f");
    assert_eq!(func.get_data_type(), DataType::Void);
    assert_eq!(func.get_args().len(), 0);
    assert_eq!(func.get_consts().len(), 0);
    let block = func.get_block();
    assert_eq!(block.get_type(), AstType::Block);
    assert_eq!(block.get_statements().len(), 1);
    let stmt = &block.get_statements()[0];
    assert_eq!(stmt.get_type(), AstType::VarDec);
    assert_eq!(stmt.get_name(), "x");
    assert_eq!(stmt.get_data_type(), DataType::I32);
    let init = stmt.get_expression();
    assert_eq!(init.get_type(), AstType::Assign);
    assert_eq!(init.get_arg_count(), 2);
    assert_eq!(init.get_lval().get_type(), AstType::Id);
    assert_eq!(init.get_lval().get_name(), "x");
    assert_eq!(init.get_rval().get_type(), AstType::IntLiteral);
    assert_eq!(init.get_rval().get_int(), 5);
}

#[test]
fn missing_function_name_is_reported_and_parsing_goes_on() {
    let parser = parse("func is end");
    assert_eq!(parser.get_file().get_functions().len(), 0);
    assert_eq!(
        problems(&parser),
        vec![Problem::ExpectedFunctionName, Problem::UnknownGlobalToken]
    );
    assert_eq!(*parser.get_diagnostics()[0].get_token(), Token::Is);
    assert_eq!(*parser.get_diagnostics()[1].get_token(), Token::End);
    assert_eq!(parser.get_diagnostics()[0].get_kind(), ErrorKind::MalformedFunctionHeader);
    assert_eq!(parser.get_diagnostics()[1].get_kind(), ErrorKind::UnexpectedTopLevel);
}

#[test]
fn a_function_after_a_malformed_one_is_still_parsed() {
    let parser = parse("func is end func g is end");
    let file = parser.get_file();
    assert_eq!(file.get_functions().len(), 1);
    assert_eq!(file.get_functions()[0].get_name(), "g");
    assert_eq!(
        problems(&parser),
        vec![Problem::ExpectedFunctionName, Problem::UnknownGlobalToken]
    );
}

#[test]
fn functions_are_kept_in_declaration_order() {
    let parser = parse("func a is end\nfunc b is end\nfunc c is end");
    let file = parser.get_file();
    let names: Vec<String> = file.get_functions().iter().map(|f| f.get_name()).collect();
    assert_eq!(names, vec!["a", "b", "c"]);
    assert_eq!(problems(&parser), vec![]);
}

#[test]
fn a_token_other_than_func_at_top_level_is_reported() {
    let parser = parse("struct x func f is end ;");
    assert_eq!(parser.get_file().get_functions().len(), 1);
    assert_eq!(
        problems(&parser),
        vec![
            Problem::UnknownGlobalToken,
            Problem::UnknownGlobalToken,
            Problem::UnknownGlobalToken
        ]
    );
    assert_eq!(*parser.get_diagnostics()[0].get_token(), Token::Struct);
    assert_eq!(*parser.get_diagnostics()[1].get_token(), Token::Id("x".to_string()));
    assert_eq!(*parser.get_diagnostics()[2].get_token(), Token::SemiColon);
}

#[test]
fn parameters_and_return_type() {
    let parser = parse("func add(a : i32, b : u8) -> i64 is end");
    assert_eq!(problems(&parser), vec![]);
    let file = parser.get_file();
    let func = &file.get_functions()[0];
    assert_eq!(func.get_name(), "add");
    assert_eq!(func.get_data_type(), DataType::I64);
    let args = func.get_args();
    assert_eq!(args.len(), 2);
    assert_eq!(args[0].get_name(), "a");
    assert_eq!(args[0].get_data_type(), DataType::I32);
    assert_eq!(args[0].get_expression().get_type(), AstType::Empty);
    assert_eq!(args[1].get_name(), "b");
    assert_eq!(args[1].get_data_type(), DataType::U8);
}

#[test]
fn return_type_without_parameters() {
    let parser = parse("func f -> bool is end");
    assert_eq!(problems(&parser), vec![]);
    assert_eq!(parser.get_file().get_functions()[0].get_data_type(), DataType::Bool);
}

#[test]
fn an_empty_parameter_list_is_malformed() {
    let parser = parse("func f() is end");
    assert_eq!(parser.get_file().get_functions().len(), 0);
    let found = problems(&parser);
    assert_eq!(found[0], Problem::UnknownDataType);
    assert_eq!(found[1], Problem::ExpectedArgumentColon);
    assert_eq!(*parser.get_diagnostics()[1].get_token(), Token::Is);
}

#[test]
fn a_parameter_without_a_name_is_malformed() {
    let parser = parse("func f(5 : i32) is end");
    assert_eq!(parser.get_file().get_functions().len(), 0);
    assert_eq!(problems(&parser)[0], Problem::ExpectedArgumentName);
    assert_eq!(*parser.get_diagnostics()[0].get_token(), Token::IntL(5));
}

#[test]
fn a_parameter_list_that_does_not_end_is_malformed() {
    let parser = parse("func f(a : i32 b : i32) is end");
    assert_eq!(parser.get_file().get_functions().len(), 0);
    assert_eq!(problems(&parser)[0], Problem::ExpectedArgumentEnd);
    assert_eq!(*parser.get_diagnostics()[0].get_token(), Token::Id("b".to_string()));
}

#[test]
fn a_header_without_is_is_malformed() {
    let parser = parse("func f var x : i32 := 1; end");
    assert_eq!(parser.get_file().get_functions().len(), 0);
    assert_eq!(problems(&parser)[0], Problem::ExpectedIs);
    assert_eq!(*parser.get_diagnostics()[0].get_token(), Token::Var);
}

#[test]
fn an_unknown_return_type_is_void_and_reported() {
    let parser = parse("func f -> banana is end");
    assert_eq!(problems(&parser), vec![Problem::UnknownDataType]);
    assert_eq!(parser.get_diagnostics()[0].get_kind(), ErrorKind::UnknownDataType);
    assert_eq!(parser.get_file().get_functions()[0].get_data_type(), DataType::Void);
}

#[test]
fn every_data_type_keyword() {
    let names = ["i8", "u8", "i16", "u16", "i32", "u32", "i64", "u64", "string", "char", "bool"];
    let types = [
        DataType::I8,
        DataType::U8,
        DataType::I16,
        DataType::U16,
        DataType::I32,
        DataType::U32,
        DataType::I64,
        DataType::U64,
        DataType::String,
        DataType::Char,
        DataType::Bool,
    ];
    for (name, data_type) in names.iter().zip(types.iter()) {
        let mut parser = parser_for(name);
        assert_eq!(parser.build_data_type(), *data_type);
        assert_eq!(problems(&parser), vec![]);
    }
}

#[test]
fn operand_order_is_kept() {
    assert_eq!(expression("a - b;"), "Sub(Id(a), Id(b))");
    assert_eq!(expression("1 < 2;"), "Lt(IntLiteral(1), IntLiteral(2))");
    assert_eq!(expression("x && y;"), "LGAnd(Id(x), Id(y))");
}

#[test]
fn every_operator_token() {
    let symbols = [
        "+", "-", "*", "/", "%", "&", "|", "^", "=", "!=", ">", ">=", "<", "<=", "&&", "||",
    ];
    let tags = [
        "Add", "Sub", "Mul", "Div", "Mod", "And", "Or", "Xor", "Eq", "Ne", "Gt", "Ge", "Lt",
        "Le", "LGAnd", "LGOr",
    ];
    for (symbol, tag) in symbols.iter().zip(tags.iter()) {
        assert_eq!(
            expression(&format!("a {} b;", symbol)),
            format!("{}(Id(a), Id(b))", tag)
        );
    }
}

#[test]
fn operators_fold_from_the_right() {
    assert_eq!(expression("a - b - c;"), "Sub(Id(a), Sub(Id(b), Id(c)))");
    assert_eq!(expression("a * b + c;"), "Mul(Id(a), Add(Id(b), Id(c)))");
    assert_eq!(
        expression("1 + 2 * 3 - 4;"),
        "Add(IntLiteral(1), Mul(IntLiteral(2), Sub(IntLiteral(3), IntLiteral(4))))"
    );
}

#[test]
fn literals() {
    assert_eq!(expression("42;"), "IntLiteral(42)");
    assert_eq!(expression("\"hi\";"), "StringLiteral(\"hi\")");
    assert_eq!(expression("'c';"), "CharLiteral('c')");
    assert_eq!(expression("true;"), "BoolLiteral(true)");
    assert_eq!(expression("false;"), "BoolLiteral(false)");
}

#[test]
fn no_tokens_give_the_placeholder() {
    assert_eq!(expression(";"), "Empty");
    assert_eq!(expression(""), "Empty");
}

#[test]
fn brackets_group() {
    assert_eq!(expression("(a - b) - c;"), "Sub(Sub(Id(a), Id(b)), Id(c))");
    assert_eq!(expression("a - (b - c);"), "Sub(Id(a), Sub(Id(b), Id(c)))");
}

#[test]
fn brackets_around_a_whole_expression_change_nothing() {
    for text in ["a", "1 + 2", "a * b - c", "f(x)", "v[1] + s.m", "\"s\"", "(a)", "a, b", "a, b + 1, c", "", "a,"] {
        assert_eq!(expression(&format!("({});", text)), expression(&format!("{};", text)));
    }
}

#[test]
fn a_list_keeps_its_last_item_whatever_ends_it() {
    assert_eq!(expression("(a, b);"), "ExprList([Id(a), Id(b)])");
    assert_eq!(expression("a, b;"), "ExprList([Id(a), Id(b)])");
    assert_eq!(expression("a, b"), "ExprList([Id(a), Id(b)])");
    assert_eq!(
        expression("v[1, 2];"),
        "ArrayAcc(v, ExprList([IntLiteral(1), IntLiteral(2)]))"
    );
    for (stop, text) in [
        (Token::RBracket, "1 , 2 ]"),
        (Token::Do, "1 , 2 do"),
        (Token::Then, "1 , 2 then"),
        (Token::SemiColon, "1 , 2 ;"),
        (Token::RParen, "1 , 2 )"),
    ] {
        let mut parser = parser_for(text);
        let expr = parser.build_expression(stop);
        assert_eq!(expr.get_type(), AstType::ExprList);
        assert_eq!(expr.get_list_size(), 2);
        assert_eq!(show(&expr), "ExprList([IntLiteral(1), IntLiteral(2)])");
        assert_eq!(problems(&parser), vec![]);
    }
    assert_eq!(
        expression("a + 1, b * 2, c;"),
        "ExprList([Add(Id(a), IntLiteral(1)), Mul(Id(b), IntLiteral(2)), Id(c)])"
    );
}

#[test]
fn call_arguments_are_a_list_in_order() {
    assert_eq!(
        expression("f(a, b, c);"),
        "Call(f, ExprList([Id(a), Id(b), Id(c)]))"
    );
    assert_eq!(
        expression("f(1 + 2, g(x), \"s\");"),
        "Call(f, ExprList([Add(IntLiteral(1), IntLiteral(2)), Call(g, Id(x)), StringLiteral(\"s\")]))"
    );
}

#[test]
fn one_argument_is_no_list() {
    assert_eq!(expression("f(a);"), "Call(f, Id(a))");
}

#[test]
fn no_argument_is_the_placeholder() {
    assert_eq!(expression("f();"), "Call(f, Empty)");
}

#[test]
fn array_and_member_access() {
    assert_eq!(expression("v[i + 1];"), "ArrayAcc(v, Add(Id(i), IntLiteral(1)))");
    assert_eq!(expression("s.m;"), "StructAcc(s, Id(m))");
    assert_eq!(expression("s.m + v[0];"), "Add(StructAcc(s, Id(m)), ArrayAcc(v, IntLiteral(0)))");
}

#[test]
fn a_member_access_without_a_name_is_reported() {
    let mut parser = parser_for("s.5;");
    let expr = parser.build_expression(Token::SemiColon);
    assert_eq!(show(&expr), "StructAcc(s, Id())");
    assert_eq!(problems(&parser), vec![Problem::ExpectedItemName]);
    assert_eq!(*parser.get_diagnostics()[0].get_token(), Token::IntL(5));
    assert_eq!(parser.get_diagnostics()[0].get_kind(), ErrorKind::MalformedExpression);
}

#[test]
fn an_invalid_token_in_an_expression_is_reported_and_passed_over() {
    let mut parser = parser_for("a while + b;");
    let expr = parser.build_expression(Token::SemiColon);
    assert_eq!(show(&expr), "Add(Id(a), Id(b))");
    assert_eq!(problems(&parser), vec![Problem::InvalidExpressionToken]);
    assert_eq!(*parser.get_diagnostics()[0].get_token(), Token::While);
}

#[test]
fn an_operator_without_operands_gets_placeholders() {
    let mut parser = parser_for("+;");
    let expr = parser.build_expression(Token::SemiColon);
    assert_eq!(show(&expr), "Add(Empty, Empty)");
    assert_eq!(problems(&parser), vec![Problem::MissingOperand, Problem::MissingOperand]);
    assert_eq!(*parser.get_diagnostics()[0].get_token(), Token::Unknown);
}

#[test]
fn an_operator_without_its_left_operand_gets_a_placeholder() {
    let mut parser = parser_for("* 2;");
    let expr = parser.build_expression(Token::SemiColon);
    assert_eq!(show(&expr), "Mul(Empty, IntLiteral(2))");
    assert_eq!(problems(&parser), vec![Problem::MissingOperand]);
}

#[test]
fn a_comma_without_an_item_gets_a_placeholder() {
    let mut parser = parser_for("(, a);");
    let expr = parser.build_expression(Token::SemiColon);
    assert_eq!(show(&expr), "ExprList([Empty, Id(a)])");
    assert_eq!(problems(&parser), vec![Problem::MissingOperand]);
    assert_eq!(*parser.get_diagnostics()[0].get_token(), Token::Comma);
}

#[test]
fn an_assignment_takes_only_its_right_operand() {
    let mut parser = parser_for(":= 1 + 2;");
    let expr = parser.build_expression(Token::SemiColon);
    assert_eq!(expr.get_type(), AstType::Assign);
    assert_eq!(expr.get_arg_count(), 1);
    assert_eq!(show(expr.get_arg()), "Add(IntLiteral(1), IntLiteral(2))");
    assert_eq!(problems(&parser), vec![]);
}

#[test]
fn the_expression_builder_takes_its_stop_token() {
    let mut parser = parser_for("a; b;");
    assert_eq!(show(&parser.build_expression(Token::SemiColon)), "Id(a)");
    assert_eq!(show(&parser.build_expression(Token::SemiColon)), "Id(b)");
    assert_eq!(show(&parser.build_expression(Token::SemiColon)), "Empty");
}

#[test]
fn the_expression_builder_stops_at_the_end_of_the_stream() {
    let mut parser = parser_for("a + b");
    assert_eq!(show(&parser.build_expression(Token::SemiColon)), "Add(Id(a), Id(b))");
    assert_eq!(problems(&parser), vec![]);
}

#[test]
fn an_unclosed_bracket_takes_the_rest() {
    let mut parser = parser_for("(a + b; c");
    let expr = parser.build_expression(Token::SemiColon);
    // Inside the bracket `;` has no role: it is reported and passed over.
    // The operands are a, b and c with one operator: it takes the two on top.
    assert_eq!(show(&expr), "Add(Id(b), Id(c))");
    assert_eq!(problems(&parser), vec![Problem::InvalidExpressionToken]);
}

#[test]
fn process_expression_reduces_the_two_stacks() {
    let mut parser = parser_for("");
    let mut a = ast_new_expression(AstType::Id);
    a.set_name("a".to_string());
    let mut b = ast_new_expression(AstType::Id);
    b.set_name("b".to_string());
    let mut c = ast_new_expression(AstType::Id);
    c.set_name("c".to_string());
    let mut stack = vec![a, b, c];
    let mut ops = vec![ast_new_expression(AstType::Add), ast_new_expression(AstType::Mul)];
    parser.process_expression(&mut stack, &mut ops);
    assert_eq!(ops.len(), 0);
    assert_eq!(stack.len(), 1);
    assert_eq!(show(&stack[0]), "Add(Id(a), Mul(Id(b), Id(c)))");
    assert_eq!(problems(&parser), vec![]);
}

#[test]
fn declaration_initializer_is_an_assignment_to_the_name() {
    for (text, value) in [
        ("1", "IntLiteral(1)"),
        ("a + b", "Add(Id(a), Id(b))"),
        ("f(1, 2)", "Call(f, ExprList([IntLiteral(1), IntLiteral(2)]))"),
        ("(a, b)", "ExprList([Id(a), Id(b)])"),
        ("", "Empty"),
    ] {
        let mut parser = parser_for(&format!("count : u32 := {};", text));
        let stmt = parser.build_variable_dec();
        assert_eq!(stmt.get_type(), AstType::VarDec);
        assert_eq!(stmt.get_name(), "count");
        assert_eq!(stmt.get_data_type(), DataType::U32);
        assert_eq!(
            show(stmt.get_expression()),
            format!("Assign(Id(count), {})", value)
        );
        assert_eq!(expression(&format!("{};", text)), value);
    }
}

#[test]
fn an_array_declaration() {
    let mut parser = parser_for("buffer : u8[16 * 2];");
    let stmt = parser.build_variable_dec();
    assert_eq!(stmt.get_type(), AstType::ArrayDec);
    assert_eq!(stmt.get_name(), "buffer");
    assert_eq!(stmt.get_data_type(), DataType::U8);
    assert_eq!(show(stmt.get_expression()), "Mul(IntLiteral(16), IntLiteral(2))");
    assert_eq!(problems(&parser), vec![]);
}

#[test]
fn an_array_declaration_without_its_end_is_the_placeholder() {
    let mut parser = parser_for("buffer : u8[16] x");
    let stmt = parser.build_variable_dec();
    assert_eq!(stmt.get_type(), AstType::Empty);
    assert_eq!(problems(&parser), vec![Problem::ExpectedDeclarationEnd]);
    assert_eq!(parser.get_diagnostics()[0].get_kind(), ErrorKind::MalformedStatement);
}

#[test]
fn a_declaration_without_a_name_is_the_placeholder() {
    let mut parser = parser_for("5 : i32 := 1;");
    let stmt = parser.build_variable_dec();
    assert_eq!(stmt.get_type(), AstType::Empty);
    assert_eq!(problems(&parser), vec![Problem::ExpectedVariableName]);
}

#[test]
fn a_declaration_without_a_colon_is_the_placeholder() {
    let mut parser = parser_for("x i32 := 1;");
    let stmt = parser.build_variable_dec();
    assert_eq!(stmt.get_type(), AstType::Empty);
    assert_eq!(problems(&parser), vec![Problem::ExpectedColon]);
    assert_eq!(*parser.get_diagnostics()[0].get_token(), Token::I32);
}

#[test]
fn statements_of_a_block() {
    let parser = parse(
        "func f is\n var x : i32 := 1;\n x := x + 1;\n v[0] := 2;\n s.m := 3;\n print(x, 2);\n done;\n return x;\n break;\n continue;\n struct p : Point;\nend",
    );
    assert_eq!(problems(&parser), vec![]);
    let statements = body(&parser, 0);
    let kinds: Vec<AstType> = statements.iter().map(|s| s.get_type()).collect();
    assert_eq!(
        kinds,
        vec![
            AstType::VarDec,
            AstType::ExprStmt,
            AstType::ExprStmt,
            AstType::ExprStmt,
            AstType::CallStmt,
            AstType::CallStmt,
            AstType::Return,
            AstType::Break,
            AstType::Continue,
            AstType::StructDec,
        ]
    );
    assert_eq!(
        show(statements[1].get_expression()),
        "Assign(Id(x, Empty), Add(Id(x), IntLiteral(1)))"
    );
    assert_eq!(
        show(statements[2].get_expression()),
        "Assign(ArrayAcc(v, IntLiteral(0)), IntLiteral(2))"
    );
    assert_eq!(
        show(statements[3].get_expression()),
        "Assign(StructAcc(s, Id(m)), IntLiteral(3))"
    );
    assert_eq!(statements[4].get_name(), "print");
    assert_eq!(
        show(statements[4].get_expression()),
        "ExprList([Id(x), IntLiteral(2)])"
    );
    assert_eq!(statements[5].get_name(), "done");
    assert_eq!(show(statements[5].get_expression()), "Empty");
    assert_eq!(show(statements[6].get_expression()), "Id(x)");
    assert_eq!(statements[9].get_name(), "p");
    assert_eq!(show(statements[9].get_expression()), "Id(Point)");
}

#[test]
fn a_jump_without_its_terminator_is_reported() {
    let parser = parse("func f is break x end");
    assert_eq!(problems(&parser), vec![Problem::ExpectedTerminator]);
    assert_eq!(*parser.get_diagnostics()[0].get_token(), Token::Id("x".to_string()));
    let statements = body(&parser, 0);
    assert_eq!(statements.len(), 1);
    assert_eq!(statements[0].get_type(), AstType::Break);
}

#[test]
fn an_invalid_token_in_a_block_is_reported_and_passed_over() {
    let parser = parse("func f is ; var x : i32 := 1; end");
    assert_eq!(problems(&parser), vec![Problem::InvalidStatementToken]);
    assert_eq!(*parser.get_diagnostics()[0].get_token(), Token::SemiColon);
    assert_eq!(body(&parser, 0).len(), 1);
}

#[test]
fn a_struct_declaration_with_problems() {
    let mut parser = parser_for("5 x Point;");
    let stmt = parser.build_struct_dec();
    assert_eq!(stmt.get_type(), AstType::StructDec);
    assert_eq!(stmt.get_name(), "");
    assert_eq!(
        problems(&parser),
        vec![Problem::ExpectedStructVariableName, Problem::ExpectedStructColon]
    );
}

#[test]
fn named_constants_go_to_their_function() {
    let parser = parse(
        "func f is const a : i32 := 1; while a do const b : u8 := 2; end end func g is end",
    );
    assert_eq!(problems(&parser), vec![]);
    let file = parser.get_file();
    let f = &file.get_functions()[0];
    assert_eq!(f.get_block().get_statements().len(), 1);
    let consts = f.get_consts();
    assert_eq!(consts.len(), 2);
    assert_eq!(consts[0].get_name(), "a");
    assert_eq!(consts[0].get_data_type(), DataType::I32);
    assert_eq!(show(consts[0].get_expression()), "IntLiteral(1)");
    assert_eq!(consts[1].get_name(), "b");
    assert_eq!(consts[1].get_data_type(), DataType::U8);
    assert_eq!(file.get_functions()[1].get_consts().len(), 0);
}

#[test]
fn a_named_constant_with_problems() {
    let mut parser = parser_for("5 x i32 7 1;");
    let c = parser.build_const();
    assert_eq!(c.get_name(), "");
    assert_eq!(c.get_data_type(), DataType::I32);
    assert_eq!(show(c.get_expression()), "IntLiteral(1)");
    assert_eq!(
        problems(&parser),
        vec![
            Problem::ExpectedVariableName,
            Problem::ExpectedColon,
            Problem::ExpectedAssign
        ]
    );
}

#[test]
fn a_while_loop_owns_its_block() {
    let parser = parse("func f is while i < 10 do i := i + 1; end done; end");
    assert_eq!(problems(&parser), vec![]);
    let statements = body(&parser, 0);
    assert_eq!(statements.len(), 2);
    let stmt = &statements[0];
    assert_eq!(stmt.get_type(), AstType::While);
    assert_eq!(show(stmt.get_expression()), "Lt(Id(i), IntLiteral(10))");
    assert_eq!(stmt.get_statements().len(), 1);
    assert_eq!(stmt.get_block().get_type(), AstType::Block);
    assert_eq!(stmt.get_block().get_statements().len(), 1);
    assert_eq!(stmt.get_branches().len(), 0);
    assert_eq!(statements[1].get_type(), AstType::CallStmt);
}

#[test]
fn an_if_chain_is_one_statement_with_its_clauses_in_order() {
    let parser = parse(
        "func f is\n if a then\n  one;\n elif b then\n  two;\n  three;\n else\n  four;\n end\n after;\nend",
    );
    assert_eq!(problems(&parser), vec![]);
    let statements = body(&parser, 0);
    assert_eq!(statements.len(), 2);
    let stmt = &statements[0];
    assert_eq!(stmt.get_type(), AstType::If);
    assert_eq!(show(stmt.get_expression()), "Id(a)");
    assert_eq!(stmt.get_statements().len(), 1);
    let first = stmt.get_block();
    assert_eq!(first.get_type(), AstType::Block);
    assert_eq!(first.get_statements().len(), 1);
    assert_eq!(first.get_statements()[0].get_name(), "one");
    let branches = stmt.get_branches();
    assert_eq!(branches.len(), 2);
    assert_eq!(branches[0].get_type(), AstType::Elif);
    assert_eq!(show(branches[0].get_expression()), "Id(b)");
    assert_eq!(branches[0].get_block().get_statements().len(), 2);
    assert_eq!(branches[0].get_block().get_statements()[0].get_name(), "two");
    assert_eq!(branches[0].get_branches().len(), 0);
    assert_eq!(branches[1].get_type(), AstType::Else);
    assert_eq!(branches[1].get_expression().get_type(), AstType::Empty);
    assert_eq!(branches[1].get_block().get_statements().len(), 1);
    assert_eq!(branches[1].get_block().get_statements()[0].get_name(), "four");
    assert_eq!(branches[1].get_branches().len(), 0);
    assert_eq!(statements[1].get_name(), "after");
}

#[test]
fn a_longer_chain_keeps_every_clause_in_order() {
    let parser = parse(
        "func f is if a then elif b then elif c then elif d then else end end",
    );
    assert_eq!(problems(&parser), vec![]);
    let statements = body(&parser, 0);
    assert_eq!(statements.len(), 1);
    let branches = statements[0].get_branches();
    let kinds: Vec<AstType> = branches.iter().map(|b| b.get_type()).collect();
    assert_eq!(
        kinds,
        vec![AstType::Elif, AstType::Elif, AstType::Elif, AstType::Else]
    );
    let conditions: Vec<String> = branches.iter().map(|b| show(b.get_expression())).collect();
    assert_eq!(conditions, vec!["Id(b)", "Id(c)", "Id(d)", "Empty"]);
}

#[test]
fn an_if_without_clauses() {
    let parser = parse("func f is if a then one; end two; end");
    let statements = body(&parser, 0);
    assert_eq!(statements.len(), 2);
    assert_eq!(statements[0].get_type(), AstType::If);
    assert_eq!(statements[0].get_branches().len(), 0);
    assert_eq!(statements[0].get_block().get_statements().len(), 1);
}

#[test]
fn nested_conditionals_keep_their_own_chains() {
    let parser = parse(
        "func f is if a then if b then one; else two; end three; else four; end end",
    );
    assert_eq!(problems(&parser), vec![]);
    let statements = body(&parser, 0);
    assert_eq!(statements.len(), 1);
    let outer = &statements[0];
    assert_eq!(outer.get_branches().len(), 1);
    assert_eq!(outer.get_branches()[0].get_type(), AstType::Else);
    let inside = outer.get_block().get_statements();
    assert_eq!(inside.len(), 2);
    assert_eq!(inside[0].get_type(), AstType::If);
    assert_eq!(inside[0].get_branches().len(), 1);
    assert_eq!(inside[1].get_name(), "three");
}

#[test]
fn a_block_ends_with_the_stream() {
    let parser = parse("func f is var x : i32 := 1;");
    assert_eq!(problems(&parser), vec![]);
    assert_eq!(body(&parser, 0).len(), 1);
}

#[test]
fn build_block_can_be_called_by_itself() {
    let mut parser = parser_for("a; b; end c;");
    let block = parser.build_block();
    assert_eq!(block.get_type(), AstType::Block);
    assert_eq!(block.get_statements().len(), 2);
    let next = parser.build_block();
    assert_eq!(next.get_statements().len(), 1);
    assert_eq!(next.get_statements()[0].get_name(), "c");
}

#[test]
fn build_function_adds_one_function() {
    let mut parser = parser_for("main is end func other is end");
    parser.build_function();
    assert_eq!(parser.get_file().get_functions().len(), 1);
    assert_eq!(parser.get_file().get_functions()[0].get_name(), "main");
    parser.run();
    assert_eq!(parser.get_file().get_functions().len(), 2);
}

#[test]
fn build_params_reads_up_to_the_closing_bracket() {
    let mut parser = parser_for("a : i8 , b : string ) rest");
    let params = parser.build_params().expect("a well-formed list");
    assert_eq!(params.len(), 2);
    assert_eq!(params[1].get_name(), "b");
    assert_eq!(params[1].get_data_type(), DataType::String);
    assert_eq!(show(&parser.build_expression(Token::SemiColon)), "Id(rest)");
}

#[test]
fn every_problem_has_a_kind_and_a_message() {
    let all = [
        (Problem::UnknownGlobalToken, ErrorKind::UnexpectedTopLevel, "Error: Unknown token in global scope.", true),
        (Problem::ExpectedFunctionName, ErrorKind::MalformedFunctionHeader, "Error: Expected function name.", false),
        (Problem::ExpectedArgumentColon, ErrorKind::MalformedFunctionHeader, "Error: Expected colon in function argument.", true),
        (Problem::ExpectedArgumentName, ErrorKind::MalformedFunctionHeader, "Error: Expected argument name.", false),
        (Problem::ExpectedArgumentEnd, ErrorKind::MalformedFunctionHeader, "Error: Expected ',' or '(' after argument.", false),
        (Problem::ExpectedIs, ErrorKind::MalformedFunctionHeader, "Error: Expected \"is\".", false),
        (Problem::ExpectedStructVariableName, ErrorKind::MalformedStatement, "Error: Expected variable name in structure declaration.", false),
        (Problem::ExpectedStructColon, ErrorKind::MalformedStatement, "Error: Expected ':' between structure variable name and structure name.", false),
        (Problem::ExpectedStructName, ErrorKind::MalformedStatement, "Error: Expected structure name.", false),
        (Problem::ExpectedStructItemName, ErrorKind::MalformedStatement, "Error: Expected item name.", false),
        (Problem::ExpectedStructItemColon, ErrorKind::MalformedStatement, "Error: Expected ':' in structure item.", false),
        (Problem::ExpectedItemName, ErrorKind::MalformedExpression, "Error: Expected item name in structure access.", false),
        (Problem::ExpectedTerminator, ErrorKind::MalformedStatement, "Error: Expected terminator.", true),
        (Problem::ExpectedDeclarationEnd, ErrorKind::MalformedStatement, "Error: Expected terminator.", false),
        (Problem::InvalidStatementToken, ErrorKind::MalformedStatement, "Error: Invalid token statement.", true),
        (Problem::ExpectedVariableName, ErrorKind::MalformedStatement, "Error: Expected name in variable declaration.", false),
        (Problem::ExpectedColon, ErrorKind::MalformedStatement, "Error: Expected colon.", false),
        (Problem::ExpectedAssign, ErrorKind::MalformedStatement, "Error: Expected assignment operator.", false),
        (Problem::InvalidExpressionToken, ErrorKind::MalformedExpression, "Error: Invalid token in expression.", true),
        (Problem::MissingOperand, ErrorKind::MalformedExpression, "Error: Missing operand in expression.", false),
        (Problem::UnknownDataType, ErrorKind::UnknownDataType, "Error: Unknown data type token.", true),
    ];
    for (problem, kind, message, shows) in all {
        assert_eq!(problem.kind(), kind);
        assert_eq!(problem.message(), message);
        assert_eq!(problem.shows_token(), shows);
    }
}

#[test]
fn get_file_gives_a_copy() {
    let parser = parse("func f is end");
    let mut copy = parser.get_file();
    copy.add_function(ast_new_function("extra".to_string()));
    assert_eq!(copy.get_functions().len(), 2);
    assert_eq!(parser.get_file().get_functions().len(), 1);
    assert_eq!(parser.get_file().get_name(), "test.tl");
}

#[test]
fn token_leads() {
    assert_eq!(Problem::UnknownGlobalToken.token_lead(), "-> ");
    assert_eq!(Problem::ExpectedArgumentColon.token_lead(), " -> ");
    assert_eq!(Problem::InvalidStatementToken.token_lead(), "");
    assert_eq!(Problem::UnknownDataType.token_lead(), "");
}

#[test]
fn a_structure_definition() {
    let mut parser = parser_for("Point is x : i32 := 0; y : i32 := 1 + 2; end after");
    let def = parser.build_struct_def().expect("a well-formed definition");
    assert_eq!(def.get_name(), "Point");
    let items = def.get_items();
    assert_eq!(items.len(), 2);
    assert_eq!(items[0].get_name(), "x");
    assert_eq!(items[0].get_data_type(), DataType::I32);
    assert_eq!(show(items[0].get_expression()), "Assign(Id(x), IntLiteral(0))");
    assert_eq!(items[1].get_name(), "y");
    assert_eq!(
        show(items[1].get_expression()),
        "Assign(Id(y), Add(IntLiteral(1), IntLiteral(2)))"
    );
    assert_eq!(problems(&parser), vec![]);
    assert_eq!(show(&parser.build_expression(Token::SemiColon)), "Id(after)");
    assert_eq!(parser.get_file().get_functions().len(), 0);
}

#[test]
fn an_empty_structure_definition() {
    let mut parser = parser_for("Nothing is end");
    let def = parser.build_struct_def().expect("a well-formed definition");
    assert_eq!(def.get_name(), "Nothing");
    assert_eq!(def.get_items().len(), 0);
    let copy = def.clone();
    assert_eq!(copy.get_name(), "Nothing");
}

#[test]
fn malformed_structure_definitions() {
    let mut parser = parser_for("5 is end");
    assert!(parser.build_struct_def().is_none());
    assert_eq!(problems(&parser), vec![Problem::ExpectedStructName]);

    let mut parser = parser_for("Point x : i32 := 0; end");
    assert!(parser.build_struct_def().is_none());
    assert_eq!(problems(&parser), vec![Problem::ExpectedIs]);
    assert_eq!(*parser.get_diagnostics()[0].get_token(), Token::Id("x".to_string()));

    let mut parser = parser_for("Point is 7 : i32 := 0; end");
    assert!(parser.build_struct_def().is_none());
    assert_eq!(problems(&parser), vec![Problem::ExpectedStructItemName]);

    let mut parser = parser_for("Point is x i32 := 0; end");
    assert!(parser.build_struct_def().is_none());
    assert_eq!(
        problems(&parser),
        vec![Problem::UnknownDataType, Problem::ExpectedStructItemColon]
    );
    assert_eq!(*parser.get_diagnostics()[1].get_token(), Token::I32);
}

#[test]
fn an_empty_argument_is_the_placeholder() {
    let mut parser = parser_for("f(a, , c);");
    let expr = parser.build_expression(Token::SemiColon);
    assert_eq!(show(&expr), "Call(f, ExprList([Id(a), Empty, Id(c)]))");
    assert_eq!(problems(&parser), vec![Problem::MissingOperand]);
}

#[test]
fn a_list_takes_a_last_item_only_if_there_is_one() {
    assert_eq!(expression("f(a, b, );"), "Call(f, ExprList([Id(a), Id(b)]))");
}

#[test]
fn brackets_around_a_list_without_a_last_item_change_nothing() {
    assert_eq!(expression("(a, b,);"), "ExprList([Id(a), Id(b)])");
    assert_eq!(expression("a, b,;"), "ExprList([Id(a), Id(b)])");
}

#[test]
fn an_operator_between_two_operands_in_brackets() {
    assert_eq!(
        expression("(a + b) * (c - f(d));"),
        "Mul(Add(Id(a), Id(b)), Sub(Id(c), Call(f, Id(d))))"
    );
    assert_eq!(expression("v[1] < s.m;"), "Lt(ArrayAcc(v, IntLiteral(1)), StructAcc(s, Id(m)))");
}

#[test]
fn malformed_input_is_parsed_to_the_end() {
    let inputs = [
        "func",
        "func f",
        "func f is",
        "func f(",
        "func f(a",
        "func f(a :",
        "func f(a : i32",
        "func f(a : i32,",
        "func f -> ",
        "func f is var",
        "func f is var x",
        "func f is var x :",
        "func f is var x : i32",
        "func f is var x : i32[",
        "func f is x",
        "func f is x.",
        "func f is x[",
        "func f is x :=",
        "func f is x := (",
        "func f is x := f(",
        "func f is x := a +",
        "func f is x := + + +;",
        "func f is x := ,,,;",
        "func f is x := ((((;",
        "func f is x := ));",
        "func f is while",
        "func f is while a",
        "func f is while a do",
        "func f is if a then elif",
        "func f is if a then else",
        "func f is else else else end",
        "func f is elif elif then end",
        "func f is const",
        "func f is const c : i32",
        "func f is struct",
        "func f is break",
        "func f is return",
        "func f is return return return;",
        "end end end",
        "is then do elif else",
        ") ] ; , . : := -> + - * / % & | ^ = != > >= < <= && || !",
        "\"unclosed",
        "'",
        "func f is x := \"unclosed",
        "func f is end end func g is end",
    ];
    for input in inputs {
        let parser = parse(input);
        let file = parser.get_file();
        let functions = file.get_functions().len();
        assert!(functions <= 2, "{}", input);
        let _ = file.is_printable();
        assert!(parser.get_diagnostics().len() < 100, "{}", input);
    }
}

#[test]
fn a_longer_program() {
    let source = "func gcd(a : u64, b : u64) -> u64 is
  const limit : u64 := 1000;
  var x : u64 := a;
  var y : u64 := b;
  while y != 0 do
    var t : u64 := x % y;
    x := y;
    y := t;
    if x > limit then
      report(\"large\", x);
      break;
    elif x = 1 then
      continue;
    else
      log(x, y);
    end
  end
  return x;
end

func main is
  var table : u64[16];
  table[0] := gcd(12, 18);
  s.field := 'c';
  print(table[0], s.field, true && false);
end";
    let parser = parse(source);
    assert_eq!(problems(&parser), vec![]);
    let file = parser.get_file();
    assert_eq!(file.get_functions().len(), 2);
    let gcd = &file.get_functions()[0];
    assert_eq!(gcd.get_args().len(), 2);
    assert_eq!(gcd.get_consts().len(), 1);
    assert_eq!(gcd.get_data_type(), DataType::U64);
    let kinds: Vec<AstType> =
        gcd.get_block().get_statements().iter().map(|s| s.get_type()).collect();
    assert_eq!(
        kinds,
        vec![AstType::VarDec, AstType::VarDec, AstType::While, AstType::Return]
    );
    let inner = gcd.get_block().get_statements()[2].get_block().get_statements();
    assert_eq!(inner.len(), 4);
    assert_eq!(inner[3].get_type(), AstType::If);
    assert_eq!(inner[3].get_branches().len(), 2);
    let main = &file.get_functions()[1];
    assert_eq!(main.get_block().get_statements().len(), 4);
    assert!(file.is_printable());
}

#[test]
fn a_parser_can_be_brought_to_a_given_stream() {
    let mut parser = parser_new("tokens.tl".to_string());
    assert_eq!(parser.get_file_name(), "tokens.tl");
    for token in [Token::SemiColon, Token::IntL(2), Token::Mul, Token::Id("a".to_string())] {
        parser.unget(token);
    }
    assert_eq!(show(&parser.build_expression(Token::SemiColon)), "Mul(Id(a), IntLiteral(2))");
    assert_eq!(parser.get_next(), Token::Eof);
    parser.unget(Token::End);
    parser.unget(Token::Is);
    assert_eq!(parser.get_next(), Token::Is);
    assert_eq!(parser.get_next(), Token::End);
    assert_eq!(parser.get_next(), Token::Eof);
}

#[test]
fn the_block_of_an_if_is_its_first_body_alone() {
    let parser = parse(
        "func f is if c then one; x := 2; elif d then three; else four; five; end end",
    );
    assert_eq!(problems(&parser), vec![]);
    let statements = body(&parser, 0);
    assert_eq!(statements.len(), 1);
    let chain = &statements[0];
    assert_eq!(chain.get_type(), AstType::If);
    assert_eq!(show(chain.get_expression()), "Id(c)");
    let first = chain.get_block().get_statements();
    assert_eq!(first.len(), 2);
    assert_eq!(first[0].get_name(), "one");
    assert_eq!(first[1].get_type(), AstType::ExprStmt);
    let file = parser.get_file();
    assert_eq!(file.get_functions()[0].get_block().get_branches().len(), 0);

    // The same statements alone, as a block of their own.
    let mut alone = parser_for("one; x := 2; end");
    let block = alone.build_block();
    assert_eq!(block.get_statements().len(), 2);
    assert_eq!(block.get_statements()[0].get_name(), first[0].get_name());
    assert_eq!(
        show(block.get_statements()[1].get_expression()),
        show(first[1].get_expression())
    );
}
