use tiny_lang::ast::ast_new_arg;
use tiny_lang::ast::ast_new_expression;
use tiny_lang::ast::ast_new_file;
use tiny_lang::ast::ast_new_function;
use tiny_lang::ast::ast_new_statement;
use tiny_lang::ast::clone_args;
use tiny_lang::ast::AstExpression;
use tiny_lang::ast::AstType;
use tiny_lang::ast::DataType;

fn named(kind: AstType, name: &str) -> AstExpression {
    let mut expr = ast_new_expression(kind);
    expr.set_name(name.to_string());
    expr
}

#[test]
fn a_new_expression_carries_nothing() {
    let expr = ast_new_expression(AstType::Add);
    assert_eq!(expr.get_type(), AstType::Add);
    assert_eq!(expr.get_int(), 0);
    assert_eq!(expr.get_char(), '\0');
    assert_eq!(expr.get_string(), "");
    assert_eq!(expr.get_name(), "");
    assert_eq!(expr.get_list_size(), 0);
    assert_eq!(expr.get_list().len(), 0);
    assert_eq!(expr.get_arg_count(), 0);
}

#[test]
fn a_new_statement_carries_nothing() {
    let stmt = ast_new_statement(AstType::While);
    assert_eq!(stmt.get_type(), AstType::While);
    assert_eq!(stmt.get_name(), "");
    assert_eq!(stmt.get_data_type(), DataType::Void);
    assert_eq!(stmt.get_expression().get_type(), AstType::Empty);
    assert_eq!(stmt.get_statements().len(), 0);
    assert_eq!(stmt.get_branches().len(), 0);
}

#[test]
fn a_new_function_has_an_empty_block() {
    let func = ast_new_function("main".to_string());
    assert_eq!(func.get_name(), "main");
    assert_eq!(func.get_data_type(), DataType::Void);
    assert_eq!(func.get_args().len(), 0);
    assert_eq!(func.get_consts().len(), 0);
    assert_eq!(func.get_block().get_type(), AstType::Block);
    assert_eq!(func.get_block().get_statements().len(), 0);
}

#[test]
fn a_new_file_has_no_functions() {
    let file = ast_new_file("a.tl".to_string());
    assert_eq!(file.get_name(), "a.tl");
    assert_eq!(file.get_functions().len(), 0);
}

#[test]
fn payload_setters() {
    let mut expr = ast_new_expression(AstType::IntLiteral);
    expr.set_int(99);
    expr.set_char('q');
    expr.set_string("text".to_string());
    assert_eq!(expr.get_int(), 99);
    assert_eq!(expr.get_char(), 'q');
    assert_eq!(expr.get_string(), "text");
    expr.set_name("name".to_string());
    assert_eq!(expr.get_name(), "name");
    assert_eq!(expr.get_string(), "name");
    assert_eq!(expr.get_int(), 99);
}

#[test]
fn the_left_operand_goes_first_and_the_right_one_last() {
    let mut op = ast_new_expression(AstType::Sub);
    op.set_rval(named(AstType::Id, "right"));
    op.set_lval(named(AstType::Id, "left"));
    assert_eq!(op.get_arg_count(), 2);
    assert_eq!(op.get_lval().get_name(), "left");
    assert_eq!(op.get_rval().get_name(), "right");

    let mut other = ast_new_expression(AstType::Sub);
    other.set_lval(named(AstType::Id, "left"));
    other.set_rval(named(AstType::Id, "right"));
    assert_eq!(other.get_lval().get_name(), "left");
    assert_eq!(other.get_rval().get_name(), "right");
}

#[test]
fn the_sub_argument_is_the_first_operand() {
    let mut call = named(AstType::Call, "f");
    call.set_arg(named(AstType::Id, "x"));
    assert_eq!(call.get_arg_count(), 1);
    assert_eq!(call.get_arg().get_name(), "x");
}

#[test]
fn list_items_keep_their_order() {
    let mut list = ast_new_expression(AstType::ExprList);
    list.add_list_item(named(AstType::Id, "a"));
    list.add_list_item(named(AstType::Id, "b"));
    list.add_list_item(named(AstType::Id, "c"));
    assert_eq!(list.get_list_size(), 3);
    let names: Vec<String> = list.get_list().iter().map(|item| item.get_name()).collect();
    assert_eq!(names, vec!["a", "b", "c"]);
    assert_eq!(list.get_arg_count(), 0);
}

#[test]
fn statement_setters() {
    let mut stmt = ast_new_statement(AstType::VarDec);
    stmt.set_name("x".to_string());
    stmt.set_data_type(DataType::U16);
    stmt.set_expression(named(AstType::Id, "init"));
    assert_eq!(stmt.get_name(), "x");
    assert_eq!(stmt.get_data_type(), DataType::U16);
    assert_eq!(stmt.get_expression().get_name(), "init");
    assert_eq!(stmt.get_type(), AstType::VarDec);
}

#[test]
fn statements_and_branches_are_kept_apart_and_in_order() {
    let mut stmt = ast_new_statement(AstType::If);
    let mut first = ast_new_statement(AstType::Block);
    first.set_name("first".to_string());
    let mut second = ast_new_statement(AstType::CallStmt);
    second.set_name("second".to_string());
    stmt.add_sub_block(first);
    stmt.add_statement(second);
    stmt.add_branch(ast_new_statement(AstType::Elif));
    stmt.add_branch(ast_new_statement(AstType::Else));
    assert_eq!(stmt.get_statements().len(), 2);
    assert_eq!(stmt.get_block().get_name(), "first");
    assert_eq!(stmt.get_statements()[1].get_name(), "second");
    let kinds: Vec<AstType> = stmt.get_branches().iter().map(|b| b.get_type()).collect();
    assert_eq!(kinds, vec![AstType::Elif, AstType::Else]);
}

#[test]
fn function_setters() {
    let mut func = ast_new_function("f".to_string());
    func.set_data_type(DataType::Bool);
    func.add_arg(ast_new_arg("a".to_string(), DataType::I8));
    func.add_arg(ast_new_arg("b".to_string(), DataType::I16));
    let mut c = ast_new_arg("c".to_string(), DataType::Char);
    c.set_expression(named(AstType::Id, "value"));
    func.add_const(c);
    let mut block = ast_new_statement(AstType::Block);
    block.add_statement(ast_new_statement(AstType::Break));
    func.set_block(block);
    assert_eq!(func.get_data_type(), DataType::Bool);
    assert_eq!(func.get_args().len(), 2);
    assert_eq!(func.get_args()[0].get_name(), "a");
    assert_eq!(func.get_args()[1].get_data_type(), DataType::I16);
    assert_eq!(func.get_consts().len(), 1);
    assert_eq!(func.get_consts()[0].get_name(), "c");
    assert_eq!(func.get_consts()[0].get_data_type(), DataType::Char);
    assert_eq!(func.get_consts()[0].get_expression().get_name(), "value");
    assert_eq!(func.get_block().get_statements().len(), 1);
}

#[test]
fn functions_are_appended_to_a_file() {
    let mut file = ast_new_file("a.tl".to_string());
    file.add_function(ast_new_function("one".to_string()));
    file.add_function(ast_new_function("two".to_string()));
    let names: Vec<String> = file.get_functions().iter().map(|f| f.get_name()).collect();
    assert_eq!(names, vec!["one", "two"]);
}

#[test]
fn a_clone_is_a_deep_copy() {
    let mut op = ast_new_expression(AstType::Add);
    op.set_lval(named(AstType::Id, "a"));
    op.set_rval(named(AstType::Id, "b"));
    let mut list = ast_new_expression(AstType::ExprList);
    list.add_list_item(op);
    let mut stmt = ast_new_statement(AstType::While);
    stmt.set_expression(list);
    stmt.add_sub_block(ast_new_statement(AstType::Block));
    stmt.add_branch(ast_new_statement(AstType::Else));
    let mut copy = stmt.clone();
    copy.set_name("changed".to_string());
    copy.add_branch(ast_new_statement(AstType::Else));
    assert_eq!(stmt.get_name(), "");
    assert_eq!(stmt.get_branches().len(), 1);
    assert_eq!(copy.get_branches().len(), 2);
    let item = &copy.get_expression().get_list()[0];
    assert_eq!(item.get_type(), AstType::Add);
    assert_eq!(item.get_lval().get_name(), "a");
    assert_eq!(item.get_rval().get_name(), "b");

    let mut func = ast_new_function("f".to_string());
    func.add_arg(ast_new_arg("p".to_string(), DataType::U32));
    let mut file = ast_new_file("a.tl".to_string());
    file.add_function(func);
    let copy = file.clone();
    assert_eq!(copy.get_name(), "a.tl");
    assert_eq!(copy.get_functions()[0].get_args()[0].get_name(), "p");
    let args = clone_args(copy.get_functions()[0].get_args());
    assert_eq!(args.len(), 1);
    assert_eq!(args[0].get_data_type(), DataType::U32);
}
