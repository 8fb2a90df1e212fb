//! The unwriter: it writes a syntax tree back as source text in one fixed
//! form. It writes what it knows how to write: declarations, call
//! statements, loops and conditionals, with operators, literals, names and
//! lists in their expressions. For any other statement it leaves the line
//! empty, and any other expression it leaves out.

use vstd::prelude::*;
use vstd::string::StringExecFns;
use crate::ast::AstExpression;
use crate::ast::AstFile;
use crate::ast::AstFunction;
use crate::ast::AstStatement;
use crate::ast::AstType;
use crate::ast::DataType;
use crate::ast::expr_views;
use crate::ast::ExprView;
use crate::ast::FileView;
use crate::ast::function_views;
use crate::ast::FunctionView;
use crate::ast::stmt_views;
use crate::ast::StmtView;
use crate::lex::push_char;

verus! {

/// What `{:?}` writes for a string: the string between double quotes, with
/// escapes.
pub uninterp spec fn quoted_string(text: Seq<char>) -> Seq<char>;

/// What `{:?}` writes for a character: the character between single quotes,
/// with escapes.
pub uninterp spec fn quoted_char(c: char) -> Seq<char>;

/// `format!("{:?}", text)` for a string: the result is a function of the
/// string alone; what it is, the contract leaves to the name
/// `quoted_string`.
#[verifier::external_body]
pub(crate) fn quote_string(text: &str) -> (res: String)
    ensures
        res@ == quoted_string(text@),
{
    format!("{:?}", text)
}

/// `format!("{:?}", c)` for a character: the result is a function of the
/// character alone; what it is, the contract leaves to the name
/// `quoted_char`.
#[verifier::external_body]
pub(crate) fn quote_char(c: char) -> (res: String)
    ensures
        res@ == quoted_char(c),
{
    format!("{:?}", c)
}

/// The character that writes a digit.
pub open spec fn digit_char(digit: nat) -> char {
    if digit == 0 {
        '0'
    } else if digit == 1 {
        '1'
    } else if digit == 2 {
        '2'
    } else if digit == 3 {
        '3'
    } else if digit == 4 {
        '4'
    } else if digit == 5 {
        '5'
    } else if digit == 6 {
        '6'
    } else if digit == 7 {
        '7'
    } else if digit == 8 {
        '8'
    } else {
        '9'
    }
}

/// A number in decimal, without leading zeros.
pub open spec fn decimal_text(value: nat) -> Seq<char>
    decreases value,
{
    if value < 10 {
        seq![digit_char(value)]
    } else {
        decimal_text(value / 10).push(digit_char(value % 10))
    }
}

/// Appends a number in decimal.
pub fn write_decimal(out: &mut String, value: u64)
    ensures
        final(out)@ == old(out)@ + decimal_text(value as nat),
    decreases value,
{
    if value >= 10 {
        write_decimal(out, value / 10);
    }
    let digit = value % 10;
    let c = if digit == 0 {
        '0'
    } else if digit == 1 {
        '1'
    } else if digit == 2 {
        '2'
    } else if digit == 3 {
        '3'
    } else if digit == 4 {
        '4'
    } else if digit == 5 {
        '5'
    } else if digit == 6 {
        '6'
    } else if digit == 7 {
        '7'
    } else if digit == 8 {
        '8'
    } else {
        '9'
    };
    push_char(out, c);
    assert(out@ =~= old(out)@ + decimal_text(value as nat));
}

/// The keyword of a primitive type.
pub open spec fn data_type_text(data_type: DataType) -> Seq<char> {
    match data_type {
        DataType::Void => "void"@,
        DataType::I8 => "i8"@,
        DataType::U8 => "u8"@,
        DataType::I16 => "i16"@,
        DataType::U16 => "u16"@,
        DataType::I32 => "i32"@,
        DataType::U32 => "u32"@,
        DataType::I64 => "i64"@,
        DataType::U64 => "u64"@,
        DataType::String => "string"@,
        DataType::Char => "char"@,
        DataType::Bool => "bool"@,
    }
}

/// The operators that the unwriter writes between their two operands.
pub open spec fn is_written_operator(kind: AstType) -> bool {
    matches!(
        kind,
        AstType::Add | AstType::Sub | AstType::Mul | AstType::Div | AstType::Mod | AstType::And
            | AstType::Or | AstType::Xor | AstType::Eq | AstType::Ne | AstType::Gt | AstType::Ge
            | AstType::Lt | AstType::Le
    )
}

/// An operator as it stands between its operands.
pub open spec fn operator_text(kind: AstType) -> Seq<char> {
    match kind {
        AstType::Add => " + "@,
        AstType::Sub => " - "@,
        AstType::Mul => " * "@,
        AstType::Div => " / "@,
        AstType::Mod => " % "@,
        AstType::And => " & "@,
        AstType::Or => " | "@,
        AstType::Xor => " ^ "@,
        AstType::Eq => " = "@,
        AstType::Ne => " != "@,
        AstType::Gt => " > "@,
        AstType::Ge => " >= "@,
        AstType::Lt => " < "@,
        AstType::Le => " <= "@,
        _ => Seq::empty(),
    }
}

/// Whether the unwriter finds every operand that it reads in an expression:
/// the two operands of each operator that it writes and of each assignment.
pub open spec fn expr_complete(expr: ExprView) -> bool
    decreases expr,
{
    if expr.kind == AstType::Assign || is_written_operator(expr.kind) {
        expr.args.len() >= 2 && expr_complete(expr.args[0]) && expr_complete(expr.args[1])
    } else if expr.kind == AstType::ExprList {
        forall|i: int| 0 <= i < expr.list.len() ==> expr_complete(#[trigger] expr.list[i])
    } else {
        true
    }
}

/// What the unwriter writes for an expression. The left operand of an
/// assignment and the `:=` are left out where `ignore_lval` says so: a
/// declaration has written them itself.
pub open spec fn expr_text(expr: ExprView, ignore_lval: bool) -> Seq<char>
    decreases expr, 0nat,
{
    if expr.kind == AstType::Assign {
        if expr.args.len() >= 2 {
            (if ignore_lval {
                Seq::empty()
            } else {
                expr_text(expr.args[0], false) + " := "@
            }) + expr_text(expr.args[1], false)
        } else {
            Seq::empty()
        }
    } else if is_written_operator(expr.kind) {
        if expr.args.len() >= 2 {
            expr_text(expr.args[0], false) + operator_text(expr.kind) + expr_text(
                expr.args[1],
                false,
            )
        } else {
            Seq::empty()
        }
    } else {
        match expr.kind {
            AstType::Id => expr.text,
            AstType::IntLiteral => decimal_text(expr.number as nat),
            AstType::StringLiteral => quoted_string(expr.text),
            AstType::CharLiteral => quoted_char(expr.letter),
            AstType::BoolLiteral(value) => if value {
                "true"@
            } else {
                "false"@
            },
            AstType::ExprList => list_text(expr.list, expr.list.len()),
            _ => Seq::empty(),
        }
    }
}

/// What the unwriter writes for the first `count` items of a list: the
/// items, with `, ` behind each but the last of the list.
pub open spec fn list_text(items: Seq<ExprView>, count: nat) -> Seq<char>
    decreases items, count,
{
    if count == 0 || count > items.len() {
        Seq::empty()
    } else {
        list_text(items, (count - 1) as nat) + expr_text(items[count - 1], false) + (if count
            < items.len() {
            ", "@
        } else {
            Seq::empty()
        })
    }
}

/// Whether the unwriter finds what it reads in a statement: the operands in
/// its expression and, for a loop, a conditional or a clause, the block that
/// it owns.
pub open spec fn stmt_complete(stmt: StmtView) -> bool
    decreases stmt, 0nat,
{
    match stmt.kind {
        AstType::VarDec | AstType::ArrayDec | AstType::CallStmt => expr_complete(stmt.expr),
        AstType::While => {
            &&& expr_complete(stmt.expr)
            &&& stmt.statements.len() > 0
            &&& all_complete(stmt.statements[0].statements, stmt.statements[0].statements.len())
        },
        AstType::If | AstType::Elif => {
            &&& expr_complete(stmt.expr)
            &&& stmt.statements.len() > 0
            &&& all_complete(stmt.statements[0].statements, stmt.statements[0].statements.len())
            &&& all_complete(stmt.branches, stmt.branches.len())
        },
        AstType::Else => {
            &&& stmt.statements.len() > 0
            &&& all_complete(stmt.statements[0].statements, stmt.statements[0].statements.len())
        },
        _ => true,
    }
}

/// Whether the first `count` statements of a sequence are complete.
pub open spec fn all_complete(items: Seq<StmtView>, count: nat) -> bool
    decreases items, count,
{
    if count == 0 || count > items.len() {
        true
    } else {
        all_complete(items, (count - 1) as nat) && stmt_complete(items[count - 1])
    }
}

/// The indentation that a block adds to that of the statement that owns it.
pub open spec fn indent_step() -> Seq<char> {
    "    "@
}

/// What the unwriter writes for a statement at the indentation `pad`: the
/// indentation, then the statement and what it owns. Only an `if` writes the
/// `end` of its chain.
pub open spec fn stmt_text(stmt: StmtView, pad: Seq<char>) -> Seq<char>
    decreases stmt, 0nat,
{
    pad + (match stmt.kind {
        AstType::VarDec => "var "@ + stmt.name + " : "@ + data_type_text(stmt.data_type) + " := "@
            + expr_text(stmt.expr, true) + ";\n"@,
        AstType::ArrayDec => "var "@ + stmt.name + " : "@ + data_type_text(stmt.data_type) + "["@
            + expr_text(stmt.expr, false) + "];\n"@,
        AstType::CallStmt => stmt.name + "("@ + expr_text(stmt.expr, false) + ");\n"@,
        AstType::While => if stmt.statements.len() > 0 {
            "while "@ + expr_text(stmt.expr, false) + " do\n"@ + sequence_text(
                stmt.statements[0].statements,
                stmt.statements[0].statements.len(),
                pad + indent_step(),
            ) + pad + "end\n"@
        } else {
            Seq::empty()
        },
        AstType::If | AstType::Elif => if stmt.statements.len() > 0 {
            (if stmt.kind == AstType::Elif {
                "elif "@
            } else {
                "if "@
            }) + expr_text(stmt.expr, false) + " then\n"@ + sequence_text(
                stmt.statements[0].statements,
                stmt.statements[0].statements.len(),
                pad + indent_step(),
            ) + sequence_text(stmt.branches, stmt.branches.len(), pad) + (if stmt.kind
                == AstType::If {
                pad + "end\n"@
            } else {
                Seq::empty()
            })
        } else {
            Seq::empty()
        },
        AstType::Else => if stmt.statements.len() > 0 {
            "else\n"@ + sequence_text(
                stmt.statements[0].statements,
                stmt.statements[0].statements.len(),
                pad + indent_step(),
            )
        } else {
            Seq::empty()
        },
        _ => "\n"@,
    })
}

/// What the unwriter writes for the first `count` statements of a sequence,
/// each at the indentation `pad`.
pub open spec fn sequence_text(items: Seq<StmtView>, count: nat, pad: Seq<char>) -> Seq<char>
    decreases items, count,
{
    if count == 0 || count > items.len() {
        Seq::empty()
    } else {
        sequence_text(items, (count - 1) as nat, pad) + stmt_text(items[count - 1], pad)
    }
}

/// What the unwriter writes for the block that a statement owns, one step
/// further in than the statement.
pub open spec fn body_text(block: StmtView, pad: Seq<char>) -> Seq<char> {
    sequence_text(block.statements, block.statements.len(), pad + indent_step())
}

/// What the unwriter writes for a clause of a chain: its line and its block,
/// and no `end`.
pub proof fn lemma_clause_text(clause: StmtView, pad: Seq<char>)
    requires
        clause.kind == AstType::Elif || clause.kind == AstType::Else,
        clause.statements.len() > 0,
        clause.branches.len() == 0,
    ensures
        clause.kind == AstType::Elif ==> stmt_text(clause, pad) == pad + "elif "@ + expr_text(
            clause.expr,
            false,
        ) + " then\n"@ + body_text(clause.statements[0], pad),
        clause.kind == AstType::Else ==> stmt_text(clause, pad) == pad + "else\n"@ + body_text(
            clause.statements[0],
            pad,
        ),
{
    let own = body_text(clause.statements[0], pad);
    assert(sequence_text(clause.branches, 0, pad) =~= Seq::empty());
    if clause.kind == AstType::Elif {
        let line = "elif "@ + expr_text(clause.expr, false) + " then\n"@;
        assert(stmt_text(clause, pad) =~= pad + line + own);
    } else {
        assert(stmt_text(clause, pad) =~= pad + "else\n"@ + own);
    }
}

/// The line of an `if` and its block, as the unwriter writes them.
pub open spec fn if_text(stmt: StmtView, pad: Seq<char>) -> Seq<char> {
    pad + "if "@ + expr_text(stmt.expr, false) + " then\n"@ + body_text(stmt.statements[0], pad)
}

/// What the unwriter writes for a chain `if .. elif .. else .. end`: the line
/// of the `if` and its block, then the `elif` clause, then the `else` clause
/// (`lemma_clause_text` says what these two are), and then one `end`, which
/// is the last line. The clauses write no `end` of their own.
pub proof fn lemma_chain_text(stmt: StmtView, pad: Seq<char>)
    requires
        stmt.kind == AstType::If,
        stmt.statements.len() > 0,
        stmt.branches.len() == 2,
    ensures
        stmt_text(stmt, pad) == if_text(stmt, pad) + stmt_text(stmt.branches[0], pad) + stmt_text(
            stmt.branches[1],
            pad,
        ) + (pad + "end\n"@),
{
    let first = stmt_text(stmt.branches[0], pad);
    let second = stmt_text(stmt.branches[1], pad);
    let clauses = sequence_text(stmt.branches, 2, pad);
    assert(sequence_text(stmt.branches, 0, pad) =~= Seq::empty());
    assert(sequence_text(stmt.branches, 1, pad) =~= first);
    assert(clauses == sequence_text(stmt.branches, 1, pad) + second);
    let line = "if "@ + expr_text(stmt.expr, false) + " then\n"@;
    let own = body_text(stmt.statements[0], pad);
    assert(stmt_text(stmt, pad) == pad + (line + own + clauses + (pad + "end\n"@)));
    assert(if_text(stmt, pad) =~= pad + (line + own));
    assert(pad + (line + own + clauses + (pad + "end\n"@)) =~= (pad + (line + own)) + clauses + (pad
        + "end\n"@));
}

/// A statement that is no loop, no `if` and no clause is written as one
/// line behind its indentation: a declaration, a call, or an empty line.
pub proof fn lemma_line_text(stmt: StmtView, pad: Seq<char>)
    requires
        stmt.kind != AstType::While,
        stmt.kind != AstType::If,
        stmt.kind != AstType::Elif,
        stmt.kind != AstType::Else,
    ensures
        stmt_text(stmt, pad) == pad + (match stmt.kind {
            AstType::VarDec => "var "@ + stmt.name + " : "@ + data_type_text(stmt.data_type)
                + " := "@ + expr_text(stmt.expr, true) + ";\n"@,
            AstType::ArrayDec => "var "@ + stmt.name + " : "@ + data_type_text(stmt.data_type)
                + "["@ + expr_text(stmt.expr, false) + "];\n"@,
            AstType::CallStmt => stmt.name + "("@ + expr_text(stmt.expr, false) + ");\n"@,
            _ => "\n"@,
        }),
{
}

/// What the unwriter writes for a function: the header without parameters
/// and return type, the body one step in, and `end`.
pub open spec fn function_text(func: FunctionView) -> Seq<char> {
    "func "@ + func.name + " is\n"@ + sequence_text(
        func.block.statements,
        func.block.statements.len(),
        indent_step(),
    ) + "end\n"@
}

/// What the unwriter writes for the first `count` functions of a file.
pub open spec fn functions_text(functions: Seq<FunctionView>, count: nat) -> Seq<char>
    decreases count,
{
    if count == 0 || count > functions.len() {
        Seq::empty()
    } else {
        functions_text(functions, (count - 1) as nat) + function_text(functions[count - 1])
    }
}

/// What the unwriter writes for a file: its functions in order.
pub open spec fn file_text(file: FileView) -> Seq<char> {
    functions_text(file.functions, file.functions.len())
}

/// Whether the unwriter finds what it reads in every statement of a file.
pub open spec fn file_complete(file: FileView) -> bool {
    forall|i: int|
        0 <= i < file.functions.len() ==> all_complete(
            (#[trigger] file.functions[i]).block.statements,
            file.functions[i].block.statements.len(),
        )
}

/// Whether an expression is complete.
pub fn expression_is_complete(expr: &AstExpression) -> (res: bool)
    ensures
        res == expr_complete(expr@),
    decreases expr@,
{
    let kind = expr.get_type();
    if kind == AstType::Assign || is_written(kind) {
        if expr.get_arg_count() < 2 {
            return false;
        }
        expression_is_complete(expr.get_lval()) && expression_is_complete(expr.get_rval())
    } else if kind == AstType::ExprList {
        let list = expr.get_list();
        let mut i: usize = 0;
        while i < list.len()
            invariant
                i <= list.len(),
                expr_views(list@) == expr@.list,
                expr@.kind == AstType::ExprList,
                forall|j: int| 0 <= j < i ==> expr_complete(#[trigger] expr@.list[j]),
            decreases list.len() - i,
        {
            assert(list@[i as int]@ == expr@.list[i as int]);
            if !expression_is_complete(&list[i]) {
                return false;
            }
            i += 1;
        }
        true
    } else {
        true
    }
}

/// Whether every statement of a sequence is complete.
pub fn statements_are_complete(items: &Vec<AstStatement>) -> (res: bool)
    ensures
        res == all_complete(stmt_views(items@), items@.len()),
    decreases stmt_views(items@), items@.len(),
{
    let mut i: usize = 0;
    while i < items.len()
        invariant
            i <= items.len(),
            all_complete(stmt_views(items@), i as nat),
        decreases items.len() - i,
    {
        assert(stmt_views(items@)[i as int] == items@[i as int]@);
        if !statement_is_complete(&items[i]) {
            proof {
                lemma_incomplete(stmt_views(items@), i as nat, items@.len());
            }
            return false;
        }
        i += 1;
    }
    true
}

/// One incomplete statement makes the sequence incomplete.
pub proof fn lemma_incomplete(items: Seq<StmtView>, at: nat, count: nat)
    requires
        at < count <= items.len(),
        !stmt_complete(items[at as int]),
    ensures
        !all_complete(items, count),
    decreases count,
{
    if count - 1 > at {
        lemma_incomplete(items, at, (count - 1) as nat);
    }
}

/// Whether a statement is complete.
pub fn statement_is_complete(stmt: &AstStatement) -> (res: bool)
    ensures
        res == stmt_complete(stmt@),
    decreases stmt@, 0nat,
{
    match stmt.get_type() {
        AstType::VarDec | AstType::ArrayDec | AstType::CallStmt => expression_is_complete(
            stmt.get_expression(),
        ),
        AstType::While => {
            expression_is_complete(stmt.get_expression()) && stmt.get_statements().len() > 0
                && statements_are_complete(stmt.get_block().get_statements())
        },
        AstType::If | AstType::Elif => {
            expression_is_complete(stmt.get_expression()) && stmt.get_statements().len() > 0
                && statements_are_complete(stmt.get_block().get_statements())
                && statements_are_complete(stmt.get_branches())
        },
        AstType::Else => {
            stmt.get_statements().len() > 0 && statements_are_complete(
                stmt.get_block().get_statements(),
            )
        },
        _ => true,
    }
}

/// Whether the unwriter finds what it reads in every statement of a file.
pub fn is_complete(file: &AstFile) -> (res: bool)
    ensures
        res == file_complete(file@),
{
    let functions = file.get_functions();
    let mut i: usize = 0;
    while i < functions.len()
        invariant
            i <= functions.len(),
            function_views(functions@) == file@.functions,
            forall|j: int|
                0 <= j < i ==> all_complete(
                    (#[trigger] file@.functions[j]).block.statements,
                    file@.functions[j].block.statements.len(),
                ),
        decreases functions.len() - i,
    {
        assert(functions@[i as int]@ == file@.functions[i as int]);
        if !statements_are_complete(functions[i].get_block().get_statements()) {
            return false;
        }
        i += 1;
    }
    true
}

pub(crate) fn is_written(kind: AstType) -> (res: bool)
    ensures
        res == is_written_operator(kind),
{
    matches!(
        kind,
        AstType::Add | AstType::Sub | AstType::Mul | AstType::Div | AstType::Mod | AstType::And
            | AstType::Or | AstType::Xor | AstType::Eq | AstType::Ne | AstType::Gt | AstType::Ge
            | AstType::Lt | AstType::Le
    )
}


/// Appends a piece to what was written after `base`.
pub(crate) fn put(out: &mut String, piece: &str, Ghost(base): Ghost<Seq<char>>, Ghost(written): Ghost<Seq<char>>)
    requires
        old(out)@ == base + written,
    ensures
        final(out)@ == base + (written + piece@),
{
    out.append(piece);
    assert(out@ =~= base + (written + piece@));
}

/// Appends the keyword of a primitive type.
fn unwrite_data_type(out: &mut String, data_type: DataType)
    ensures
        final(out)@ == old(out)@ + data_type_text(data_type),
{
    match data_type {
        DataType::Void => out.append("void"),
        DataType::I8 => out.append("i8"),
        DataType::U8 => out.append("u8"),
        DataType::I16 => out.append("i16"),
        DataType::U16 => out.append("u16"),
        DataType::I32 => out.append("i32"),
        DataType::U32 => out.append("u32"),
        DataType::I64 => out.append("i64"),
        DataType::U64 => out.append("u64"),
        DataType::String => out.append("string"),
        DataType::Char => out.append("char"),
        DataType::Bool => out.append("bool"),
    }
}

/// Appends an operator as it stands between its operands.
pub(crate) fn unwrite_operator(out: &mut String, kind: AstType)
    ensures
        final(out)@ == old(out)@ + operator_text(kind),
{
    match kind {
        AstType::Add => out.append(" + "),
        AstType::Sub => out.append(" - "),
        AstType::Mul => out.append(" * "),
        AstType::Div => out.append(" / "),
        AstType::Mod => out.append(" % "),
        AstType::And => out.append(" & "),
        AstType::Or => out.append(" | "),
        AstType::Xor => out.append(" ^ "),
        AstType::Eq => out.append(" = "),
        AstType::Ne => out.append(" != "),
        AstType::Gt => out.append(" > "),
        AstType::Ge => out.append(" >= "),
        AstType::Lt => out.append(" < "),
        AstType::Le => out.append(" <= "),
        _ => {
            assert(out@ =~= old(out)@ + operator_text(kind));
        },
    }
}

/// Appends an expression.
pub fn unwrite_expression(out: &mut String, expr: &AstExpression, ignore_lval: bool)
    requires
        expr_complete(expr@),
    ensures
        final(out)@ == old(out)@ + expr_text(expr@, ignore_lval),
    decreases expr@, 0nat,
{
    let ghost base = out@;
    let kind = expr.get_type();
    if kind == AstType::Assign {
        let ghost mut written = Seq::<char>::empty();
        assert(out@ =~= base + written);
        if !ignore_lval {
            unwrite_expression(out, expr.get_lval(), false);
            proof {
                written = expr_text(expr@.args[0], false);
            }
            put(out, " := ", Ghost(base), Ghost(written));
            proof {
                written = written + " := "@;
            }
        }
        unwrite_expression(out, expr.get_rval(), false);
        assert(out@ =~= base + (written + expr_text(expr@.args[1], false)));
    } else if is_written(kind) {
        unwrite_expression(out, expr.get_lval(), false);
        unwrite_operator(out, kind);
        unwrite_expression(out, expr.get_rval(), false);
        assert(out@ =~= base + expr_text(expr@, ignore_lval));
    } else {
        match kind {
            AstType::Id => {
                let name = expr.get_name();
                out.append(name.as_str());
            },
            AstType::IntLiteral => {
                write_decimal(out, expr.get_int());
            },
            AstType::StringLiteral => {
                let text = expr.get_string();
                let quoted = quote_string(text.as_str());
                out.append(quoted.as_str());
            },
            AstType::CharLiteral => {
                let quoted = quote_char(expr.get_char());
                out.append(quoted.as_str());
            },
            AstType::BoolLiteral(value) => {
                if value {
                    out.append("true");
                } else {
                    out.append("false");
                }
            },
            AstType::ExprList => {
                unwrite_list(out, expr.get_list());
            },
            _ => {
                assert(out@ =~= base + Seq::<char>::empty());
            },
        }
    }
}

/// Appends the items of a list with `, ` between them.
fn unwrite_list(out: &mut String, items: &Vec<AstExpression>)
    requires
        forall|i: int| 0 <= i < items@.len() ==> expr_complete(#[trigger] expr_views(items@)[i]),
    ensures
        final(out)@ == old(out)@ + list_text(expr_views(items@), items@.len()),
    decreases expr_views(items@), items@.len(),
{
    let ghost base = out@;
    let ghost views = expr_views(items@);
    let mut index: usize = 0;
    assert(out@ =~= base + list_text(views, 0));
    while index < items.len()
        invariant
            index <= items.len(),
            views == expr_views(items@),
            forall|i: int| 0 <= i < items@.len() ==> expr_complete(#[trigger] views[i]),
            out@ == base + list_text(views, index as nat),
        decreases items.len() - index,
    {
        let ghost before = list_text(views, index as nat);
        assert(views[index as int] == items@[index as int]@);
        unwrite_expression(out, &items[index], false);
        let ghost item = expr_text(views[index as int], false);
        assert(out@ =~= base + (before + item));
        if index + 1 < items.len() {
            put(out, ", ", Ghost(base), Ghost(before + item));
        } else {
            assert(out@ =~= base + (before + item + Seq::<char>::empty()));
        }
        index += 1;
    }
}

/// Appends the statements of a sequence, each at the indentation `pad`.
fn unwrite_sequence(out: &mut String, items: &Vec<AstStatement>, pad: &str)
    requires
        all_complete(stmt_views(items@), items@.len()),
    ensures
        final(out)@ == old(out)@ + sequence_text(stmt_views(items@), items@.len(), pad@),
    decreases stmt_views(items@), items@.len(),
{
    let ghost base = out@;
    let ghost views = stmt_views(items@);
    let mut index: usize = 0;
    assert(out@ =~= base + sequence_text(views, 0, pad@));
    while index < items.len()
        invariant
            index <= items.len(),
            views == stmt_views(items@),
            all_complete(views, items@.len()),
            out@ == base + sequence_text(views, index as nat, pad@),
        decreases items.len() - index,
    {
        let ghost before = sequence_text(views, index as nat, pad@);
        assert(views[index as int] == items@[index as int]@);
        proof {
            lemma_complete_at(views, index as nat, items@.len());
        }
        unwrite_statement(out, &items[index], pad);
        assert(out@ =~= base + (before + stmt_text(views[index as int], pad@)));
        index += 1;
    }
}

/// Every statement of a complete sequence is complete.
pub proof fn lemma_complete_at(items: Seq<StmtView>, at: nat, count: nat)
    requires
        at < count <= items.len(),
        all_complete(items, count),
    ensures
        stmt_complete(items[at as int]),
    decreases count,
{
    if count - 1 > at {
        lemma_complete_at(items, at, (count - 1) as nat);
    }
}

/// Appends the statements of a block, one step further in than `pad`.
fn unwrite_block(out: &mut String, block: &AstStatement, pad: &str)
    requires
        all_complete(block@.statements, block@.statements.len()),
    ensures
        final(out)@ == old(out)@ + sequence_text(
            block@.statements,
            block@.statements.len(),
            pad@ + indent_step(),
        ),
    decreases block@.statements, block@.statements.len() + 1,
{
    let mut inner = String::from_str(pad);
    inner.append("    ");
    unwrite_sequence(out, block.get_statements(), inner.as_str());
}

/// Appends a declaration of a variable, behind its indentation.
fn unwrite_declaration(out: &mut String, stmt: &AstStatement)
    requires
        stmt@.kind == AstType::VarDec || stmt@.kind == AstType::ArrayDec,
        expr_complete(stmt@.expr),
    ensures
        final(out)@ == old(out)@ + (if stmt@.kind == AstType::VarDec {
            "var "@ + stmt@.name + " : "@ + data_type_text(stmt@.data_type) + " := "@ + expr_text(
                stmt@.expr,
                true,
            ) + ";\n"@
        } else {
            "var "@ + stmt@.name + " : "@ + data_type_text(stmt@.data_type) + "["@ + expr_text(
                stmt@.expr,
                false,
            ) + "];\n"@
        }),
{
    let ghost base = out@;
    let ghost mut written = Seq::<char>::empty();
    assert(out@ =~= base + written);
    put(out, "var ", Ghost(base), Ghost(written));
    proof {
        written = written + "var "@;
    }
    let name = stmt.get_name();
    put(out, name.as_str(), Ghost(base), Ghost(written));
    proof {
        written = written + name@;
    }
    put(out, " : ", Ghost(base), Ghost(written));
    proof {
        written = written + " : "@;
    }
    unwrite_data_type(out, stmt.get_data_type());
    proof {
        written = written + data_type_text(stmt@.data_type);
        assert(out@ =~= base + written);
    }
    if stmt.get_type() == AstType::VarDec {
        put(out, " := ", Ghost(base), Ghost(written));
        proof {
            written = written + " := "@;
        }
        unwrite_expression(out, stmt.get_expression(), true);
        proof {
            written = written + expr_text(stmt@.expr, true);
            assert(out@ =~= base + written);
        }
        put(out, ";\n", Ghost(base), Ghost(written));
    } else {
        put(out, "[", Ghost(base), Ghost(written));
        proof {
            written = written + "["@;
        }
        unwrite_expression(out, stmt.get_expression(), false);
        proof {
            written = written + expr_text(stmt@.expr, false);
            assert(out@ =~= base + written);
        }
        put(out, "];\n", Ghost(base), Ghost(written));
    }
}

/// Appends a call statement, behind its indentation.
fn unwrite_call(out: &mut String, stmt: &AstStatement)
    requires
        expr_complete(stmt@.expr),
    ensures
        final(out)@ == old(out)@ + (stmt@.name + "("@ + expr_text(stmt@.expr, false) + ");\n"@),
{
    let ghost base = out@;
    let ghost mut written = Seq::<char>::empty();
    assert(out@ =~= base + written);
    let name = stmt.get_name();
    put(out, name.as_str(), Ghost(base), Ghost(written));
    proof {
        written = written + name@;
    }
    put(out, "(", Ghost(base), Ghost(written));
    proof {
        written = written + "("@;
    }
    unwrite_expression(out, stmt.get_expression(), false);
    proof {
        written = written + expr_text(stmt@.expr, false);
        assert(out@ =~= base + written);
    }
    put(out, ");\n", Ghost(base), Ghost(written));
}

/// Appends a loop, behind its indentation.
fn unwrite_while(out: &mut String, stmt: &AstStatement, pad: &str)
    requires
        stmt@.kind == AstType::While,
        stmt_complete(stmt@),
    ensures
        final(out)@ == old(out)@ + ("while "@ + expr_text(stmt@.expr, false) + " do\n"@
            + sequence_text(
            stmt@.statements[0].statements,
            stmt@.statements[0].statements.len(),
            pad@ + indent_step(),
        ) + pad@ + "end\n"@),
    decreases stmt@, 0nat,
{
    let ghost base = out@;
    let ghost mut written = Seq::<char>::empty();
    assert(out@ =~= base + written);
    put(out, "while ", Ghost(base), Ghost(written));
    proof {
        written = written + "while "@;
    }
    unwrite_expression(out, stmt.get_expression(), false);
    proof {
        written = written + expr_text(stmt@.expr, false);
        assert(out@ =~= base + written);
    }
    put(out, " do\n", Ghost(base), Ghost(written));
    proof {
        written = written + " do\n"@;
    }
    unwrite_block(out, stmt.get_block(), pad);
    proof {
        written = written + sequence_text(
            stmt@.statements[0].statements,
            stmt@.statements[0].statements.len(),
            pad@ + indent_step(),
        );
        assert(out@ =~= base + written);
    }
    put(out, pad, Ghost(base), Ghost(written));
    proof {
        written = written + pad@;
    }
    put(out, "end\n", Ghost(base), Ghost(written));
}

/// Appends an `if` or an `elif` with the clauses on its branch list, behind
/// its indentation.
fn unwrite_conditional(out: &mut String, stmt: &AstStatement, pad: &str)
    requires
        stmt@.kind == AstType::If || stmt@.kind == AstType::Elif,
        stmt_complete(stmt@),
    ensures
        final(out)@ == old(out)@ + ((if stmt@.kind == AstType::Elif {
            "elif "@
        } else {
            "if "@
        }) + expr_text(stmt@.expr, false) + " then\n"@ + sequence_text(
            stmt@.statements[0].statements,
            stmt@.statements[0].statements.len(),
            pad@ + indent_step(),
        ) + sequence_text(stmt@.branches, stmt@.branches.len(), pad@) + (if stmt@.kind
            == AstType::If {
            pad@ + "end\n"@
        } else {
            Seq::empty()
        })),
    decreases stmt@, 0nat,
{
    let ghost base = out@;
    let ghost mut written = Seq::<char>::empty();
    assert(out@ =~= base + written);
    if stmt.get_type() == AstType::Elif {
        put(out, "elif ", Ghost(base), Ghost(written));
        proof {
            written = written + "elif "@;
        }
    } else {
        put(out, "if ", Ghost(base), Ghost(written));
        proof {
            written = written + "if "@;
        }
    }
    unwrite_expression(out, stmt.get_expression(), false);
    proof {
        written = written + expr_text(stmt@.expr, false);
        assert(out@ =~= base + written);
    }
    put(out, " then\n", Ghost(base), Ghost(written));
    proof {
        written = written + " then\n"@;
    }
    unwrite_block(out, stmt.get_block(), pad);
    proof {
        written = written + sequence_text(
            stmt@.statements[0].statements,
            stmt@.statements[0].statements.len(),
            pad@ + indent_step(),
        );
        assert(out@ =~= base + written);
    }
    unwrite_sequence(out, stmt.get_branches(), pad);
    proof {
        written = written + sequence_text(stmt@.branches, stmt@.branches.len(), pad@);
        assert(out@ =~= base + written);
    }
    if stmt.get_type() == AstType::If {
        let ghost body = written;
        put(out, pad, Ghost(base), Ghost(written));
        proof {
            written = written + pad@;
        }
        put(out, "end\n", Ghost(base), Ghost(written));
        assert(out@ =~= base + (body + (pad@ + "end\n"@)));
    } else {
        assert(out@ =~= base + (written + Seq::<char>::empty()));
    }
}

/// Appends an `else` clause, behind its indentation.
fn unwrite_else(out: &mut String, stmt: &AstStatement, pad: &str)
    requires
        stmt@.kind == AstType::Else,
        stmt_complete(stmt@),
    ensures
        final(out)@ == old(out)@ + ("else\n"@ + sequence_text(
            stmt@.statements[0].statements,
            stmt@.statements[0].statements.len(),
            pad@ + indent_step(),
        )),
    decreases stmt@, 0nat,
{
    let ghost base = out@;
    out.append("else\n");
    unwrite_block(out, stmt.get_block(), pad);
    assert(out@ =~= base + ("else\n"@ + sequence_text(
        stmt@.statements[0].statements,
        stmt@.statements[0].statements.len(),
        pad@ + indent_step(),
    )));
}

/// Appends a statement at the indentation `pad`.
pub fn unwrite_statement(out: &mut String, stmt: &AstStatement, pad: &str)
    requires
        stmt_complete(stmt@),
    ensures
        final(out)@ == old(out)@ + stmt_text(stmt@, pad@),
    decreases stmt@, 1nat,
{
    let ghost base = out@;
    out.append(pad);
    match stmt.get_type() {
        AstType::VarDec | AstType::ArrayDec => {
            unwrite_declaration(out, stmt);
        },
        AstType::CallStmt => {
            unwrite_call(out, stmt);
        },
        AstType::While => {
            unwrite_while(out, stmt, pad);
        },
        AstType::If | AstType::Elif => {
            unwrite_conditional(out, stmt, pad);
        },
        AstType::Else => {
            unwrite_else(out, stmt, pad);
        },
        _ => {
            out.append("\n");
        },
    }
    assert(out@ =~= base + stmt_text(stmt@, pad@));
}

/// Appends a function.
pub fn unwrite_function(out: &mut String, func: &AstFunction)
    requires
        all_complete(func@.block.statements, func@.block.statements.len()),
    ensures
        final(out)@ == old(out)@ + function_text(func@),
{
    let ghost base = out@;
    let ghost mut written = Seq::<char>::empty();
    assert(out@ =~= base + written);
    put(out, "func ", Ghost(base), Ghost(written));
    proof {
        written = written + "func "@;
    }
    let name = func.get_name();
    put(out, name.as_str(), Ghost(base), Ghost(written));
    proof {
        written = written + name@;
    }
    put(out, " is\n", Ghost(base), Ghost(written));
    proof {
        written = written + " is\n"@;
    }
    unwrite_block(out, func.get_block(), "");
    proof {
        reveal_strlit("");
        assert(""@ + indent_step() =~= indent_step());
        written = written + sequence_text(
            func@.block.statements,
            func@.block.statements.len(),
            indent_step(),
        );
        assert(out@ =~= base + written);
    }
    put(out, "end\n", Ghost(base), Ghost(written));
    proof {
        written = written + "end\n"@;
        assert(written =~= function_text(func@));
    }
}

/// Writes a file back as source text: its functions in order.
pub fn unwrite(file: AstFile) -> (text: String)
    requires
        file_complete(file@),
    ensures
        text@ == file_text(file@),
{
    let mut out = String::new();
    let functions = file.get_functions();
    let mut i: usize = 0;
    assert(out@ =~= functions_text(file@.functions, 0));
    while i < functions.len()
        invariant
            i <= functions.len(),
            function_views(functions@) == file@.functions,
            file_complete(file@),
            out@ == functions_text(file@.functions, i as nat),
        decreases functions.len() - i,
    {
        assert(functions@[i as int]@ == file@.functions[i as int]);
        unwrite_function(&mut out, &functions[i]);
        i += 1;
    }
    out
}

/// Writes a file back as source text if it is complete, and gives `None`
/// if it is not.
pub fn unwrite_checked(file: AstFile) -> (text: Option<String>)
    ensures
        match text {
            Some(written) => file_complete(file@) && written@ == file_text(file@),
            None => !file_complete(file@),
        },
{
    if is_complete(&file) {
        Some(unwrite(file))
    } else {
        None
    }
}

} // verus!
