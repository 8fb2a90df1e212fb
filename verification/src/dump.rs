//! The dump: a syntax tree written out node by node, with the tag of every
//! statement, for a reader who wants to see what the parser built.

use vstd::prelude::*;
use vstd::string::StringExecFns;
use crate::ast::AstExpression;
use crate::ast::AstFile;
use crate::ast::AstFunction;
use crate::ast::AstStatement;
use crate::ast::AstType;
use crate::ast::DataType;
use crate::ast::expr_views;
use crate::ast::ExprView;
use crate::ast::FileView;
use crate::ast::function_views;
use crate::ast::FunctionView;
use crate::ast::stmt_views;
use crate::ast::StmtView;
use crate::unwriter::decimal_text;
use crate::unwriter::expr_complete;
use crate::unwriter::expression_is_complete;
use crate::unwriter::is_written;
use crate::unwriter::is_written_operator;
use crate::unwriter::operator_text;
use crate::unwriter::put;
use crate::unwriter::quote_char;
use crate::unwriter::quote_string;
use crate::unwriter::quoted_char;
use crate::unwriter::quoted_string;
use crate::unwriter::unwrite_operator;
use crate::unwriter::write_decimal;

verus! {

/// The name of a tag as the dump writes it.
pub open spec fn tag_name(kind: AstType) -> Seq<char> {
    match kind {
        AstType::Empty => "None"@,
        AstType::Block => "Block"@,
        AstType::VarDec => "VarDec"@,
        AstType::ArrayDec => "ArrayDec"@,
        AstType::StructDec => "StructDec"@,
        AstType::ExprStmt => "ExprStmt"@,
        AstType::CallStmt => "CallStmt"@,
        AstType::Return => "Return"@,
        AstType::While => "While"@,
        AstType::If => "If"@,
        AstType::Elif => "Elif"@,
        AstType::Else => "Else"@,
        AstType::Break => "Break"@,
        AstType::Continue => "Continue"@,
        AstType::ExprList => "ExprList"@,
        AstType::Assign => "Assign"@,
        AstType::Add => "Add"@,
        AstType::Sub => "Sub"@,
        AstType::Mul => "Mul"@,
        AstType::Div => "Div"@,
        AstType::Mod => "Mod"@,
        AstType::And => "And"@,
        AstType::Or => "Or"@,
        AstType::Xor => "Xor"@,
        AstType::Eq => "Eq"@,
        AstType::Ne => "Ne"@,
        AstType::Gt => "Gt"@,
        AstType::Lt => "Lt"@,
        AstType::Ge => "Ge"@,
        AstType::Le => "Le"@,
        AstType::LGAnd => "LGAnd"@,
        AstType::LGOr => "LGOr"@,
        AstType::Id => "Id"@,
        AstType::Call => "Call"@,
        AstType::ArrayAcc => "ArrayAcc"@,
        AstType::StructAcc => "StructAcc"@,
        AstType::IntLiteral => "IntLiteral"@,
        AstType::CharLiteral => "CharLiteral"@,
        AstType::StringLiteral => "StringLiteral"@,
        AstType::BoolLiteral(value) => if value {
            "BoolLiteral(true)"@
        } else {
            "BoolLiteral(false)"@
        },
    }
}

/// The name of a primitive type as the dump writes it.
pub open spec fn primitive_name(data_type: DataType) -> Seq<char> {
    match data_type {
        DataType::Void => "Void"@,
        DataType::I8 => "I8"@,
        DataType::U8 => "U8"@,
        DataType::I16 => "I16"@,
        DataType::U16 => "U16"@,
        DataType::I32 => "I32"@,
        DataType::U32 => "U32"@,
        DataType::I64 => "I64"@,
        DataType::U64 => "U64"@,
        DataType::String => "String"@,
        DataType::Char => "Char"@,
        DataType::Bool => "Bool"@,
    }
}

/// Appends the name of a tag.
fn write_tag_name(out: &mut String, kind: AstType)
    ensures
        final(out)@ == old(out)@ + tag_name(kind),
{
    match kind {
        AstType::Empty => out.append("None"),
        AstType::Block => out.append("Block"),
        AstType::VarDec => out.append("VarDec"),
        AstType::ArrayDec => out.append("ArrayDec"),
        AstType::StructDec => out.append("StructDec"),
        AstType::ExprStmt => out.append("ExprStmt"),
        AstType::CallStmt => out.append("CallStmt"),
        AstType::Return => out.append("Return"),
        AstType::While => out.append("While"),
        AstType::If => out.append("If"),
        AstType::Elif => out.append("Elif"),
        AstType::Else => out.append("Else"),
        AstType::Break => out.append("Break"),
        AstType::Continue => out.append("Continue"),
        AstType::ExprList => out.append("ExprList"),
        AstType::Assign => out.append("Assign"),
        AstType::Add => out.append("Add"),
        AstType::Sub => out.append("Sub"),
        AstType::Mul => out.append("Mul"),
        AstType::Div => out.append("Div"),
        AstType::Mod => out.append("Mod"),
        AstType::And => out.append("And"),
        AstType::Or => out.append("Or"),
        AstType::Xor => out.append("Xor"),
        AstType::Eq => out.append("Eq"),
        AstType::Ne => out.append("Ne"),
        AstType::Gt => out.append("Gt"),
        AstType::Lt => out.append("Lt"),
        AstType::Ge => out.append("Ge"),
        AstType::Le => out.append("Le"),
        AstType::LGAnd => out.append("LGAnd"),
        AstType::LGOr => out.append("LGOr"),
        AstType::Id => out.append("Id"),
        AstType::Call => out.append("Call"),
        AstType::ArrayAcc => out.append("ArrayAcc"),
        AstType::StructAcc => out.append("StructAcc"),
        AstType::IntLiteral => out.append("IntLiteral"),
        AstType::CharLiteral => out.append("CharLiteral"),
        AstType::StringLiteral => out.append("StringLiteral"),
        AstType::BoolLiteral(value) => if value {
            out.append("BoolLiteral(true)")
        } else {
            out.append("BoolLiteral(false)")
        },
    }
}

/// Appends the name of a primitive type.
fn write_primitive_name(out: &mut String, data_type: DataType)
    ensures
        final(out)@ == old(out)@ + primitive_name(data_type),
{
    match data_type {
        DataType::Void => out.append("Void"),
        DataType::I8 => out.append("I8"),
        DataType::U8 => out.append("U8"),
        DataType::I16 => out.append("I16"),
        DataType::U16 => out.append("U16"),
        DataType::I32 => out.append("I32"),
        DataType::U32 => out.append("U32"),
        DataType::I64 => out.append("I64"),
        DataType::U64 => out.append("U64"),
        DataType::String => out.append("String"),
        DataType::Char => out.append("Char"),
        DataType::Bool => out.append("Bool"),
    }
}

/// An operator as the dump writes it between its operands.
pub open spec fn dump_operator_text(kind: AstType) -> Seq<char> {
    if kind == AstType::Assign {
        " := "@
    } else {
        operator_text(kind)
    }
}

/// What the dump writes for an expression: an operator between its operands
/// in brackets, a list in braces, a name as `ID(..)`, a literal as it is
/// written, and the tag behind `??-> ` for anything else.
pub open spec fn expr_dump(expr: ExprView) -> Seq<char>
    decreases expr, 0nat,
{
    if expr.kind == AstType::Assign || is_written_operator(expr.kind) {
        if expr.args.len() >= 2 {
            "("@ + expr_dump(expr.args[0]) + dump_operator_text(expr.kind) + expr_dump(
                expr.args[1],
            ) + ")"@
        } else {
            Seq::empty()
        }
    } else {
        match expr.kind {
            AstType::ExprList => "{"@ + list_dump(expr.list, expr.list.len()) + "}"@,
            AstType::Id => "ID("@ + expr.text + ")"@,
            AstType::IntLiteral => decimal_text(expr.number as nat),
            AstType::CharLiteral => "'"@ + quoted_char(expr.letter) + "'"@,
            AstType::StringLiteral => quoted_string(expr.text),
            _ => "??-> "@ + tag_name(expr.kind),
        }
    }
}

/// What the dump writes for the first `count` items of a list, with `, `
/// behind each but the last of the list.
pub open spec fn list_dump(items: Seq<ExprView>, count: nat) -> Seq<char>
    decreases items, count,
{
    if count == 0 || count > items.len() {
        Seq::empty()
    } else {
        list_dump(items, (count - 1) as nat) + expr_dump(items[count - 1]) + (if count
            < items.len() {
            ", "@
        } else {
            Seq::empty()
        })
    }
}

/// Whether the dump finds what it reads in a statement: the operands in the
/// expressions and the block of each loop, conditional and clause.
pub open spec fn stmt_printable(stmt: StmtView) -> bool
    decreases stmt, 0nat,
{
    if stmt.kind == AstType::Block {
        all_printable(stmt.statements, stmt.statements.len())
    } else {
        &&& expr_complete(stmt.expr)
        &&& match stmt.kind {
            AstType::While => stmt.statements.len() > 0 && stmt_printable(stmt.statements[0]),
            AstType::If | AstType::Elif | AstType::Else => {
                &&& stmt.statements.len() > 0
                &&& stmt_printable(stmt.statements[0])
                &&& all_printable(stmt.branches, stmt.branches.len())
            },
            _ => true,
        }
    }
}

/// Whether the first `count` statements of a sequence are printable.
pub open spec fn all_printable(items: Seq<StmtView>, count: nat) -> bool
    decreases items, count,
{
    if count == 0 || count > items.len() {
        true
    } else {
        all_printable(items, (count - 1) as nat) && stmt_printable(items[count - 1])
    }
}

/// An indentation of `count` spaces, none where `count` is negative.
pub open spec fn spaces(count: int) -> Seq<char> {
    Seq::new(
        if count > 0 {
            count as nat
        } else {
            0
        },
        |i: int| ' ',
    )
}

/// The indentation that the dump adds for what a statement owns.
pub open spec fn dump_step() -> Seq<char> {
    "  "@
}

/// What the dump writes for a statement at the indentation `pad`. A block
/// writes its statements, each behind the indentation, which the statement
/// then writes once more. Any other statement writes a line with its tag,
/// its type, its name and its expression, then what it owns, two further
/// in, then its clauses; a loop and an `if` end with `end`.
pub open spec fn stmt_dump(stmt: StmtView, pad: Seq<char>) -> Seq<char>
    decreases stmt, 0nat,
{
    if stmt.kind == AstType::Block {
        sequence_dump(stmt.statements, stmt.statements.len(), pad, pad)
    } else {
        pad + tag_name(stmt.kind) + " "@ + primitive_name(stmt.data_type) + " "@ + stmt.name
            + " "@ + expr_dump(stmt.expr) + "\n"@ + (match stmt.kind {
            AstType::While => if stmt.statements.len() > 0 {
                stmt_dump(stmt.statements[0], pad + dump_step()) + pad + "end\n"@
            } else {
                Seq::empty()
            },
            AstType::If | AstType::Elif | AstType::Else => if stmt.statements.len() > 0 {
                stmt_dump(stmt.statements[0], pad + dump_step()) + sequence_dump(
                    stmt.branches,
                    stmt.branches.len(),
                    Seq::empty(),
                    pad,
                ) + (if stmt.kind == AstType::If {
                    pad + "end\n"@
                } else {
                    Seq::empty()
                })
            } else {
                Seq::empty()
            },
            _ => Seq::empty(),
        })
    }
}

/// What the dump writes for the first `count` statements of a sequence:
/// `lead` before each, then the statement at the indentation `pad`.
pub open spec fn sequence_dump(
    items: Seq<StmtView>,
    count: nat,
    lead: Seq<char>,
    pad: Seq<char>,
) -> Seq<char>
    decreases items, count,
{
    if count == 0 || count > items.len() {
        Seq::empty()
    } else {
        sequence_dump(items, (count - 1) as nat, lead, pad) + lead + stmt_dump(
            items[count - 1],
            pad,
        )
    }
}

/// What the dump writes for a function.
pub open spec fn function_dump(func: FunctionView) -> Seq<char> {
    "func "@ + func.name + " is\n"@ + sequence_dump(
        func.block.statements,
        func.block.statements.len(),
        Seq::empty(),
        dump_step(),
    ) + "end\n"@
}

/// What the dump writes for the first `count` functions of a file.
pub open spec fn functions_dump(functions: Seq<FunctionView>, count: nat) -> Seq<char>
    decreases count,
{
    if count == 0 || count > functions.len() {
        Seq::empty()
    } else {
        functions_dump(functions, (count - 1) as nat) + function_dump(functions[count - 1])
    }
}

/// What the dump writes for a file: its name, an empty line, its functions.
pub open spec fn file_dump(file: FileView) -> Seq<char> {
    "FILE "@ + file.name + "\n"@ + "\n"@ + functions_dump(file.functions, file.functions.len())
}

/// Whether the dump finds what it reads in every statement of a file.
pub open spec fn file_printable(file: FileView) -> bool {
    forall|i: int|
        0 <= i < file.functions.len() ==> all_printable(
            (#[trigger] file.functions[i]).block.statements,
            file.functions[i].block.statements.len(),
        )
}

/// Every statement of a printable sequence is printable.
pub proof fn lemma_printable_at(items: Seq<StmtView>, at: nat, count: nat)
    requires
        at < count <= items.len(),
        all_printable(items, count),
    ensures
        stmt_printable(items[at as int]),
    decreases count,
{
    if count - 1 > at {
        lemma_printable_at(items, at, (count - 1) as nat);
    }
}

/// One statement that is not printable makes the sequence not printable.
pub proof fn lemma_not_printable(items: Seq<StmtView>, at: nat, count: nat)
    requires
        at < count <= items.len(),
        !stmt_printable(items[at as int]),
    ensures
        !all_printable(items, count),
    decreases count,
{
    if count - 1 > at {
        lemma_not_printable(items, at, (count - 1) as nat);
    }
}

/// Whether every statement of a sequence is printable.
fn statements_are_printable(items: &Vec<AstStatement>) -> (res: bool)
    ensures
        res == all_printable(stmt_views(items@), items@.len()),
    decreases stmt_views(items@), items@.len(),
{
    let mut i: usize = 0;
    while i < items.len()
        invariant
            i <= items.len(),
            all_printable(stmt_views(items@), i as nat),
        decreases items.len() - i,
    {
        assert(stmt_views(items@)[i as int] == items@[i as int]@);
        if !items[i].is_printable() {
            proof {
                lemma_not_printable(stmt_views(items@), i as nat, items@.len());
            }
            return false;
        }
        i += 1;
    }
    true
}

/// Appends the items of a list with `, ` between them.
fn dump_list(out: &mut String, items: &Vec<AstExpression>)
    requires
        forall|i: int| 0 <= i < items@.len() ==> expr_complete(#[trigger] expr_views(items@)[i]),
    ensures
        final(out)@ == old(out)@ + list_dump(expr_views(items@), items@.len()),
    decreases expr_views(items@), items@.len(),
{
    let ghost base = out@;
    let ghost views = expr_views(items@);
    let mut index: usize = 0;
    assert(out@ =~= base + list_dump(views, 0));
    while index < items.len()
        invariant
            index <= items.len(),
            views == expr_views(items@),
            forall|i: int| 0 <= i < items@.len() ==> expr_complete(#[trigger] views[i]),
            out@ == base + list_dump(views, index as nat),
        decreases items.len() - index,
    {
        let ghost before = list_dump(views, index as nat);
        assert(views[index as int] == items@[index as int]@);
        dump_expression(out, &items[index]);
        let ghost item = expr_dump(views[index as int]);
        assert(out@ =~= base + (before + item));
        if index + 1 < items.len() {
            put(out, ", ", Ghost(base), Ghost(before + item));
        } else {
            assert(out@ =~= base + (before + item + Seq::<char>::empty()));
        }
        index += 1;
    }
}

/// Appends the dump of an expression.
fn dump_expression(out: &mut String, expr: &AstExpression)
    requires
        expr_complete(expr@),
    ensures
        final(out)@ == old(out)@ + expr_dump(expr@),
    decreases expr@, 0nat,
{
    let ghost base = out@;
    let ghost mut written = Seq::<char>::empty();
    assert(out@ =~= base + written);
    let kind = expr.get_type();
    if kind == AstType::Assign || is_written(kind) {
        put(out, "(", Ghost(base), Ghost(written));
        proof {
            written = written + "("@;
        }
        dump_expression(out, expr.get_lval());
        proof {
            written = written + expr_dump(expr@.args[0]);
            assert(out@ =~= base + written);
        }
        if kind == AstType::Assign {
            put(out, " := ", Ghost(base), Ghost(written));
        } else {
            unwrite_operator(out, kind);
        }
        proof {
            written = written + dump_operator_text(kind);
            assert(out@ =~= base + written);
        }
        dump_expression(out, expr.get_rval());
        proof {
            written = written + expr_dump(expr@.args[1]);
            assert(out@ =~= base + written);
        }
        put(out, ")", Ghost(base), Ghost(written));
    } else {
        match kind {
            AstType::ExprList => {
                put(out, "{", Ghost(base), Ghost(written));
                proof {
                    written = written + "{"@;
                }
                dump_list(out, expr.get_list());
                proof {
                    written = written + list_dump(expr@.list, expr@.list.len());
                    assert(out@ =~= base + written);
                }
                put(out, "}", Ghost(base), Ghost(written));
            },
            AstType::Id => {
                put(out, "ID(", Ghost(base), Ghost(written));
                proof {
                    written = written + "ID("@;
                }
                let name = expr.get_name();
                put(out, name.as_str(), Ghost(base), Ghost(written));
                proof {
                    written = written + name@;
                }
                put(out, ")", Ghost(base), Ghost(written));
            },
            AstType::IntLiteral => {
                write_decimal(out, expr.get_int());
            },
            AstType::CharLiteral => {
                put(out, "'", Ghost(base), Ghost(written));
                proof {
                    written = written + "'"@;
                }
                let quoted = quote_char(expr.get_char());
                put(out, quoted.as_str(), Ghost(base), Ghost(written));
                proof {
                    written = written + quoted@;
                }
                put(out, "'", Ghost(base), Ghost(written));
            },
            AstType::StringLiteral => {
                let text = expr.get_string();
                let quoted = quote_string(text.as_str());
                out.append(quoted.as_str());
            },
            _ => {
                put(out, "??-> ", Ghost(base), Ghost(written));
                proof {
                    written = written + "??-> "@;
                }
                write_tag_name(out, kind);
                assert(out@ =~= base + (written + tag_name(kind)));
            },
        }
    }
}

/// Appends the statements of a sequence, `lead` before each.
fn dump_sequence(out: &mut String, items: &Vec<AstStatement>, lead: &str, pad: &str)
    requires
        all_printable(stmt_views(items@), items@.len()),
    ensures
        final(out)@ == old(out)@ + sequence_dump(stmt_views(items@), items@.len(), lead@, pad@),
    decreases stmt_views(items@), items@.len(),
{
    let ghost base = out@;
    let ghost views = stmt_views(items@);
    let mut index: usize = 0;
    assert(out@ =~= base + sequence_dump(views, 0, lead@, pad@));
    while index < items.len()
        invariant
            index <= items.len(),
            views == stmt_views(items@),
            all_printable(views, items@.len()),
            out@ == base + sequence_dump(views, index as nat, lead@, pad@),
        decreases items.len() - index,
    {
        let ghost before = sequence_dump(views, index as nat, lead@, pad@);
        assert(views[index as int] == items@[index as int]@);
        proof {
            lemma_printable_at(views, index as nat, items@.len());
        }
        put(out, lead, Ghost(base), Ghost(before));
        dump_statement(out, &items[index], pad);
        assert(out@ =~= base + (before + lead@ + stmt_dump(views[index as int], pad@)));
        index += 1;
    }
}

/// Appends the line of a statement: its tag, its type, its name and its
/// expression.
fn dump_line(out: &mut String, stmt: &AstStatement, pad: &str)
    requires
        expr_complete(stmt@.expr),
    ensures
        final(out)@ == old(out)@ + (pad@ + tag_name(stmt@.kind) + " "@ + primitive_name(
            stmt@.data_type,
        ) + " "@ + stmt@.name + " "@ + expr_dump(stmt@.expr) + "\n"@),
{
    let ghost base = out@;
    let ghost mut written = Seq::<char>::empty();
    assert(out@ =~= base + written);
    put(out, pad, Ghost(base), Ghost(written));
    proof {
        written = written + pad@;
    }
    write_tag_name(out, stmt.get_type());
    proof {
        written = written + tag_name(stmt@.kind);
        assert(out@ =~= base + written);
    }
    put(out, " ", Ghost(base), Ghost(written));
    proof {
        written = written + " "@;
    }
    write_primitive_name(out, stmt.get_data_type());
    proof {
        written = written + primitive_name(stmt@.data_type);
        assert(out@ =~= base + written);
    }
    put(out, " ", Ghost(base), Ghost(written));
    proof {
        written = written + " "@;
    }
    let name = stmt.get_name();
    put(out, name.as_str(), Ghost(base), Ghost(written));
    proof {
        written = written + name@;
    }
    put(out, " ", Ghost(base), Ghost(written));
    proof {
        written = written + " "@;
    }
    dump_expression(out, stmt.get_expression());
    proof {
        written = written + expr_dump(stmt@.expr);
        assert(out@ =~= base + written);
    }
    put(out, "\n", Ghost(base), Ghost(written));
}

/// Appends what a loop, a conditional or a clause owns: its block, two
/// further in, its clauses, and `end` where `closes` says so.
fn dump_owned(out: &mut String, stmt: &AstStatement, pad: &str, chained: bool, closes: bool)
    requires
        stmt@.statements.len() > 0,
        stmt_printable(stmt@.statements[0]),
        chained ==> all_printable(stmt@.branches, stmt@.branches.len()),
    ensures
        final(out)@ == old(out)@ + (stmt_dump(stmt@.statements[0], pad@ + dump_step()) + (if chained {
            sequence_dump(stmt@.branches, stmt@.branches.len(), Seq::empty(), pad@)
        } else {
            Seq::empty()
        }) + (if closes {
            pad@ + "end\n"@
        } else {
            Seq::empty()
        })),
    decreases stmt@, 0nat,
{
    let ghost base = out@;
    let ghost mut written = Seq::<char>::empty();
    let mut inner = String::from_str(pad);
    inner.append("  ");
    dump_statement(out, stmt.get_block(), inner.as_str());
    proof {
        written = stmt_dump(stmt@.statements[0], pad@ + dump_step());
        assert(out@ =~= base + written);
    }
    if chained {
        dump_sequence(out, stmt.get_branches(), "", pad);
        proof {
            reveal_strlit("");
            assert(""@ =~= Seq::<char>::empty());
            written = written + sequence_dump(
                stmt@.branches,
                stmt@.branches.len(),
                Seq::empty(),
                pad@,
            );
            assert(out@ =~= base + written);
        }
    } else {
        proof {
            written = written + Seq::<char>::empty();
            assert(out@ =~= base + written);
        }
    }
    if closes {
        let ghost body = written;
        put(out, pad, Ghost(base), Ghost(written));
        proof {
            written = written + pad@;
        }
        put(out, "end\n", Ghost(base), Ghost(written));
        assert(out@ =~= base + (body + (pad@ + "end\n"@)));
    } else {
        assert(out@ =~= base + (written + Seq::<char>::empty()));
    }
}

/// Appends the dump of a statement at the indentation `pad`.
fn dump_statement(out: &mut String, stmt: &AstStatement, pad: &str)
    requires
        stmt_printable(stmt@),
    ensures
        final(out)@ == old(out)@ + stmt_dump(stmt@, pad@),
    decreases stmt@, 1nat,
{
    let ghost base = out@;
    let kind = stmt.get_type();
    if kind == AstType::Block {
        dump_sequence(out, stmt.get_statements(), pad, pad);
    } else {
        dump_line(out, stmt, pad);
        let ghost line = pad@ + tag_name(stmt@.kind) + " "@ + primitive_name(stmt@.data_type)
            + " "@ + stmt@.name + " "@ + expr_dump(stmt@.expr) + "\n"@;
        match kind {
            AstType::While => {
                dump_owned(out, stmt, pad, false, true);
            },
            AstType::If => {
                dump_owned(out, stmt, pad, true, true);
            },
            AstType::Elif | AstType::Else => {
                dump_owned(out, stmt, pad, true, false);
            },
            _ => {
                assert(out@ =~= base + (line + Seq::<char>::empty()));
            },
        }
        assert(out@ =~= base + stmt_dump(stmt@, pad@));
    }
}

impl AstExpression {
    /// The dump of the expression.
    pub fn print(&self) -> (text: String)
        requires
            expr_complete(self@),
        ensures
            text@ == expr_dump(self@),
    {
        let mut out = String::new();
        dump_expression(&mut out, self);
        assert(out@ =~= expr_dump(self@));
        out
    }

    /// Whether every operator in the expression that is written between
    /// operands has its two operands.
    pub fn is_complete(&self) -> (res: bool)
        ensures
            res == expr_complete(self@),
    {
        expression_is_complete(self)
    }
}

impl AstStatement {
    /// The dump of the statement, `index` spaces in (none where `index` is
    /// negative).
    pub fn print(&self, index: i32) -> (text: String)
        requires
            stmt_printable(self@),
        ensures
            text@ == stmt_dump(self@, spaces(index as int)),
    {
        let mut pad = String::new();
        let mut i: i32 = 0;
        assert(pad@ =~= spaces(0));
        while i < index
            invariant
                0 <= i,
                i <= index || (index < 0 && i == 0),
                pad@ == spaces(i as int),
            decreases index - i,
        {
            crate::lex::push_char(&mut pad, ' ');
            assert(pad@ =~= spaces(i + 1));
            i += 1;
        }
        assert(pad@ =~= spaces(index as int));
        let mut out = String::new();
        dump_statement(&mut out, self, pad.as_str());
        assert(out@ =~= stmt_dump(self@, pad@));
        out
    }

    /// Whether the dump finds what it reads in the statement.
    pub fn is_printable(&self) -> (res: bool)
        ensures
            res == stmt_printable(self@),
        decreases self@, 0nat,
    {
        let kind = self.get_type();
        if kind == AstType::Block {
            statements_are_printable(self.get_statements())
        } else {
            if !expression_is_complete(self.get_expression()) {
                return false;
            }
            match kind {
                AstType::While => {
                    self.get_statements().len() > 0 && self.get_block().is_printable()
                },
                AstType::If | AstType::Elif | AstType::Else => {
                    self.get_statements().len() > 0 && self.get_block().is_printable()
                        && statements_are_printable(self.get_branches())
                },
                _ => true,
            }
        }
    }
}

impl AstFunction {
    /// The dump of the function.
    pub fn print(&self) -> (text: String)
        requires
            all_printable(self@.block.statements, self@.block.statements.len()),
        ensures
            text@ == function_dump(self@),
    {
        let mut out = String::new();
        let ghost mut written = Seq::<char>::empty();
        assert(out@ =~= Seq::<char>::empty() + written);
        put(&mut out, "func ", Ghost(Seq::empty()), Ghost(written));
        proof {
            written = written + "func "@;
        }
        let name = self.get_name();
        put(&mut out, name.as_str(), Ghost(Seq::empty()), Ghost(written));
        proof {
            written = written + name@;
        }
        put(&mut out, " is\n", Ghost(Seq::empty()), Ghost(written));
        proof {
            written = written + " is\n"@;
        }
        dump_sequence(&mut out, self.get_block().get_statements(), "", "  ");
        proof {
            reveal_strlit("");
            assert(""@ =~= Seq::<char>::empty());
            written = written + sequence_dump(
                self@.block.statements,
                self@.block.statements.len(),
                Seq::empty(),
                dump_step(),
            );
            assert(out@ =~= Seq::<char>::empty() + written);
        }
        put(&mut out, "end\n", Ghost(Seq::empty()), Ghost(written));
        assert(out@ =~= function_dump(self@));
        out
    }

    /// Whether the dump finds what it reads in the function.
    pub fn is_printable(&self) -> (res: bool)
        ensures
            res == all_printable(self@.block.statements, self@.block.statements.len()),
    {
        statements_are_printable(self.get_block().get_statements())
    }
}

impl AstFile {
    /// The dump of the file.
    pub fn print(&self) -> (text: String)
        requires
            file_printable(self@),
        ensures
            text@ == file_dump(self@),
    {
        let mut out = String::new();
        out.append("FILE ");
        let name = self.get_name();
        out.append(name.as_str());
        out.append("\n");
        out.append("\n");
        let ghost head = "FILE "@ + self@.name + "\n"@ + "\n"@;
        assert(out@ =~= head);
        let functions = self.get_functions();
        let mut i: usize = 0;
        assert(out@ =~= head + functions_dump(self@.functions, 0));
        while i < functions.len()
            invariant
                i <= functions.len(),
                function_views(functions@) == self@.functions,
                file_printable(self@),
                out@ == head + functions_dump(self@.functions, i as nat),
            decreases functions.len() - i,
        {
            assert(functions@[i as int]@ == self@.functions[i as int]);
            let text = functions[i].print();
            let ghost before = functions_dump(self@.functions, i as nat);
            put(&mut out, text.as_str(), Ghost(head), Ghost(before));
            i += 1;
        }
        out
    }

    /// Whether the dump finds what it reads in every statement of the file.
    pub fn is_printable(&self) -> (res: bool)
        ensures
            res == file_printable(self@),
    {
        let functions = self.get_functions();
        let mut i: usize = 0;
        while i < functions.len()
            invariant
                i <= functions.len(),
                function_views(functions@) == self@.functions,
                forall|j: int|
                    0 <= j < i ==> all_printable(
                        (#[trigger] self@.functions[j]).block.statements,
                        self@.functions[j].block.statements.len(),
                    ),
            decreases functions.len() - i,
        {
            assert(functions@[i as int]@ == self@.functions[i as int]);
            if !functions[i].is_printable() {
                return false;
            }
            i += 1;
        }
        true
    }
}

} // verus!
