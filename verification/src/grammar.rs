//! The grammar: what each builder of the parser makes of a stream of tokens.
//!
//! A stream is a sequence of tokens; past its end it gives `Eof` for ever.
//! Every function here takes the stream that a builder starts on and says
//! what the builder builds, what it reports and which stream it leaves.

use vstd::prelude::*;
use crate::ast::ArgView;
use crate::ast::AstType;
use crate::ast::DataType;
use crate::ast::ExprView;
use crate::ast::FunctionView;
use crate::ast::StmtView;
use crate::ast::StructView;
use crate::diagnostic::DiagnosticView;
use crate::diagnostic::Problem;
use crate::lex::first_token;
use crate::lex::rest_tokens;
use crate::lex::TokenView;

verus! {

/// The report of one problem.
pub open spec fn report(problem: Problem, token: TokenView) -> Seq<DiagnosticView> {
    seq![DiagnosticView { problem, token }]
}

/// The stream after a builder has looked at its head and has not taken it:
/// the same stream, but that an `Eof` is not put back.
pub open spec fn put_back(tokens: Seq<TokenView>) -> Seq<TokenView> {
    if first_token(tokens) is Eof {
        rest_tokens(tokens)
    } else {
        tokens
    }
}

/// On a stream that holds no `Eof`, such as the scanner gives for a text,
/// nothing is lost when a token is put back.
pub proof fn lemma_put_back_keeps(tokens: Seq<TokenView>)
    requires
        forall|i: int| 0 <= i < tokens.len() ==> !(#[trigger] tokens[i] is Eof),
    ensures
        put_back(tokens) == tokens,
{
    if tokens.len() > 0 {
        assert(!(tokens[0] is Eof));
    }
}

/// `rest`, which a builder left of `bound`. A builder never leaves more than
/// it was given (`lemma_expression_rest`, `lemma_block_rest`), so this is
/// `rest`; the bound is what shows that the grammar's recursion ends.
pub open spec fn within(rest: Seq<TokenView>, bound: Seq<TokenView>) -> Seq<TokenView> {
    if rest.len() <= bound.len() {
        rest
    } else {
        bound
    }
}

// ---------------------------------------------------------------------------
// Data types
// ---------------------------------------------------------------------------
/// The primitive type that a token names.
pub open spec fn data_type_of(token: TokenView) -> Option<DataType> {
    match token {
        TokenView::I8 => Some(DataType::I8),
        TokenView::U8 => Some(DataType::U8),
        TokenView::I16 => Some(DataType::I16),
        TokenView::U16 => Some(DataType::U16),
        TokenView::I32 => Some(DataType::I32),
        TokenView::U32 => Some(DataType::U32),
        TokenView::I64 => Some(DataType::I64),
        TokenView::U64 => Some(DataType::U64),
        TokenView::String => Some(DataType::String),
        TokenView::Char => Some(DataType::Char),
        TokenView::Bool => Some(DataType::Bool),
        _ => None,
    }
}

/// What the data-type builder makes of a stream.
pub struct TypeParse {
    pub data_type: DataType,
    pub diags: Seq<DiagnosticView>,
    pub rest: Seq<TokenView>,
}

/// The data-type builder takes one token: the type that it names, or `Void`
/// and a report where it names none.
pub open spec fn parse_data_type(tokens: Seq<TokenView>) -> TypeParse {
    let token = first_token(tokens);
    match data_type_of(token) {
        Some(data_type) => TypeParse { data_type, diags: Seq::empty(), rest: rest_tokens(tokens) },
        None => TypeParse {
            data_type: DataType::Void,
            diags: report(Problem::UnknownDataType, token),
            rest: rest_tokens(tokens),
        },
    }
}

// ---------------------------------------------------------------------------
// Expressions
// ---------------------------------------------------------------------------
/// The operator that a token stands for.
pub open spec fn operator_kind(token: TokenView) -> Option<AstType> {
    match token {
        TokenView::Assign => Some(AstType::Assign),
        TokenView::Add => Some(AstType::Add),
        TokenView::Sub => Some(AstType::Sub),
        TokenView::Mul => Some(AstType::Mul),
        TokenView::Div => Some(AstType::Div),
        TokenView::Mod => Some(AstType::Mod),
        TokenView::And => Some(AstType::And),
        TokenView::Or => Some(AstType::Or),
        TokenView::Xor => Some(AstType::Xor),
        TokenView::Eq => Some(AstType::Eq),
        TokenView::Ne => Some(AstType::Ne),
        TokenView::Gt => Some(AstType::Gt),
        TokenView::Ge => Some(AstType::Ge),
        TokenView::Lt => Some(AstType::Lt),
        TokenView::Le => Some(AstType::Le),
        TokenView::LGAnd => Some(AstType::LGAnd),
        TokenView::LGOr => Some(AstType::LGOr),
        _ => None,
    }
}

/// The leaf that a literal token stands for.
pub open spec fn literal_expr(token: TokenView) -> Option<ExprView> {
    match token {
        TokenView::IntL(value) => Some(ExprView::int_literal(value)),
        TokenView::StringL(text) => Some(ExprView::named(AstType::StringLiteral, text)),
        TokenView::CharL(value) => Some(ExprView::char_literal(value)),
        TokenView::True => Some(ExprView::new(AstType::BoolLiteral(true))),
        TokenView::False => Some(ExprView::new(AstType::BoolLiteral(false))),
        _ => None,
    }
}

/// The operand on top of the stack, or the placeholder where there is none.
pub open spec fn top_operand(stack: Seq<ExprView>) -> ExprView {
    if stack.len() > 0 {
        stack.last()
    } else {
        ExprView::empty()
    }
}

/// The stack without the operand on top.
pub open spec fn without_top(stack: Seq<ExprView>) -> Seq<ExprView> {
    if stack.len() > 0 {
        stack.drop_last()
    } else {
        stack
    }
}

/// The report that taking an operand from the stack brings: none, unless the
/// stack is empty.
pub open spec fn missing_operand(stack: Seq<ExprView>, token: TokenView) -> Seq<DiagnosticView> {
    if stack.len() > 0 {
        Seq::empty()
    } else {
        report(Problem::MissingOperand, token)
    }
}

/// An operand stack and what was reported on the way to it.
pub struct Reduced {
    pub stack: Seq<ExprView>,
    pub diags: Seq<DiagnosticView>,
}

/// One operator takes its operands from the stack and goes onto it as an
/// operand. An assignment takes one, its right operand: its left operand
/// comes from the statement. Every other operator takes two, the right one
/// first, and holds them left before right.
pub open spec fn apply_operator(stack: Seq<ExprView>, op: ExprView) -> Reduced {
    let right = top_operand(stack);
    let below = without_top(stack);
    if op.kind == AstType::Assign {
        Reduced {
            stack: below.push(op.with_rval(right)),
            diags: missing_operand(stack, TokenView::Unknown),
        }
    } else {
        let left = top_operand(below);
        Reduced {
            stack: without_top(below).push(op.with_lval(left).with_rval(right)),
            diags: missing_operand(stack, TokenView::Unknown) + missing_operand(
                below,
                TokenView::Unknown,
            ),
        }
    }
}

/// The reduction: the operators leave their stack one by one, the one that
/// came last first, and each is applied to the operand stack.
pub open spec fn reduce(stack: Seq<ExprView>, ops: Seq<ExprView>) -> Reduced
    decreases ops.len(),
{
    if ops.len() == 0 {
        Reduced { stack, diags: Seq::empty() }
    } else {
        let first = apply_operator(stack, ops.last());
        let others = reduce(first.stack, ops.drop_last());
        Reduced { stack: others.stack, diags: first.diags + others.diags }
    }
}

/// The stack after a reduction is not empty if the stack before was not.
pub proof fn lemma_reduce_keeps_operands(stack: Seq<ExprView>, ops: Seq<ExprView>)
    requires
        stack.len() > 0,
    ensures
        reduce(stack, ops).stack.len() > 0,
    decreases ops.len(),
{
    if ops.len() > 0 {
        lemma_reduce_keeps_operands(apply_operator(stack, ops.last()).stack, ops.drop_last());
    }
}

/// Where the expression builder stands: the two stacks, the items of the
/// list that it has closed with a `,`, whether there was any `,`, and what it
/// has reported.
pub struct ExprState {
    pub stack: Seq<ExprView>,
    pub ops: Seq<ExprView>,
    pub items: Seq<ExprView>,
    pub is_list: bool,
    pub diags: Seq<DiagnosticView>,
}

impl ExprState {
    pub open spec fn start() -> ExprState {
        ExprState {
            stack: Seq::empty(),
            ops: Seq::empty(),
            items: Seq::empty(),
            is_list: false,
            diags: Seq::empty(),
        }
    }

    pub open spec fn operand(self, expr: ExprView) -> ExprState {
        ExprState { stack: self.stack.push(expr), ..self }
    }

    pub open spec fn operator(self, kind: AstType) -> ExprState {
        ExprState { ops: self.ops.push(ExprView::new(kind)), ..self }
    }

    pub open spec fn reported(self, diags: Seq<DiagnosticView>) -> ExprState {
        ExprState { diags: self.diags + diags, ..self }
    }

    /// A `,` reduces what stands on the two stacks and closes an item of the
    /// list with the operand that this leaves on top.
    pub open spec fn comma(self) -> ExprState {
        let reduced = reduce(self.stack, self.ops);
        ExprState {
            stack: without_top(reduced.stack),
            ops: Seq::empty(),
            items: self.items.push(top_operand(reduced.stack)),
            is_list: true,
            diags: self.diags + reduced.diags + missing_operand(reduced.stack, TokenView::Comma),
        }
    }

    /// What a token that stands for itself does: a literal is an operand, an
    /// operator goes onto its stack, a `,` closes an item, and any other
    /// token is reported and passed over.
    pub open spec fn plain(self, token: TokenView) -> ExprState {
        if token is Comma {
            self.comma()
        } else if literal_expr(token) is Some {
            self.operand(literal_expr(token)->0)
        } else if operator_kind(token) is Some {
            self.operator(operator_kind(token)->0)
        } else {
            self.reported(report(Problem::InvalidExpressionToken, token))
        }
    }

    /// The end of the expression, at the stop token or at the end of the
    /// stream. Where there was a `,` and the stack holds an operand, the last
    /// item of the list is first closed like the others. Then a last
    /// reduction; the result is the list if there was any `,`, else the
    /// operand on top, else the placeholder.
    pub open spec fn finish(self) -> ExprState {
        let closed = if self.is_list && self.stack.len() > 0 {
            let reduced = reduce(self.stack, self.ops);
            ExprState {
                stack: without_top(reduced.stack),
                ops: Seq::empty(),
                items: self.items.push(top_operand(reduced.stack)),
                is_list: true,
                diags: self.diags + reduced.diags,
            }
        } else {
            self
        };
        let reduced = reduce(closed.stack, closed.ops);
        ExprState {
            stack: reduced.stack,
            ops: Seq::empty(),
            diags: closed.diags + reduced.diags,
            ..closed
        }
    }

    /// The expression that a finished state stands for.
    pub open spec fn result(self) -> ExprView {
        if self.is_list {
            ExprView::list_of(self.items)
        } else {
            top_operand(self.stack)
        }
    }
}

/// What the expression builder makes of a stream.
pub struct ExprParse {
    pub expr: ExprView,
    pub diags: Seq<DiagnosticView>,
    pub rest: Seq<TokenView>,
}

/// A state of the expression builder and the stream that it has left.
pub struct ExprRun {
    pub state: ExprState,
    pub rest: Seq<TokenView>,
}

/// The member name behind the `.` of a member access, empty where the token
/// is no identifier.
pub open spec fn member_name(token: TokenView) -> Seq<char> {
    match token {
        TokenView::Id(name) => name,
        _ => Seq::empty(),
    }
}

/// What a token behind a `.` brings to report.
pub open spec fn member_report(token: TokenView) -> Seq<DiagnosticView> {
    match token {
        TokenView::Id(_) => Seq::empty(),
        _ => report(Problem::ExpectedItemName, token),
    }
}

/// What an identifier stands for, with the tokens that follow it: a call
/// where `(` follows, with what stands up to the matching `)` as its
/// argument; an array access where `[` follows, up to `]`; a member access
/// where `.` follows, which takes one more token as the member's name; and
/// the identifier alone otherwise, with the stream left as it is.
#[verifier::opaque]
pub open spec fn parse_primary(name: Seq<char>, tokens: Seq<TokenView>) -> ExprParse
    decreases tokens.len(), 2nat,
{
    let after = rest_tokens(tokens);
    match first_token(tokens) {
        TokenView::LParen => {
            let inner = parse_expression(after, TokenView::RParen);
            ExprParse {
                expr: ExprView::applied(AstType::Call, name, inner.expr),
                diags: inner.diags,
                rest: inner.rest,
            }
        },
        TokenView::LBracket => {
            let inner = parse_expression(after, TokenView::RBracket);
            ExprParse {
                expr: ExprView::applied(AstType::ArrayAcc, name, inner.expr),
                diags: inner.diags,
                rest: inner.rest,
            }
        },
        TokenView::Dot => {
            let member = first_token(after);
            ExprParse {
                expr: ExprView::applied(
                    AstType::StructAcc,
                    name,
                    ExprView::named(AstType::Id, member_name(member)),
                ),
                diags: member_report(member),
                rest: rest_tokens(after),
            }
        },
        _ => ExprParse {
            expr: ExprView::named(AstType::Id, name),
            diags: Seq::empty(),
            rest: put_back(tokens),
        },
    }
}

/// The expression builder's loop: token by token up to the stop token or the
/// end of the stream, either of which it takes.
///
/// `(` builds what stands up to the matching `)` and has it as one operand;
/// an identifier is an operand together with what `parse_primary` takes
/// behind it; every other token does what `ExprState::plain` says.
#[verifier::opaque]
pub open spec fn expr_loop(tokens: Seq<TokenView>, stop: TokenView, state: ExprState) -> ExprRun
    decreases tokens.len(), 0nat,
{
    let token = first_token(tokens);
    let rest = rest_tokens(tokens);
    if token == stop || token is Eof {
        ExprRun { state, rest }
    } else {
        match token {
            TokenView::LParen => {
                let inner = parse_expression(rest, TokenView::RParen);
                expr_loop(
                    within(inner.rest, rest),
                    stop,
                    state.reported(inner.diags).operand(inner.expr),
                )
            },
            TokenView::Id(name) => {
                let inner = parse_primary(name, rest);
                expr_loop(
                    within(inner.rest, rest),
                    stop,
                    state.reported(inner.diags).operand(inner.expr),
                )
            },
            _ => expr_loop(rest, stop, state.plain(token)),
        }
    }
}

/// What the expression builder makes of a stream, for a given stop token.
#[verifier::opaque]
pub open spec fn parse_expression(tokens: Seq<TokenView>, stop: TokenView) -> ExprParse
    decreases tokens.len(), 1nat,
{
    let run = expr_loop(tokens, stop, ExprState::start());
    let end = run.state.finish();
    ExprParse { expr: end.result(), diags: end.diags, rest: run.rest }
}

// ---------------------------------------------------------------------------
// Statements
// ---------------------------------------------------------------------------
/// What a statement builder makes of a stream.
pub struct StmtParse {
    pub stmt: StmtView,
    pub diags: Seq<DiagnosticView>,
    pub rest: Seq<TokenView>,
}

/// What the builder of a named constant makes of a stream.
pub struct ArgParse {
    pub arg: ArgView,
    pub diags: Seq<DiagnosticView>,
    pub rest: Seq<TokenView>,
}

/// The name that an identifier token carries, empty for any other token.
pub open spec fn name_of(token: TokenView) -> Seq<char> {
    match token {
        TokenView::Id(name) => name,
        _ => Seq::empty(),
    }
}

/// The report of `problem` unless the token is an identifier.
pub open spec fn unless_id(token: TokenView, problem: Problem) -> Seq<DiagnosticView> {
    match token {
        TokenView::Id(_) => Seq::empty(),
        _ => report(problem, token),
    }
}

/// The report of `problem` unless the token is `wanted`.
pub open spec fn unless(token: TokenView, wanted: TokenView, problem: Problem) -> Seq<
    DiagnosticView,
> {
    if token == wanted {
        Seq::empty()
    } else {
        report(problem, token)
    }
}

/// A declaration, behind `var`: a name, `:`, a type, then either `[`, the
/// size up to `]` and `;` (an array), or the initializer up to `;`, whose
/// left operand is the declared name. Without a name, without the `:` or
/// without the `;` of an array the statement is the placeholder.
#[verifier::opaque]
pub open spec fn parse_variable_dec(tokens: Seq<TokenView>) -> StmtParse {
    let name_token = first_token(tokens);
    let after_name = rest_tokens(tokens);
    let colon = first_token(after_name);
    let after_colon = rest_tokens(after_name);
    if !(name_token is Id) {
        StmtParse {
            stmt: StmtView::new(AstType::Empty),
            diags: report(Problem::ExpectedVariableName, name_token),
            rest: after_name,
        }
    } else if colon != TokenView::Colon {
        StmtParse {
            stmt: StmtView::new(AstType::Empty),
            diags: report(Problem::ExpectedColon, colon),
            rest: after_colon,
        }
    } else {
        let name = name_of(name_token);
        let ty = parse_data_type(after_colon);
        if first_token(ty.rest) is LBracket {
            let size = parse_expression(rest_tokens(ty.rest), TokenView::RBracket);
            let end = first_token(size.rest);
            if end is SemiColon {
                StmtParse {
                    stmt: StmtView {
                        name,
                        data_type: ty.data_type,
                        expr: size.expr,
                        ..StmtView::new(AstType::ArrayDec)
                    },
                    diags: ty.diags + size.diags,
                    rest: rest_tokens(size.rest),
                }
            } else {
                StmtParse {
                    stmt: StmtView::new(AstType::Empty),
                    diags: ty.diags + size.diags + report(Problem::ExpectedDeclarationEnd, end),
                    rest: rest_tokens(size.rest),
                }
            }
        } else {
            let init = parse_expression(put_back(ty.rest), TokenView::SemiColon);
            StmtParse {
                stmt: StmtView {
                    name,
                    data_type: ty.data_type,
                    expr: init.expr.with_lval(ExprView::named(AstType::Id, name)),
                    ..StmtView::new(AstType::VarDec)
                },
                diags: ty.diags + init.diags,
                rest: init.rest,
            }
        }
    }
}

/// A named constant, behind `const`: a name, `:`, a type, `:=` and the value
/// up to `;`. What is missing is reported and passed over.
#[verifier::opaque]
pub open spec fn parse_const(tokens: Seq<TokenView>) -> ArgParse {
    let name_token = first_token(tokens);
    let after_name = rest_tokens(tokens);
    let colon = first_token(after_name);
    let ty = parse_data_type(rest_tokens(after_name));
    let assign = first_token(ty.rest);
    let value = parse_expression(rest_tokens(ty.rest), TokenView::SemiColon);
    ArgParse {
        arg: ArgView { name: name_of(name_token), data_type: ty.data_type, expr: value.expr },
        diags: unless_id(name_token, Problem::ExpectedVariableName) + unless(
            colon,
            TokenView::Colon,
            Problem::ExpectedColon,
        ) + ty.diags + unless(assign, TokenView::Assign, Problem::ExpectedAssign) + value.diags,
        rest: value.rest,
    }
}

/// A structure variable, behind `struct`: a name, `:` and the structure's
/// name up to `;`.
#[verifier::opaque]
pub open spec fn parse_struct_dec(tokens: Seq<TokenView>) -> StmtParse {
    let name_token = first_token(tokens);
    let after_name = rest_tokens(tokens);
    let colon = first_token(after_name);
    let of = parse_expression(rest_tokens(after_name), TokenView::SemiColon);
    StmtParse {
        stmt: StmtView {
            name: name_of(name_token),
            expr: of.expr,
            ..StmtView::new(AstType::StructDec)
        },
        diags: unless_id(name_token, Problem::ExpectedStructVariableName) + unless(
            colon,
            TokenView::Colon,
            Problem::ExpectedStructColon,
        ) + of.diags,
        rest: of.rest,
    }
}

/// The target that a statement starts with: the identifier `name` and what
/// follows it at the head of `tokens`.
pub struct TargetParse {
    /// The target, as the left operand of an assignment.
    pub target: ExprView,
    pub diags: Seq<DiagnosticView>,
    pub rest: Seq<TokenView>,
}

/// `[` makes the target an array element, `.` a member; anything else is left
/// in the stream and the target is the bare identifier.
#[verifier::opaque]
pub open spec fn parse_target(name: Seq<char>, tokens: Seq<TokenView>) -> TargetParse {
    let after = rest_tokens(tokens);
    match first_token(tokens) {
        TokenView::LBracket => {
            let index = parse_expression(after, TokenView::RBracket);
            TargetParse {
                target: ExprView::applied(AstType::ArrayAcc, name, index.expr),
                diags: index.diags,
                rest: index.rest,
            }
        },
        TokenView::Dot => {
            let member = first_token(after);
            TargetParse {
                target: ExprView::applied(
                    AstType::StructAcc,
                    name,
                    ExprView::named(AstType::Id, member_name(member)),
                ),
                diags: member_report(member),
                rest: rest_tokens(after),
            }
        },
        _ => TargetParse {
            target: ExprView::applied(AstType::Id, name, ExprView::empty()),
            diags: Seq::empty(),
            rest: put_back(tokens),
        },
    }
}

/// A statement that starts with the identifier `name`: the target, then an
/// expression up to `;`. Where that is an assignment the target becomes its
/// left operand; otherwise the statement is a call of `name` with the
/// expression as its arguments.
#[verifier::opaque]
pub open spec fn parse_id_statement(name: Seq<char>, tokens: Seq<TokenView>) -> StmtParse {
    let target = parse_target(name, tokens);
    let value = parse_expression(target.rest, TokenView::SemiColon);
    StmtParse {
        stmt: if value.expr.kind == AstType::Assign {
            StmtView::with_expr(AstType::ExprStmt, value.expr.with_lval(target.target))
        } else {
            StmtView { name, expr: value.expr, ..StmtView::new(AstType::CallStmt) }
        },
        diags: target.diags + value.diags,
        rest: value.rest,
    }
}

/// Where the block builder stands: the block so far, the named constants
/// that it has met and what it has reported.
pub struct BlockState {
    pub block: StmtView,
    pub consts: Seq<ArgView>,
    pub diags: Seq<DiagnosticView>,
}

impl BlockState {
    pub open spec fn start() -> BlockState {
        BlockState {
            block: StmtView::new(AstType::Block),
            consts: Seq::empty(),
            diags: Seq::empty(),
        }
    }

    pub open spec fn statement(self, stmt: StmtView) -> BlockState {
        BlockState {
            block: StmtView { statements: self.block.statements.push(stmt), ..self.block },
            ..self
        }
    }

    pub open spec fn branches(self, clauses: Seq<StmtView>) -> BlockState {
        BlockState {
            block: StmtView { branches: self.block.branches + clauses, ..self.block },
            ..self
        }
    }

    pub open spec fn reported(self, diags: Seq<DiagnosticView>) -> BlockState {
        BlockState { diags: self.diags + diags, ..self }
    }

    pub open spec fn constants(self, consts: Seq<ArgView>) -> BlockState {
        BlockState { consts: self.consts + consts, ..self }
    }

    /// The state after a builder inside the block has built a statement.
    pub open spec fn built(self, parse: StmtParse) -> BlockState {
        self.reported(parse.diags).statement(parse.stmt)
    }

    /// The state after a whole inner block was built.
    pub open spec fn inner(self, body: BlockParse) -> BlockState {
        self.constants(body.consts).reported(body.diags)
    }
}

/// What the block builder makes of a stream.
pub struct BlockParse {
    pub block: StmtView,
    pub consts: Seq<ArgView>,
    pub diags: Seq<DiagnosticView>,
    pub rest: Seq<TokenView>,
}

/// A loop: the condition and the block that it owns.
pub open spec fn while_statement(condition: ExprView, body: StmtView) -> StmtView {
    StmtView { expr: condition, statements: seq![body], ..StmtView::new(AstType::While) }
}

/// An `if`: the condition, the block that it owns, and as its branch list
/// the clauses that ended that block.
pub open spec fn if_statement(condition: ExprView, body: StmtView) -> StmtView {
    StmtView {
        expr: condition,
        statements: seq![body],
        branches: body.branches,
        ..StmtView::new(AstType::If)
    }
}

/// An `elif` clause: the condition and the block that it owns.
pub open spec fn elif_statement(condition: ExprView, body: StmtView) -> StmtView {
    StmtView { expr: condition, statements: seq![body], ..StmtView::new(AstType::Elif) }
}

/// An `else` clause: the block that it owns.
pub open spec fn else_statement(body: StmtView) -> StmtView {
    StmtView { statements: seq![body], ..StmtView::new(AstType::Else) }
}

/// `break` or `continue`, which wants a `;` behind it.
pub open spec fn parse_jump(kind: AstType, tokens: Seq<TokenView>) -> StmtParse {
    StmtParse {
        stmt: StmtView::new(kind),
        diags: unless(first_token(tokens), TokenView::SemiColon, Problem::ExpectedTerminator),
        rest: rest_tokens(tokens),
    }
}

/// `return` and its value up to `;`.
pub open spec fn parse_return(tokens: Seq<TokenView>) -> StmtParse {
    let value = parse_expression(tokens, TokenView::SemiColon);
    StmtParse {
        stmt: StmtView::with_expr(AstType::Return, value.expr),
        diags: value.diags,
        rest: value.rest,
    }
}

/// The statement that starts with `token` and holds no block, built from the
/// stream behind `token`; `None` where `token` starts no such statement.
pub open spec fn parse_simple_statement(token: TokenView, tokens: Seq<TokenView>) -> Option<
    StmtParse,
> {
    match token {
        TokenView::Return => Some(parse_return(tokens)),
        TokenView::Var => Some(parse_variable_dec(tokens)),
        TokenView::Struct => Some(parse_struct_dec(tokens)),
        TokenView::Id(name) => Some(parse_id_statement(name, tokens)),
        TokenView::Break => Some(parse_jump(AstType::Break, tokens)),
        TokenView::Continue => Some(parse_jump(AstType::Continue, tokens)),
        _ => None,
    }
}

/// The block builder's loop: statement by statement up to `end` or the end
/// of the stream, either of which it takes.
///
/// `while` and `if` own the block that follows their condition. `elif` and
/// `else` end the block that they stand in: the clause goes to the branch
/// list of that block, and behind an `elif` so do the clauses that ended the
/// `elif`'s own block, so that the block of an `if` ends up with the whole
/// chain in order. The `end` that closes the last clause closes the chain.
/// A named constant goes to the side list, not into the block. Any other
/// token is reported and passed over.
#[verifier::opaque]
pub open spec fn block_loop(tokens: Seq<TokenView>, state: BlockState) -> BlockParse
    decreases tokens.len(), 0nat,
{
    let token = first_token(tokens);
    let rest = rest_tokens(tokens);
    if token is End || token is Eof {
        BlockParse { block: state.block, consts: state.consts, diags: state.diags, rest }
    } else {
        match token {
            TokenView::Const => {
                let c = parse_const(rest);
                proof {
                    lemma_const_rest(rest);
                }
                block_loop(c.rest, state.reported(c.diags).constants(seq![c.arg]))
            },
            TokenView::While => {
                let condition = parse_expression(rest, TokenView::Do);
                proof {
                    lemma_expression_rest(rest, TokenView::Do);
                }
                let body = parse_block(condition.rest);
                block_loop(
                    within(body.rest, condition.rest),
                    state.reported(condition.diags).inner(body).statement(
                        while_statement(condition.expr, body.block),
                    ),
                )
            },
            TokenView::If => {
                let condition = parse_expression(rest, TokenView::Then);
                proof {
                    lemma_expression_rest(rest, TokenView::Then);
                }
                let body = parse_block(condition.rest);
                block_loop(
                    within(body.rest, condition.rest),
                    state.reported(condition.diags).inner(body).statement(
                        if_statement(condition.expr, body.block),
                    ),
                )
            },
            TokenView::Elif => {
                let condition = parse_expression(rest, TokenView::Then);
                proof {
                    lemma_expression_rest(rest, TokenView::Then);
                }
                let body = parse_block(condition.rest);
                let end = state.reported(condition.diags).inner(body).branches(
                    seq![elif_statement(condition.expr, body.block)] + body.block.branches,
                );
                BlockParse {
                    block: end.block,
                    consts: end.consts,
                    diags: end.diags,
                    rest: body.rest,
                }
            },
            TokenView::Else => {
                let body = parse_block(rest);
                let end = state.inner(body).branches(seq![else_statement(body.block)]);
                BlockParse {
                    block: end.block,
                    consts: end.consts,
                    diags: end.diags,
                    rest: body.rest,
                }
            },
            _ => match parse_simple_statement(token, rest) {
                Some(parse) => {
                    proof {
                        lemma_simple_statement_rest(token, rest);
                    }
                    block_loop(parse.rest, state.built(parse))
                },
                None => block_loop(
                    rest,
                    state.reported(report(Problem::InvalidStatementToken, token)),
                ),
            },
        }
    }
}

/// What the block builder makes of a stream.
#[verifier::opaque]
pub open spec fn parse_block(tokens: Seq<TokenView>) -> BlockParse
    decreases tokens.len(), 1nat,
{
    block_loop(tokens, BlockState::start())
}

// ---------------------------------------------------------------------------
// Functions and files
// ---------------------------------------------------------------------------
/// What the builder of a parameter list makes of a stream: the parameters,
/// or `None` where the list is malformed.
pub struct ParamsParse {
    pub args: Option<Seq<ArgView>>,
    pub diags: Seq<DiagnosticView>,
    pub rest: Seq<TokenView>,
}

/// What the builder of one parameter makes of a stream: the parameter, or
/// `None` where it is malformed, and whether it was the last of its list.
pub struct ParamParse {
    pub arg: Option<ArgView>,
    pub last: bool,
    pub diags: Seq<DiagnosticView>,
    pub rest: Seq<TokenView>,
}

/// One parameter: a name, `:`, a type and then `,` or `)`, which ends the
/// list. The four tokens are taken before they are looked at.
#[verifier::opaque]
pub open spec fn parse_param(tokens: Seq<TokenView>) -> ParamParse {
    let name_token = first_token(tokens);
    let after_name = rest_tokens(tokens);
    let colon = first_token(after_name);
    let ty = parse_data_type(rest_tokens(after_name));
    let end = first_token(ty.rest);
    let rest = rest_tokens(ty.rest);
    if colon != TokenView::Colon {
        ParamParse {
            arg: None,
            last: false,
            diags: ty.diags + report(Problem::ExpectedArgumentColon, colon),
            rest,
        }
    } else if !(name_token is Id) {
        ParamParse {
            arg: None,
            last: false,
            diags: ty.diags + report(Problem::ExpectedArgumentName, name_token),
            rest,
        }
    } else if !(end is Comma) && !(end is RParen) {
        ParamParse {
            arg: None,
            last: false,
            diags: ty.diags + report(Problem::ExpectedArgumentEnd, end),
            rest,
        }
    } else {
        ParamParse {
            arg: Some(ArgView::new(name_of(name_token), ty.data_type)),
            last: end is RParen,
            diags: ty.diags,
            rest,
        }
    }
}

/// A parameter that is well formed has taken tokens from the stream.
pub proof fn lemma_param_rest(tokens: Seq<TokenView>)
    ensures
        parse_param(tokens).rest.len() <= tokens.len(),
        parse_param(tokens).arg is Some ==> parse_param(tokens).rest.len() < tokens.len(),
{
    reveal(parse_param);
}

/// The parameters behind `(`, one after the other up to the `)`. One
/// malformed parameter makes the list malformed.
pub open spec fn parse_params(tokens: Seq<TokenView>, args: Seq<ArgView>) -> ParamsParse
    decreases tokens.len(),
{
    let one = parse_param(tokens);
    match one.arg {
        None => ParamsParse { args: None, diags: one.diags, rest: one.rest },
        Some(arg) => {
            if one.last {
                ParamsParse { args: Some(args.push(arg)), diags: one.diags, rest: one.rest }
            } else {
                proof {
                    lemma_param_rest(tokens);
                }
                let others = parse_params(one.rest, args.push(arg));
                ParamsParse {
                    args: others.args,
                    diags: one.diags + others.diags,
                    rest: others.rest,
                }
            }
        },
    }
}

/// What the function builder makes of a stream.
pub struct FunctionParse {
    /// The function, or `None` where its header is malformed.
    pub func: Option<FunctionView>,
    /// The named constants that wait for the next function.
    pub consts: Seq<ArgView>,
    pub diags: Seq<DiagnosticView>,
    pub rest: Seq<TokenView>,
}

/// A function, behind `func`: a name, the parameters if `(` follows, the
/// return type if `->` follows, `is` and the body up to its `end`. The
/// function gets the named constants that were waiting and those of its
/// body. A malformed header is reported and the builder stops there.
#[verifier::opaque]
pub open spec fn parse_function(tokens: Seq<TokenView>, pending: Seq<ArgView>) -> FunctionParse {
    let name_token = first_token(tokens);
    let after_name = rest_tokens(tokens);
    if !(name_token is Id) {
        FunctionParse {
            func: None,
            consts: pending,
            diags: report(Problem::ExpectedFunctionName, name_token),
            rest: after_name,
        }
    } else {
        let params = if first_token(after_name) is LParen {
            parse_params(rest_tokens(after_name), Seq::empty())
        } else {
            ParamsParse { args: Some(Seq::empty()), diags: Seq::empty(), rest: after_name }
        };
        if params.args is None {
            FunctionParse { func: None, consts: pending, diags: params.diags, rest: params.rest }
        } else {
            let after_params = rest_tokens(params.rest);
            let ty = if first_token(params.rest) is Arrow {
                parse_data_type(after_params)
            } else {
                TypeParse { data_type: DataType::Void, diags: Seq::empty(), rest: params.rest }
            };
            let is = first_token(ty.rest);
            if !(is is Is) {
                FunctionParse {
                    func: None,
                    consts: pending,
                    diags: params.diags + ty.diags + report(Problem::ExpectedIs, is),
                    rest: rest_tokens(ty.rest),
                }
            } else {
                let body = parse_block(rest_tokens(ty.rest));
                FunctionParse {
                    func: Some(
                        FunctionView {
                            name: name_of(name_token),
                            data_type: ty.data_type,
                            args: params.args->0,
                            consts: pending + body.consts,
                            block: body.block,
                        },
                    ),
                    consts: Seq::empty(),
                    diags: params.diags + ty.diags + body.diags,
                    rest: body.rest,
                }
            }
        }
    }
}

/// What the builder of a structure definition makes of a stream: the
/// definition, or `None` where it is malformed.
pub struct StructParse {
    pub def: Option<StructView>,
    pub diags: Seq<DiagnosticView>,
    pub rest: Seq<TokenView>,
}

/// The items of a structure definition, up to `end` or the end of the
/// stream: each a name, `:`, a type and an initializer up to `;`, whose left
/// operand is the item's name. An item without a name or without its `:`
/// makes the definition malformed.
pub open spec fn parse_struct_items(tokens: Seq<TokenView>, items: Seq<ArgView>) -> (
    Option<Seq<ArgView>>,
    Seq<DiagnosticView>,
    Seq<TokenView>,
)
    decreases tokens.len(),
{
    let token = first_token(tokens);
    let rest = rest_tokens(tokens);
    if token is End || token is Eof {
        (Some(items), Seq::empty(), rest)
    } else if !(token is Id) {
        (None, report(Problem::ExpectedStructItemName, token), rest)
    } else {
        let name = name_of(token);
        let colon = first_token(rest);
        let ty = parse_data_type(rest_tokens(rest));
        if colon != TokenView::Colon {
            (None, ty.diags + report(Problem::ExpectedStructItemColon, colon), ty.rest)
        } else {
            let value = parse_expression(ty.rest, TokenView::SemiColon);
            proof {
                lemma_expression_rest(ty.rest, TokenView::SemiColon);
            }
            let others = parse_struct_items(
                value.rest,
                items.push(
                    ArgView {
                        name,
                        data_type: ty.data_type,
                        expr: value.expr.with_lval(ExprView::named(AstType::Id, name)),
                    },
                ),
            );
            (others.0, ty.diags + value.diags + others.1, others.2)
        }
    }
}

/// A structure definition, behind `struct`: a name, `is` and the items up to
/// `end`.
#[verifier::opaque]
pub open spec fn parse_struct_def(tokens: Seq<TokenView>) -> StructParse {
    let name_token = first_token(tokens);
    let after_name = rest_tokens(tokens);
    let is = first_token(after_name);
    if !(name_token is Id) {
        StructParse {
            def: None,
            diags: report(Problem::ExpectedStructName, name_token),
            rest: after_name,
        }
    } else if !(is is Is) {
        StructParse {
            def: None,
            diags: report(Problem::ExpectedIs, is),
            rest: rest_tokens(after_name),
        }
    } else {
        let items = parse_struct_items(rest_tokens(after_name), Seq::empty());
        StructParse {
            def: match items.0 {
                Some(list) => Some(StructView { name: name_of(name_token), items: list }),
                None => None,
            },
            diags: items.1,
            rest: items.2,
        }
    }
}

/// What the top-level builder makes of a stream.
pub struct FileParse {
    /// The functions, in declaration order.
    pub functions: Seq<FunctionView>,
    /// The named constants that still wait for a function.
    pub consts: Seq<ArgView>,
    pub diags: Seq<DiagnosticView>,
    pub rest: Seq<TokenView>,
}

impl FileParse {
    /// The state after a function builder has run.
    pub open spec fn built(self, parse: FunctionParse) -> FileParse {
        FileParse {
            functions: match parse.func {
                Some(func) => self.functions.push(func),
                None => self.functions,
            },
            consts: parse.consts,
            diags: self.diags + parse.diags,
            rest: self.rest,
        }
    }

    pub open spec fn reported(self, diags: Seq<DiagnosticView>) -> FileParse {
        FileParse { diags: self.diags + diags, ..self }
    }
}

/// The top-level builder's loop, up to the end of the stream: `func` starts
/// a function, which is appended in declaration order; any other token is
/// reported and passed over.
pub open spec fn file_loop(tokens: Seq<TokenView>, state: FileParse) -> FileParse
    decreases tokens.len(),
{
    let token = first_token(tokens);
    let rest = rest_tokens(tokens);
    if token is Eof {
        FileParse { rest, ..state }
    } else if token is Func {
        let parse = parse_function(rest, state.consts);
        proof {
            lemma_function_rest(rest, state.consts);
        }
        file_loop(parse.rest, state.built(parse))
    } else {
        file_loop(rest, state.reported(report(Problem::UnknownGlobalToken, token)))
    }
}

/// What the parser makes of a whole stream, with `pending` the named
/// constants that wait for a function.
pub open spec fn parse_file(tokens: Seq<TokenView>, pending: Seq<ArgView>) -> FileParse {
    file_loop(
        tokens,
        FileParse {
            functions: Seq::empty(),
            consts: pending,
            diags: Seq::empty(),
            rest: Seq::empty(),
        },
    )
}

// ---------------------------------------------------------------------------
// No builder leaves more than it was given
// ---------------------------------------------------------------------------
/// The expression builder's loop leaves no more than it was given.
pub proof fn lemma_expr_loop_rest(tokens: Seq<TokenView>, stop: TokenView, state: ExprState)
    ensures
        expr_loop(tokens, stop, state).rest.len() <= tokens.len(),
    decreases tokens.len(),
{
    reveal(expr_loop);
    reveal(parse_expression);
    reveal(parse_primary);
    let token = first_token(tokens);
    let rest = rest_tokens(tokens);
    if token == stop || token is Eof {
    } else {
        match token {
            TokenView::LParen => {
                let inner = parse_expression(rest, TokenView::RParen);
                lemma_expr_loop_rest(
                    within(inner.rest, rest),
                    stop,
                    state.reported(inner.diags).operand(inner.expr),
                );
            },
            TokenView::Id(name) => {
                let inner = parse_primary(name, rest);
                lemma_expr_loop_rest(
                    within(inner.rest, rest),
                    stop,
                    state.reported(inner.diags).operand(inner.expr),
                );
            },
            _ => {
                lemma_expr_loop_rest(rest, stop, state.plain(token));
            },
        }
    }
}

/// The expression builder leaves no more than it was given.
pub proof fn lemma_expression_rest(tokens: Seq<TokenView>, stop: TokenView)
    ensures
        parse_expression(tokens, stop).rest.len() <= tokens.len(),
{
    reveal(expr_loop);
    reveal(parse_expression);
    reveal(parse_primary);
    lemma_expr_loop_rest(tokens, stop, ExprState::start());
}

/// What stands behind an identifier leaves no more than it was given.
pub proof fn lemma_primary_rest(name: Seq<char>, tokens: Seq<TokenView>)
    ensures
        parse_primary(name, tokens).rest.len() <= tokens.len(),
{
    reveal(expr_loop);
    reveal(parse_expression);
    reveal(parse_primary);
    lemma_expression_rest(rest_tokens(tokens), TokenView::RParen);
    lemma_expression_rest(rest_tokens(tokens), TokenView::RBracket);
}

/// The declaration builder leaves no more than it was given.
pub proof fn lemma_variable_dec_rest(tokens: Seq<TokenView>)
    ensures
        parse_variable_dec(tokens).rest.len() <= tokens.len(),
{
    reveal(parse_variable_dec);
    let after_colon = rest_tokens(rest_tokens(tokens));
    let ty = parse_data_type(after_colon);
    lemma_expression_rest(rest_tokens(ty.rest), TokenView::RBracket);
    lemma_expression_rest(put_back(ty.rest), TokenView::SemiColon);
}

/// The builder of a named constant leaves no more than it was given.
pub proof fn lemma_const_rest(tokens: Seq<TokenView>)
    ensures
        parse_const(tokens).rest.len() <= tokens.len(),
{
    reveal(parse_const);
    let ty = parse_data_type(rest_tokens(rest_tokens(tokens)));
    lemma_expression_rest(rest_tokens(ty.rest), TokenView::SemiColon);
}

/// The builder of a structure variable leaves no more than it was given.
pub proof fn lemma_struct_dec_rest(tokens: Seq<TokenView>)
    ensures
        parse_struct_dec(tokens).rest.len() <= tokens.len(),
{
    reveal(parse_struct_dec);
    lemma_expression_rest(rest_tokens(rest_tokens(tokens)), TokenView::SemiColon);
}

/// The target of a statement leaves no more than it was given.
pub proof fn lemma_target_rest(name: Seq<char>, tokens: Seq<TokenView>)
    ensures
        parse_target(name, tokens).rest.len() <= tokens.len(),
{
    reveal(parse_target);
    lemma_expression_rest(rest_tokens(tokens), TokenView::RBracket);
}

/// A statement that starts with an identifier leaves no more than it was
/// given.
pub proof fn lemma_id_statement_rest(name: Seq<char>, tokens: Seq<TokenView>)
    ensures
        parse_id_statement(name, tokens).rest.len() <= tokens.len(),
{
    reveal(parse_id_statement);
    lemma_target_rest(name, tokens);
    lemma_expression_rest(parse_target(name, tokens).rest, TokenView::SemiColon);
}

/// A statement that holds no block leaves no more than it was given.
pub proof fn lemma_simple_statement_rest(token: TokenView, tokens: Seq<TokenView>)
    ensures
        parse_simple_statement(token, tokens) is Some ==> parse_simple_statement(
            token,
            tokens,
        )->0.rest.len() <= tokens.len(),
{
    lemma_expression_rest(tokens, TokenView::SemiColon);
    lemma_variable_dec_rest(tokens);
    lemma_struct_dec_rest(tokens);
    match token {
        TokenView::Id(name) => {
            lemma_id_statement_rest(name, tokens);
        },
        _ => {},
    }
}

/// The block builder's loop leaves no more than it was given.
pub proof fn lemma_block_loop_rest(tokens: Seq<TokenView>, state: BlockState)
    ensures
        block_loop(tokens, state).rest.len() <= tokens.len(),
    decreases tokens.len(), 0nat,
{
    reveal(block_loop);
    reveal(parse_block);
    let token = first_token(tokens);
    let rest = rest_tokens(tokens);
    if token is End || token is Eof {
    } else {
        match token {
            TokenView::Const => {
                let c = parse_const(rest);
                lemma_const_rest(rest);
                lemma_block_loop_rest(c.rest, state.reported(c.diags).constants(seq![c.arg]));
            },
            TokenView::While => {
                let condition = parse_expression(rest, TokenView::Do);
                lemma_expression_rest(rest, TokenView::Do);
                let body = parse_block(condition.rest);
                lemma_block_loop_rest(
                    within(body.rest, condition.rest),
                    state.reported(condition.diags).inner(body).statement(
                        while_statement(condition.expr, body.block),
                    ),
                );
            },
            TokenView::If => {
                let condition = parse_expression(rest, TokenView::Then);
                lemma_expression_rest(rest, TokenView::Then);
                let body = parse_block(condition.rest);
                lemma_block_loop_rest(
                    within(body.rest, condition.rest),
                    state.reported(condition.diags).inner(body).statement(
                        if_statement(condition.expr, body.block),
                    ),
                );
            },
            TokenView::Elif => {
                let condition = parse_expression(rest, TokenView::Then);
                lemma_expression_rest(rest, TokenView::Then);
                lemma_block_rest(condition.rest);
            },
            TokenView::Else => {
                lemma_block_rest(rest);
            },
            _ => match parse_simple_statement(token, rest) {
                Some(parse) => {
                    lemma_simple_statement_rest(token, rest);
                    lemma_block_loop_rest(parse.rest, state.built(parse));
                },
                None => {
                    lemma_block_loop_rest(
                        rest,
                        state.reported(report(Problem::InvalidStatementToken, token)),
                    );
                },
            },
        }
    }
}

/// The block builder leaves no more than it was given.
pub proof fn lemma_block_rest(tokens: Seq<TokenView>)
    ensures
        parse_block(tokens).rest.len() <= tokens.len(),
    decreases tokens.len(), 1nat,
{
    reveal(block_loop);
    reveal(parse_block);
    lemma_block_loop_rest(tokens, BlockState::start());
}

/// The builder of a parameter list leaves no more than it was given.
pub proof fn lemma_params_rest(tokens: Seq<TokenView>, args: Seq<ArgView>)
    ensures
        parse_params(tokens, args).rest.len() <= tokens.len(),
    decreases tokens.len(),
{
    lemma_param_rest(tokens);
    let one = parse_param(tokens);
    if one.arg is Some && !one.last {
        lemma_params_rest(one.rest, args.push(one.arg->0));
    }
}

/// The function builder leaves no more than it was given.
pub proof fn lemma_function_rest(tokens: Seq<TokenView>, pending: Seq<ArgView>)
    ensures
        parse_function(tokens, pending).rest.len() <= tokens.len(),
{
    reveal(parse_function);
    let after_name = rest_tokens(tokens);
    lemma_params_rest(rest_tokens(after_name), Seq::empty());
    let params = if first_token(after_name) is LParen {
        parse_params(rest_tokens(after_name), Seq::empty())
    } else {
        ParamsParse { args: Some(Seq::empty()), diags: Seq::empty(), rest: after_name }
    };
    let ty = if first_token(params.rest) is Arrow {
        parse_data_type(rest_tokens(params.rest))
    } else {
        TypeParse { data_type: DataType::Void, diags: Seq::empty(), rest: params.rest }
    };
    lemma_block_rest(rest_tokens(ty.rest));
}

} // verus!
