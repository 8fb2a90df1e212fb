//! What holds of the grammar whatever the tokens are.

use vstd::prelude::*;
use crate::ast::ArgView;
use crate::ast::AstType;
use crate::ast::ExprView;
use crate::ast::StmtView;
use crate::diagnostic::DiagnosticView;
use crate::diagnostic::Problem;
use crate::grammar::apply_operator;
use crate::grammar::block_loop;
use crate::grammar::BlockState;
use crate::grammar::data_type_of;
use crate::grammar::elif_statement;
use crate::grammar::else_statement;
use crate::grammar::expr_loop;
use crate::grammar::ExprParse;
use crate::grammar::ExprRun;
use crate::grammar::ExprState;
use crate::grammar::file_loop;
use crate::grammar::FileParse;
use crate::grammar::FunctionParse;
use crate::grammar::if_statement;
use crate::grammar::lemma_block_rest;
use crate::grammar::lemma_const_rest;
use crate::grammar::lemma_expression_rest;
use crate::grammar::lemma_function_rest;
use crate::grammar::lemma_primary_rest;
use crate::grammar::lemma_simple_statement_rest;
use crate::grammar::literal_expr;
use crate::grammar::operator_kind;
use crate::grammar::parse_block;
use crate::grammar::parse_const;
use crate::grammar::parse_data_type;
use crate::grammar::parse_expression;
use crate::grammar::parse_function;
use crate::grammar::parse_primary;
use crate::grammar::parse_simple_statement;
use crate::grammar::parse_variable_dec;
use crate::grammar::put_back;
use crate::grammar::reduce;
use crate::grammar::Reduced;
use crate::grammar::report;
use crate::grammar::top_operand;
use crate::grammar::without_top;
use crate::grammar::lemma_reduce_keeps_operands;
use crate::grammar::while_statement;
use crate::lex::first_token;
use crate::lex::rest_tokens;
use crate::lex::TokenView;

verus! {

/// A stream with one more token at its head.
pub open spec fn cons(token: TokenView, tokens: Seq<TokenView>) -> Seq<TokenView> {
    seq![token] + tokens
}

/// The head of `cons(token, tokens)` is `token` and the rest is `tokens`.
pub proof fn lemma_cons(token: TokenView, tokens: Seq<TokenView>)
    ensures
        first_token(cons(token, tokens)) == token,
        rest_tokens(cons(token, tokens)) == tokens,
        cons(token, tokens).len() == tokens.len() + 1,
{
    assert(cons(token, tokens).drop_first() =~= tokens);
}

// ---------------------------------------------------------------------------
// One step of the expression builder
// ---------------------------------------------------------------------------
/// The loop ends at its stop token and at `Eof`, and takes the token.
pub proof fn lemma_loop_ends(tokens: Seq<TokenView>, stop: TokenView, state: ExprState)
    requires
        first_token(tokens) == stop || first_token(tokens) is Eof,
    ensures
        expr_loop(tokens, stop, state) == (ExprRun { state, rest: rest_tokens(tokens) }),
{
    reveal(expr_loop);
    reveal(parse_expression);
    reveal(parse_primary);
}

/// A token that stands for itself is taken, and the loop goes on in the
/// state that `ExprState::plain` gives.
pub proof fn lemma_loop_plain(tokens: Seq<TokenView>, stop: TokenView, state: ExprState)
    requires
        first_token(tokens) != stop,
        !(first_token(tokens) is Eof),
        !(first_token(tokens) is LParen),
        !(first_token(tokens) is Id),
    ensures
        expr_loop(tokens, stop, state) == expr_loop(
            rest_tokens(tokens),
            stop,
            state.plain(first_token(tokens)),
        ),
{
    reveal(expr_loop);
    reveal(parse_expression);
    reveal(parse_primary);
}

/// `(` makes an operand of what stands up to the matching `)`, and the loop
/// goes on behind that.
pub proof fn lemma_loop_group(tokens: Seq<TokenView>, stop: TokenView, state: ExprState)
    requires
        first_token(tokens) is LParen,
        first_token(tokens) != stop,
    ensures
        expr_loop(tokens, stop, state) == expr_loop(
            parse_expression(rest_tokens(tokens), TokenView::RParen).rest,
            stop,
            state.reported(
                parse_expression(rest_tokens(tokens), TokenView::RParen).diags,
            ).operand(parse_expression(rest_tokens(tokens), TokenView::RParen).expr),
        ),
{
    reveal(expr_loop);
    reveal(parse_expression);
    reveal(parse_primary);
    lemma_expression_rest(rest_tokens(tokens), TokenView::RParen);
}

/// An identifier makes an operand together with what `parse_primary` takes
/// behind it, and the loop goes on behind that.
pub proof fn lemma_loop_name(tokens: Seq<TokenView>, stop: TokenView, state: ExprState)
    requires
        first_token(tokens) is Id,
        first_token(tokens) != stop,
    ensures
        expr_loop(tokens, stop, state) == expr_loop(
            parse_primary(first_token(tokens)->Id_0, rest_tokens(tokens)).rest,
            stop,
            state.reported(
                parse_primary(first_token(tokens)->Id_0, rest_tokens(tokens)).diags,
            ).operand(parse_primary(first_token(tokens)->Id_0, rest_tokens(tokens)).expr),
        ),
{
    reveal(expr_loop);
    reveal(parse_expression);
    reveal(parse_primary);
    lemma_primary_rest(first_token(tokens)->Id_0, rest_tokens(tokens));
}

/// What the expression builder gives is what its loop leaves, finished.
pub proof fn lemma_expression_is_loop(tokens: Seq<TokenView>, stop: TokenView)
    ensures
        parse_expression(tokens, stop) == ({
            let run = expr_loop(tokens, stop, ExprState::start());
            let end = run.state.finish();
            ExprParse { expr: end.result(), diags: end.diags, rest: run.rest }
        }),
{
    reveal(expr_loop);
    reveal(parse_expression);
    reveal(parse_primary);
}

// ---------------------------------------------------------------------------
// Operand order
// ---------------------------------------------------------------------------
/// The reduction of one operator other than an assignment, with `left` and
/// `right` the two operands on top of the stack, `right` uppermost: the
/// operator takes both and holds `left` as its left operand and `right` as
/// its right operand.
pub proof fn lemma_operand_order(
    stack: Seq<ExprView>,
    left: ExprView,
    right: ExprView,
    kind: AstType,
)
    requires
        kind.is_binary(),
    ensures
        reduce(stack.push(left).push(right), seq![ExprView::new(kind)]) == (Reduced {
            stack: stack.push(ExprView::binary(kind, left, right)),
            diags: Seq::empty(),
        }),
{
    let ops = seq![ExprView::new(kind)];
    let full = stack.push(left).push(right);
    let step = apply_operator(full, ops.last());
    assert(full.drop_last() =~= stack.push(left));
    assert(stack.push(left).drop_last() =~= stack);
    assert(ExprView::new(kind).with_lval(left).with_rval(right).args =~= seq![left, right]);
    assert(step.stack == stack.push(ExprView::binary(kind, left, right)));
    assert(step.diags =~= Seq::empty());
    assert(ops.drop_last() =~= Seq::empty());
    assert(reduce(step.stack, ops.drop_last()).stack == step.stack);
    assert(reduce(full, ops).diags =~= Seq::empty());
}

/// The operators are applied in the reverse of the order in which they
/// came: the reduction of `ops` with one more operator below them is the
/// reduction of `ops`, and then that operator.
pub proof fn lemma_reduce_bottom(stack: Seq<ExprView>, bottom: ExprView, ops: Seq<ExprView>)
    ensures
        reduce(stack, seq![bottom] + ops).stack == apply_operator(
            reduce(stack, ops).stack,
            bottom,
        ).stack,
        reduce(stack, seq![bottom] + ops).diags == reduce(stack, ops).diags + apply_operator(
            reduce(stack, ops).stack,
            bottom,
        ).diags,
    decreases ops.len(),
{
    let all = seq![bottom] + ops;
    if ops.len() == 0 {
        assert(all.drop_last() =~= Seq::empty());
        assert(all.last() == bottom);
        let step = apply_operator(stack, bottom);
        assert(reduce(step.stack, all.drop_last()).stack == step.stack);
        assert(reduce(step.stack, all.drop_last()).diags =~= Seq::empty());
        assert(reduce(stack, all).diags =~= step.diags + Seq::empty());
        assert(reduce(stack, ops).diags + step.diags =~= step.diags);
    } else {
        assert(all.last() == ops.last());
        assert(all.drop_last() =~= seq![bottom] + ops.drop_last());
        let first = apply_operator(stack, ops.last());
        lemma_reduce_bottom(first.stack, bottom, ops.drop_last());
        let inner = reduce(first.stack, ops.drop_last());
        let last = apply_operator(inner.stack, bottom);
        assert(first.diags + (inner.diags + last.diags) =~= (first.diags + inner.diags)
            + last.diags);
    }
}

// ---------------------------------------------------------------------------
// What lies on the stacks
// ---------------------------------------------------------------------------
/// Once there was a `,`, the expression is a list.
pub proof fn lemma_list_stays(tokens: Seq<TokenView>, stop: TokenView, state: ExprState)
    requires
        state.is_list,
    ensures
        expr_loop(tokens, stop, state).state.is_list,
    decreases tokens.len(),
{
    let token = first_token(tokens);
    let rest = rest_tokens(tokens);
    if token == stop || token is Eof {
        lemma_loop_ends(tokens, stop, state);
    } else if token is LParen {
        lemma_loop_group(tokens, stop, state);
        lemma_expression_rest(rest, TokenView::RParen);
        let inner = parse_expression(rest, TokenView::RParen);
        lemma_list_stays(inner.rest, stop, state.reported(inner.diags).operand(inner.expr));
    } else if token is Id {
        lemma_loop_name(tokens, stop, state);
        lemma_primary_rest(token->Id_0, rest);
        let inner = parse_primary(token->Id_0, rest);
        lemma_list_stays(inner.rest, stop, state.reported(inner.diags).operand(inner.expr));
    } else {
        lemma_loop_plain(tokens, stop, state);
        lemma_list_stays(rest, stop, state.plain(token));
    }
}

/// The state `run` on top of the state `base`: the stacks and the reports of
/// `base` with those of `run` behind them, and the list of `base`.
pub open spec fn above(base: ExprState, run: ExprState) -> ExprState {
    ExprState {
        stack: base.stack + run.stack,
        ops: base.ops + run.ops,
        items: base.items,
        is_list: base.is_list,
        diags: base.diags + run.diags,
    }
}

/// The state that has nothing on it changes nothing.
pub proof fn lemma_above_start(base: ExprState)
    ensures
        above(base, ExprState::start()) == base,
{
    let both = above(base, ExprState::start());
    assert(both.stack =~= base.stack);
    assert(both.ops =~= base.ops);
    assert(both.diags =~= base.diags);
}

/// As long as there is no `,`, the loop does not touch what lies on the
/// stacks when it starts: it works on top of it.
pub proof fn lemma_loop_above(
    tokens: Seq<TokenView>,
    stop: TokenView,
    base: ExprState,
    run: ExprState,
)
    requires
        !expr_loop(tokens, stop, run).state.is_list,
    ensures
        expr_loop(tokens, stop, above(base, run)) == (ExprRun {
            state: above(base, expr_loop(tokens, stop, run).state),
            rest: expr_loop(tokens, stop, run).rest,
        }),
    decreases tokens.len(),
{
    let token = first_token(tokens);
    let rest = rest_tokens(tokens);
    let both = above(base, run);
    if token == stop || token is Eof {
        lemma_loop_ends(tokens, stop, run);
        lemma_loop_ends(tokens, stop, both);
    } else if token is LParen {
        lemma_loop_group(tokens, stop, run);
        lemma_loop_group(tokens, stop, both);
        lemma_expression_rest(rest, TokenView::RParen);
        let inner = parse_expression(rest, TokenView::RParen);
        let next = run.reported(inner.diags).operand(inner.expr);
        let next_both = both.reported(inner.diags).operand(inner.expr);
        assert(next_both.stack =~= above(base, next).stack);
        assert(next_both.diags =~= above(base, next).diags);
        assert(next_both == above(base, next));
        lemma_loop_above(inner.rest, stop, base, next);
    } else if token is Id {
        lemma_loop_name(tokens, stop, run);
        lemma_loop_name(tokens, stop, both);
        lemma_primary_rest(token->Id_0, rest);
        let inner = parse_primary(token->Id_0, rest);
        let next = run.reported(inner.diags).operand(inner.expr);
        let next_both = both.reported(inner.diags).operand(inner.expr);
        assert(next_both.stack =~= above(base, next).stack);
        assert(next_both.diags =~= above(base, next).diags);
        assert(next_both == above(base, next));
        lemma_loop_above(inner.rest, stop, base, next);
    } else {
        lemma_loop_plain(tokens, stop, run);
        lemma_loop_plain(tokens, stop, both);
        if token is Comma {
            lemma_list_stays(rest, stop, run.plain(token));
        } else {
            let next = run.plain(token);
            let next_both = both.plain(token);
            assert(next_both.stack =~= above(base, next).stack);
            assert(next_both.ops =~= above(base, next).ops);
            assert(next_both.diags =~= above(base, next).diags);
            assert(next_both == above(base, next));
            lemma_loop_above(rest, stop, base, next);
        }
    }
}

/// A state with other reports.
pub open spec fn with_reports(state: ExprState, diags: Seq<DiagnosticView>) -> ExprState {
    ExprState { diags, ..state }
}

/// What was reported before changes nothing of what the loop does: it
/// arrives at the same stacks and the same list and leaves the same stream,
/// and reports what it would have reported behind what was reported before.
pub proof fn lemma_loop_reports(
    tokens: Seq<TokenView>,
    stop: TokenView,
    state: ExprState,
    before: Seq<DiagnosticView>,
)
    ensures
        expr_loop(tokens, stop, with_reports(state, before)) == (ExprRun {
            state: with_reports(
                expr_loop(tokens, stop, with_reports(state, Seq::empty())).state,
                before + expr_loop(tokens, stop, with_reports(state, Seq::empty())).state.diags,
            ),
            rest: expr_loop(tokens, stop, with_reports(state, Seq::empty())).rest,
        }),
    decreases tokens.len(),
{
    let token = first_token(tokens);
    let rest = rest_tokens(tokens);
    let plain = with_reports(state, Seq::empty());
    let loaded = with_reports(state, before);
    if token == stop || token is Eof {
        lemma_loop_ends(tokens, stop, plain);
        lemma_loop_ends(tokens, stop, loaded);
        assert(before + plain.diags =~= before);
    } else {
        // The state after the token, with and without what was reported.
        let (next_plain, next_loaded, behind) = if token is LParen {
            lemma_loop_group(tokens, stop, plain);
            lemma_loop_group(tokens, stop, loaded);
            lemma_expression_rest(rest, TokenView::RParen);
            let inner = parse_expression(rest, TokenView::RParen);
            (
                plain.reported(inner.diags).operand(inner.expr),
                loaded.reported(inner.diags).operand(inner.expr),
                inner.rest,
            )
        } else if token is Id {
            lemma_loop_name(tokens, stop, plain);
            lemma_loop_name(tokens, stop, loaded);
            lemma_primary_rest(token->Id_0, rest);
            let inner = parse_primary(token->Id_0, rest);
            (
                plain.reported(inner.diags).operand(inner.expr),
                loaded.reported(inner.diags).operand(inner.expr),
                inner.rest,
            )
        } else {
            lemma_loop_plain(tokens, stop, plain);
            lemma_loop_plain(tokens, stop, loaded);
            (plain.plain(token), loaded.plain(token), rest)
        };
        let added = next_plain.diags;
        assert(next_loaded.diags =~= before + added);
        assert(next_loaded == with_reports(next_plain, before + added));
        assert(next_plain == with_reports(next_plain, added));
        lemma_loop_reports(behind, stop, next_plain, before + added);
        lemma_loop_reports(behind, stop, next_plain, added);
        let end = expr_loop(behind, stop, with_reports(next_plain, Seq::empty())).state;
        assert((before + added) + end.diags =~= before + (added + end.diags));
    }
}

/// A token that has no role in an expression changes only what is reported:
/// where the loop takes such a token, it arrives at the same stacks and the
/// same list and leaves the same stream as without the token, and reports
/// the token before what it reports without it. (A token that stands right
/// behind a name is not taken by the loop: the name looks at it first.)
pub proof fn lemma_token_without_role(
    token: TokenView,
    rest: Seq<TokenView>,
    stop: TokenView,
    state: ExprState,
)
    requires
        token != stop,
        !(token is Eof),
        !(token is LParen),
        !(token is Id),
        !(token is Comma),
        literal_expr(token) is None,
        operator_kind(token) is None,
    ensures
        ({
            let with = expr_loop(cons(token, rest), stop, state);
            let without = expr_loop(rest, stop, state);
            let alone = expr_loop(rest, stop, with_reports(state, Seq::empty()));
            &&& with.rest == without.rest
            &&& with.state == with_reports(
                without.state,
                state.diags + report(Problem::InvalidExpressionToken, token) + alone.state.diags,
            )
            &&& without.state.diags == state.diags + alone.state.diags
        }),
{
    let found = report(Problem::InvalidExpressionToken, token);
    lemma_cons(token, rest);
    lemma_loop_plain(cons(token, rest), stop, state);
    assert(state == with_reports(state, state.diags));
    assert(state.plain(token) == with_reports(state, state.diags + found));
    lemma_loop_reports(rest, stop, state, state.diags);
    lemma_loop_reports(rest, stop, state, state.diags + found);
}

// ---------------------------------------------------------------------------
// Declarations
// ---------------------------------------------------------------------------
/// In a declaration `var x : T := E;` the initializer is an assignment whose
/// left operand is the identifier `x` and whose right operand is what the
/// expression builder makes of `E`, and the declaration ends where `E` ends.
/// `init` is the stream behind the `:=`. This holds unless `E` has a `,`
/// outside brackets.
pub proof fn lemma_declaration_initializer(name: Seq<char>, ty: TokenView, init: Seq<TokenView>)
    requires
        data_type_of(ty) is Some,
        !expr_loop(init, TokenView::SemiColon, ExprState::start()).state.is_list,
    ensures
        parse_variable_dec(
            cons(
                TokenView::Id(name),
                cons(TokenView::Colon, cons(ty, cons(TokenView::Assign, init))),
            ),
        ).stmt == (StmtView {
            name,
            data_type: data_type_of(ty)->0,
            expr: ExprView::binary(
                AstType::Assign,
                ExprView::named(AstType::Id, name),
                parse_expression(init, TokenView::SemiColon).expr,
            ),
            ..StmtView::new(AstType::VarDec)
        }),
        parse_variable_dec(
            cons(
                TokenView::Id(name),
                cons(TokenView::Colon, cons(ty, cons(TokenView::Assign, init))),
            ),
        ).rest == parse_expression(init, TokenView::SemiColon).rest,
{
    reveal(parse_variable_dec);
    let stop = TokenView::SemiColon;
    let from_assign = cons(TokenView::Assign, init);
    let from_type = cons(ty, from_assign);
    let from_colon = cons(TokenView::Colon, from_type);
    let all = cons(TokenView::Id(name), from_colon);
    lemma_cons(TokenView::Id(name), from_colon);
    lemma_cons(TokenView::Colon, from_type);
    lemma_cons(ty, from_assign);
    lemma_cons(TokenView::Assign, init);
    assert(parse_data_type(from_type).rest == from_assign);
    assert(put_back(from_assign) == from_assign);
    let bottom = ExprView::new(AstType::Assign);
    let start = ExprState::start();
    lemma_expression_is_loop(from_assign, stop);
    lemma_expression_is_loop(init, stop);
    lemma_loop_plain(from_assign, stop, start);
    let base = start.plain(TokenView::Assign);
    assert(base.ops =~= seq![bottom]);
    lemma_above_start(base);
    lemma_loop_above(init, stop, base, start);
    let alone = expr_loop(init, stop, start).state;
    let with = above(base, alone);
    assert(with.stack =~= alone.stack);
    assert(with.ops =~= seq![bottom] + alone.ops);
    lemma_reduce_bottom(alone.stack, bottom, alone.ops);
    let reduced = reduce(alone.stack, alone.ops);
    let value = top_operand(reduced.stack);
    assert(parse_expression(init, stop).expr == value);
    assert(with.finish().result() == bottom.with_rval(value));
    assert(bottom.with_rval(value).with_lval(ExprView::named(AstType::Id, name)).args =~= seq![
        ExprView::named(AstType::Id, name),
        value,
    ]);
}

// ---------------------------------------------------------------------------
// Operands, operators and brackets
// ---------------------------------------------------------------------------
/// The operand that a token makes by itself: a literal or an identifier.
pub open spec fn leaf_expr(token: TokenView) -> Option<ExprView> {
    match token {
        TokenView::Id(name) => Some(ExprView::named(AstType::Id, name)),
        _ => literal_expr(token),
    }
}

/// Whether an identifier before `next` stands alone: `next` is neither
/// `(`, `[` nor `.`, and the stream has not ended.
pub open spec fn ends_name(next: TokenView) -> bool {
    !(next is LParen) && !(next is LBracket) && !(next is Dot) && !(next is Eof)
}

/// A literal, or an identifier that stands alone, is taken as an operand.
pub proof fn lemma_loop_operand(tokens: Seq<TokenView>, stop: TokenView, state: ExprState)
    requires
        leaf_expr(first_token(tokens)) is Some,
        first_token(tokens) != stop,
        ends_name(first_token(rest_tokens(tokens))),
    ensures
        expr_loop(tokens, stop, state) == expr_loop(
            rest_tokens(tokens),
            stop,
            state.operand(leaf_expr(first_token(tokens))->0),
        ),
{
    let token = first_token(tokens);
    if token is Id {
        lemma_loop_name(tokens, stop, state);
        reveal(expr_loop);
        reveal(parse_expression);
        reveal(parse_primary);
        let inner = parse_primary(token->Id_0, rest_tokens(tokens));
        assert(state.reported(inner.diags).diags =~= state.diags);
    } else {
        lemma_loop_plain(tokens, stop, state);
    }
}

/// `A op B` with an operator other than `:=` between two operands that are
/// single tokens is the operator with `A` as its left and `B` as its right
/// operand.
pub proof fn lemma_binary_expression(
    a: TokenView,
    op: TokenView,
    b: TokenView,
    stop: TokenView,
    rest: Seq<TokenView>,
)
    requires
        leaf_expr(a) is Some,
        leaf_expr(b) is Some,
        operator_kind(op) is Some,
        operator_kind(op)->0.is_binary(),
        a != stop,
        op != stop,
        b != stop,
        ends_name(stop),
    ensures
        parse_expression(cons(a, cons(op, cons(b, cons(stop, rest)))), stop) == (ExprParse {
            expr: ExprView::binary(operator_kind(op)->0, leaf_expr(a)->0, leaf_expr(b)->0),
            diags: Seq::empty(),
            rest,
        }),
{
    let kind = operator_kind(op)->0;
    let s3 = cons(stop, rest);
    let s2 = cons(b, s3);
    let s1 = cons(op, s2);
    let s0 = cons(a, s1);
    lemma_cons(a, s1);
    lemma_cons(op, s2);
    lemma_cons(b, s3);
    lemma_cons(stop, rest);
    let st0 = ExprState::start();
    let st1 = st0.operand(leaf_expr(a)->0);
    let st2 = st1.plain(op);
    let st3 = st2.operand(leaf_expr(b)->0);
    lemma_expression_is_loop(s0, stop);
    lemma_loop_operand(s0, stop, st0);
    lemma_loop_plain(s1, stop, st1);
    lemma_loop_operand(s2, stop, st2);
    lemma_loop_ends(s3, stop, st3);
    assert(st3.stack =~= Seq::<ExprView>::empty().push(leaf_expr(a)->0).push(leaf_expr(b)->0));
    assert(st3.ops =~= seq![ExprView::new(kind)]);
    lemma_operand_order(Seq::empty(), leaf_expr(a)->0, leaf_expr(b)->0, kind);
    let end = st3.finish();
    assert(end.diags =~= Seq::empty());
}

/// Brackets around a whole expression change nothing: `( E )` up to the stop
/// token is what `E` is up to its `)`. `body` is the stream behind the `(`.
pub proof fn lemma_parenthesized(body: Seq<TokenView>, stop: TokenView)
    requires
        !(stop is LParen),
        first_token(parse_expression(body, TokenView::RParen).rest) == stop || first_token(
            parse_expression(body, TokenView::RParen).rest,
        ) is Eof,
    ensures
        parse_expression(cons(TokenView::LParen, body), stop) == (ExprParse {
            rest: rest_tokens(parse_expression(body, TokenView::RParen).rest),
            ..parse_expression(body, TokenView::RParen)
        }),
{
    let inner = parse_expression(body, TokenView::RParen);
    let all = cons(TokenView::LParen, body);
    lemma_cons(TokenView::LParen, body);
    let st0 = ExprState::start();
    let st1 = st0.reported(inner.diags).operand(inner.expr);
    lemma_expression_is_loop(all, stop);
    lemma_loop_group(all, stop, st0);
    lemma_loop_ends(inner.rest, stop, st1);
    assert(st1.ops =~= Seq::empty());
    assert(reduce(st1.stack, st1.ops).stack == st1.stack);
    assert(st1.finish().diags =~= inner.diags);
}

/// The arguments of a call `f(a, b, c)` are a list of three items, in this
/// order: what `a`, `b` and `c` are. The arguments here are single tokens.
pub proof fn lemma_call_arguments(
    f: Seq<char>,
    a: TokenView,
    b: TokenView,
    c: TokenView,
    after: Seq<TokenView>,
)
    requires
        leaf_expr(a) is Some,
        leaf_expr(b) is Some,
        leaf_expr(c) is Some,
    ensures
        parse_primary(
            f,
            cons(
                TokenView::LParen,
                cons(
                    a,
                    cons(
                        TokenView::Comma,
                        cons(b, cons(TokenView::Comma, cons(c, cons(TokenView::RParen, after)))),
                    ),
                ),
            ),
        ) == (ExprParse {
            expr: ExprView::applied(
                AstType::Call,
                f,
                ExprView::list_of(seq![leaf_expr(a)->0, leaf_expr(b)->0, leaf_expr(c)->0]),
            ),
            diags: Seq::empty(),
            rest: after,
        }),
{
    let stop = TokenView::RParen;
    let s6 = cons(TokenView::RParen, after);
    let s5 = cons(c, s6);
    let s4 = cons(TokenView::Comma, s5);
    let s3 = cons(b, s4);
    let s2 = cons(TokenView::Comma, s3);
    let s1 = cons(a, s2);
    let s0 = cons(TokenView::LParen, s1);
    lemma_cons(TokenView::LParen, s1);
    lemma_cons(a, s2);
    lemma_cons(TokenView::Comma, s3);
    lemma_cons(b, s4);
    lemma_cons(TokenView::Comma, s5);
    lemma_cons(c, s6);
    lemma_cons(TokenView::RParen, after);
    let la = leaf_expr(a)->0;
    let lb = leaf_expr(b)->0;
    let lc = leaf_expr(c)->0;
    let st0 = ExprState::start();
    let st1 = st0.operand(la);
    let st2 = st1.plain(TokenView::Comma);
    let st3 = st2.operand(lb);
    let st4 = st3.plain(TokenView::Comma);
    let st5 = st4.operand(lc);
    lemma_expression_is_loop(s1, stop);
    lemma_loop_operand(s1, stop, st0);
    lemma_loop_plain(s2, stop, st1);
    lemma_loop_operand(s3, stop, st2);
    lemma_loop_plain(s4, stop, st3);
    lemma_loop_operand(s5, stop, st4);
    lemma_loop_ends(s6, stop, st5);
    assert(st1.stack =~= seq![la]);
    assert(reduce(st1.stack, st1.ops).stack == st1.stack);
    assert(st2.stack =~= Seq::empty());
    assert(st2.items =~= seq![la]);
    assert(st3.stack =~= seq![lb]);
    assert(reduce(st3.stack, st3.ops).stack == st3.stack);
    assert(st4.stack =~= Seq::empty());
    assert(st4.items =~= seq![la, lb]);
    assert(st5.stack =~= seq![lc]);
    assert(reduce(st5.stack, st5.ops).stack == st5.stack);
    let end = st5.finish();
    assert(end.items =~= seq![la, lb, lc]);
    assert(reduce(Seq::<ExprView>::empty(), Seq::<ExprView>::empty()).diags =~= Seq::empty());
    assert(end.diags =~= Seq::empty());
    reveal(expr_loop);
    reveal(parse_expression);
    reveal(parse_primary);
}

/// A list keeps its last item whatever ends it: at the end of an expression
/// in which there was a `,`, an operand that stands on the stack is reduced
/// with the operators that wait and is the last item of the list.
pub proof fn lemma_list_keeps_last_item(state: ExprState)
    requires
        state.is_list,
        state.stack.len() > 0,
    ensures
        state.finish().result() == ExprView::list_of(
            state.items.push(top_operand(reduce(state.stack, state.ops).stack)),
        ),
{
}

/// `a , b` up to any stop token is the list of what `a` is and what `b` is.
/// The items here are single tokens.
pub proof fn lemma_list_of_two(a: TokenView, b: TokenView, stop: TokenView, rest: Seq<TokenView>)
    requires
        leaf_expr(a) is Some,
        leaf_expr(b) is Some,
        a != stop,
        b != stop,
        !(stop is Comma),
        ends_name(stop),
    ensures
        parse_expression(cons(a, cons(TokenView::Comma, cons(b, cons(stop, rest)))), stop) == (
        ExprParse {
            expr: ExprView::list_of(seq![leaf_expr(a)->0, leaf_expr(b)->0]),
            diags: Seq::empty(),
            rest,
        }),
{
    let s3 = cons(stop, rest);
    let s2 = cons(b, s3);
    let s1 = cons(TokenView::Comma, s2);
    let s0 = cons(a, s1);
    lemma_cons(a, s1);
    lemma_cons(TokenView::Comma, s2);
    lemma_cons(b, s3);
    lemma_cons(stop, rest);
    let la = leaf_expr(a)->0;
    let lb = leaf_expr(b)->0;
    let st0 = ExprState::start();
    let st1 = st0.operand(la);
    let st2 = st1.plain(TokenView::Comma);
    let st3 = st2.operand(lb);
    lemma_expression_is_loop(s0, stop);
    lemma_loop_operand(s0, stop, st0);
    lemma_loop_plain(s1, stop, st1);
    lemma_loop_operand(s2, stop, st2);
    lemma_loop_ends(s3, stop, st3);
    assert(st1.stack =~= seq![la]);
    assert(reduce(st1.stack, st1.ops).stack == st1.stack);
    assert(st2.stack =~= Seq::empty());
    assert(st2.items =~= seq![la]);
    assert(st3.stack =~= seq![lb]);
    assert(reduce(st3.stack, st3.ops).stack == st3.stack);
    let end = st3.finish();
    assert(end.items =~= seq![la, lb]);
    assert(reduce(Seq::<ExprView>::empty(), Seq::<ExprView>::empty()).diags =~= Seq::empty());
    assert(end.diags =~= Seq::empty());
}

/// The argument of a call `f()` is the placeholder, not a list.
pub proof fn lemma_call_without_arguments(f: Seq<char>, after: Seq<TokenView>)
    ensures
        parse_primary(f, cons(TokenView::LParen, cons(TokenView::RParen, after))) == (ExprParse {
            expr: ExprView::applied(AstType::Call, f, ExprView::empty()),
            diags: Seq::empty(),
            rest: after,
        }),
{
    let stop = TokenView::RParen;
    let s1 = cons(TokenView::RParen, after);
    let s0 = cons(TokenView::LParen, s1);
    lemma_cons(TokenView::LParen, s1);
    lemma_cons(TokenView::RParen, after);
    let st0 = ExprState::start();
    lemma_expression_is_loop(s1, stop);
    lemma_loop_ends(s1, stop, st0);
    assert(reduce(st0.stack, st0.ops).stack == st0.stack);
    assert(st0.finish().diags =~= Seq::empty());
    reveal(expr_loop);
    reveal(parse_expression);
    reveal(parse_primary);
}

// ---------------------------------------------------------------------------
// Expressions that are complete in themselves
// ---------------------------------------------------------------------------
/// How many tokens the expression loop takes from a stream, its stop token
/// last, where it finds the stop token in the stream and looks at no token
/// behind it; `None` where the stream ends first or holds an `Eof` before.
pub open spec fn loop_span(tokens: Seq<TokenView>, stop: TokenView) -> Option<nat>
    decreases tokens.len(), 0nat,
{
    if tokens.len() == 0 {
        None
    } else {
        let token = tokens[0];
        let rest = tokens.drop_first();
        if token == stop {
            Some(1)
        } else if token is Eof {
            None
        } else {
            let taken = if token is LParen {
                loop_span(rest, TokenView::RParen)
            } else if token is Id {
                primary_span(rest)
            } else {
                Some(0nat)
            };
            if taken is Some && taken->0 <= rest.len() {
                match loop_span(rest.skip(taken->0 as int), stop) {
                    Some(more) => Some(1 + taken->0 + more),
                    None => None,
                }
            } else {
                None
            }
        }
    }
}

/// How many tokens an identifier takes behind itself: the brackets of a
/// call or an array access with what they hold, or the `.` and the name of a
/// member, or nothing. `None` where the stream gives no token to look at,
/// or ends before the closing bracket or the member's name.
pub open spec fn primary_span(tokens: Seq<TokenView>) -> Option<nat>
    decreases tokens.len(), 1nat,
{
    if tokens.len() == 0 {
        None
    } else {
        let rest = tokens.drop_first();
        match tokens[0] {
            TokenView::LParen => match loop_span(rest, TokenView::RParen) {
                Some(inner) => Some(inner + 1),
                None => None,
            },
            TokenView::LBracket => match loop_span(rest, TokenView::RBracket) {
                Some(inner) => Some(inner + 1),
                None => None,
            },
            TokenView::Dot => if tokens.len() >= 2 {
                Some(2)
            } else {
                None
            },
            TokenView::Eof => None,
            _ => Some(0),
        }
    }
}

/// Whether two streams hold the same first `count` tokens.
pub open spec fn agree(a: Seq<TokenView>, b: Seq<TokenView>, count: nat) -> bool {
    &&& a.len() >= count
    &&& b.len() >= count
    &&& forall|i: int| 0 <= i < count ==> a[i] == b[i]
}

/// The loop takes as many tokens as `loop_span` says, and at least its stop
/// token.
pub proof fn lemma_span_rest(tokens: Seq<TokenView>, stop: TokenView, state: ExprState)
    requires
        loop_span(tokens, stop) is Some,
    ensures
        1 <= loop_span(tokens, stop)->0 <= tokens.len(),
        expr_loop(tokens, stop, state).rest == tokens.skip(loop_span(tokens, stop)->0 as int),
    decreases tokens.len(), 0nat,
{
    let token = tokens[0];
    let rest = tokens.drop_first();
    assert(first_token(tokens) == token && rest_tokens(tokens) == rest);
    if token == stop {
        lemma_loop_ends(tokens, stop, state);
        assert(rest =~= tokens.skip(1));
    } else {
        let taken = if token is LParen {
            loop_span(rest, TokenView::RParen)
        } else if token is Id {
            primary_span(rest)
        } else {
            Some(0nat)
        };
        let after = rest.skip(taken->0 as int);
        let more = loop_span(after, stop)->0;
        if token is LParen {
            lemma_loop_group(tokens, stop, state);
            lemma_group_rest(rest, TokenView::RParen);
            let inner = parse_expression(rest, TokenView::RParen);
            lemma_span_rest(after, stop, state.reported(inner.diags).operand(inner.expr));
        } else if token is Id {
            lemma_loop_name(tokens, stop, state);
            lemma_span_rest_primary(token->Id_0, rest);
            let inner = parse_primary(token->Id_0, rest);
            lemma_span_rest(after, stop, state.reported(inner.diags).operand(inner.expr));
        } else {
            lemma_loop_plain(tokens, stop, state);
            assert(after =~= rest);
            lemma_span_rest(after, stop, state.plain(token));
        }
        assert(after.skip(more as int) =~= tokens.skip((1 + taken->0 + more) as int));
    }
}

/// The expression builder leaves what its loop leaves.
pub proof fn lemma_group_rest(tokens: Seq<TokenView>, stop: TokenView)
    requires
        loop_span(tokens, stop) is Some,
    ensures
        1 <= loop_span(tokens, stop)->0 <= tokens.len(),
        parse_expression(tokens, stop).rest == tokens.skip(loop_span(tokens, stop)->0 as int),
    decreases tokens.len(), 1nat,
{
    lemma_expression_is_loop(tokens, stop);
    lemma_span_rest(tokens, stop, ExprState::start());
}

/// An identifier takes behind itself as many tokens as `primary_span` says;
/// where it takes none, the token behind it is none that it could take.
pub proof fn lemma_span_rest_primary(name: Seq<char>, tokens: Seq<TokenView>)
    requires
        primary_span(tokens) is Some,
    ensures
        primary_span(tokens)->0 <= tokens.len(),
        parse_primary(name, tokens).rest == tokens.skip(primary_span(tokens)->0 as int),
        primary_span(tokens)->0 == 0 ==> tokens.len() > 0 && ends_name(tokens[0])
            && parse_primary(name, tokens) == (ExprParse {
            expr: ExprView::named(AstType::Id, name),
            diags: Seq::empty(),
            rest: tokens,
        }),
        primary_span(tokens)->0 > 0 ==> !ends_name(tokens[0]),
    decreases tokens.len(), 2nat,
{
    reveal(expr_loop);
    reveal(parse_expression);
    reveal(parse_primary);
    let rest = tokens.drop_first();
    assert(first_token(tokens) == tokens[0] && rest_tokens(tokens) == rest);
    match tokens[0] {
        TokenView::LParen => {
            lemma_group_rest(rest, TokenView::RParen);
            let inner = loop_span(rest, TokenView::RParen)->0;
            assert(rest.skip(inner as int) =~= tokens.skip((inner + 1) as int));
        },
        TokenView::LBracket => {
            lemma_group_rest(rest, TokenView::RBracket);
            let inner = loop_span(rest, TokenView::RBracket)->0;
            assert(rest.skip(inner as int) =~= tokens.skip((inner + 1) as int));
        },
        TokenView::Dot => {
            assert(rest_tokens(rest) =~= tokens.skip(2));
        },
        _ => {
            assert(tokens.skip(0) =~= tokens);
        },
    }
}

/// What the loop does with the tokens that it takes depends on these tokens
/// alone: on a stream that holds the same tokens first, it takes as many and
/// arrives at the same state.
pub proof fn lemma_span_agree(
    tokens: Seq<TokenView>,
    other: Seq<TokenView>,
    stop: TokenView,
    state: ExprState,
)
    requires
        loop_span(tokens, stop) is Some,
        agree(tokens, other, loop_span(tokens, stop)->0),
    ensures
        loop_span(other, stop) == loop_span(tokens, stop),
        expr_loop(other, stop, state).state == expr_loop(tokens, stop, state).state,
    decreases tokens.len(), 0nat,
{
    lemma_span_rest(tokens, stop, state);
    let token = tokens[0];
    let rest = tokens.drop_first();
    let other_rest = other.drop_first();
    assert(first_token(tokens) == token && rest_tokens(tokens) == rest);
    assert(first_token(other) == token && rest_tokens(other) == other_rest);
    if token == stop {
        lemma_loop_ends(tokens, stop, state);
        lemma_loop_ends(other, stop, state);
    } else {
        let taken = if token is LParen {
            loop_span(rest, TokenView::RParen)
        } else if token is Id {
            primary_span(rest)
        } else {
            Some(0nat)
        };
        let count = taken->0;
        let after = rest.skip(count as int);
        let other_after = other_rest.skip(count as int);
        let more = loop_span(after, stop)->0;
        lemma_span_rest(after, stop, state);
        assert(agree(rest, other_rest, count + more)) by {
            assert forall|i: int| 0 <= i < count + more implies rest[i] == other_rest[i] by {
                assert(rest[i] == tokens[i + 1]);
                assert(other_rest[i] == other[i + 1]);
            }
        }
        assert(agree(after, other_after, more)) by {
            assert forall|i: int| 0 <= i < more implies after[i] == other_after[i] by {
                assert(after[i] == rest[i + count]);
                assert(other_after[i] == other_rest[i + count]);
            }
        }
        if token is LParen {
            lemma_loop_group(tokens, stop, state);
            lemma_loop_group(other, stop, state);
            lemma_group_agree(rest, other_rest, TokenView::RParen);
            lemma_group_rest(rest, TokenView::RParen);
            lemma_group_rest(other_rest, TokenView::RParen);
            let inner = parse_expression(rest, TokenView::RParen);
            lemma_span_agree(
                after,
                other_after,
                stop,
                state.reported(inner.diags).operand(inner.expr),
            );
        } else if token is Id {
            lemma_loop_name(tokens, stop, state);
            lemma_loop_name(other, stop, state);
            lemma_span_rest_primary(token->Id_0, rest);
            lemma_primary_agree(token->Id_0, rest, other_rest);
            lemma_span_rest_primary(token->Id_0, other_rest);
            let inner = parse_primary(token->Id_0, rest);
            lemma_span_agree(
                after,
                other_after,
                stop,
                state.reported(inner.diags).operand(inner.expr),
            );
        } else {
            lemma_loop_plain(tokens, stop, state);
            lemma_loop_plain(other, stop, state);
            assert(after =~= rest);
            assert(other_after =~= other_rest);
            lemma_span_agree(after, other_after, stop, state.plain(token));
        }
    }
}

/// What the expression builder makes of the tokens that it takes depends
/// on these tokens alone.
pub proof fn lemma_group_agree(tokens: Seq<TokenView>, other: Seq<TokenView>, stop: TokenView)
    requires
        loop_span(tokens, stop) is Some,
        agree(tokens, other, loop_span(tokens, stop)->0),
    ensures
        loop_span(other, stop) == loop_span(tokens, stop),
        parse_expression(other, stop).expr == parse_expression(tokens, stop).expr,
        parse_expression(other, stop).diags == parse_expression(tokens, stop).diags,
    decreases tokens.len(), 1nat,
{
    lemma_expression_is_loop(tokens, stop);
    lemma_expression_is_loop(other, stop);
    lemma_span_agree(tokens, other, stop, ExprState::start());
}

/// What an identifier makes of the tokens that it takes behind itself, or
/// of the one that it looks at, depends on these tokens alone.
pub proof fn lemma_primary_agree(name: Seq<char>, tokens: Seq<TokenView>, other: Seq<TokenView>)
    requires
        primary_span(tokens) is Some,
        agree(
            tokens,
            other,
            if primary_span(tokens)->0 == 0 {
                1
            } else {
                primary_span(tokens)->0
            },
        ),
    ensures
        primary_span(other) == primary_span(tokens),
        parse_primary(name, other).expr == parse_primary(name, tokens).expr,
        parse_primary(name, other).diags == parse_primary(name, tokens).diags,
    decreases tokens.len(), 2nat,
{
    reveal(expr_loop);
    reveal(parse_expression);
    reveal(parse_primary);
    let rest = tokens.drop_first();
    let other_rest = other.drop_first();
    assert(first_token(tokens) == tokens[0] && rest_tokens(tokens) == rest);
    assert(first_token(other) == tokens[0] && rest_tokens(other) == other_rest);
    match tokens[0] {
        TokenView::LParen => {
            let inner = loop_span(rest, TokenView::RParen)->0;
            assert(agree(rest, other_rest, inner)) by {
                assert forall|i: int| 0 <= i < inner implies rest[i] == other_rest[i] by {
                    assert(rest[i] == tokens[i + 1]);
                    assert(other_rest[i] == other[i + 1]);
                }
            }
            lemma_group_agree(rest, other_rest, TokenView::RParen);
        },
        TokenView::LBracket => {
            let inner = loop_span(rest, TokenView::RBracket)->0;
            assert(agree(rest, other_rest, inner)) by {
                assert forall|i: int| 0 <= i < inner implies rest[i] == other_rest[i] by {
                    assert(rest[i] == tokens[i + 1]);
                    assert(other_rest[i] == other[i + 1]);
                }
            }
            lemma_group_agree(rest, other_rest, TokenView::RBracket);
        },
        TokenView::Dot => {
            assert(first_token(rest) == tokens[1]);
            assert(first_token(other_rest) == other[1]);
        },
        _ => {},
    }
}

/// Whether `body` is an expression that is complete in itself before the
/// stop token `stop`: the loop on `body` and then `stop` takes all of `body`,
/// every bracket that opens in `body` closing in it, and then `stop`.
pub open spec fn complete_before(body: Seq<TokenView>, stop: TokenView) -> bool {
    loop_span(body.push(stop), stop) == Some((body.len() + 1) as nat)
}

/// The state that the loop arrives at on an expression that is complete in
/// itself, from the state with nothing on it.
pub open spec fn made_of(body: Seq<TokenView>, stop: TokenView) -> ExprState {
    expr_loop(body.push(stop), stop, ExprState::start()).state
}

/// What the loop makes of an expression that is complete in itself does not
/// depend on the stop token that follows it.
pub proof fn lemma_stop_independent(
    body: Seq<TokenView>,
    first: TokenView,
    second: TokenView,
    state: ExprState,
)
    requires
        complete_before(body, first),
        complete_before(body, second),
    ensures
        expr_loop(body.push(first), first, state).state == expr_loop(
            body.push(second),
            second,
            state,
        ).state,
    decreases body.len(),
{
    let one = body.push(first);
    let two = body.push(second);
    if body.len() == 0 {
        lemma_loop_ends(one, first, state);
        lemma_loop_ends(two, second, state);
    } else {
        let token = body[0];
        let tail = body.drop_first();
        let rest_one = one.drop_first();
        let rest_two = two.drop_first();
        assert(one[0] == token && two[0] == token);
        assert(first_token(one) == token && rest_tokens(one) == rest_one);
        assert(first_token(two) == token && rest_tokens(two) == rest_two);
        assert(rest_one =~= tail.push(first));
        assert(rest_two =~= tail.push(second));
        assert(token != first && token != second && !(token is Eof));
        let taken_one = if token is LParen {
            loop_span(rest_one, TokenView::RParen)
        } else if token is Id {
            primary_span(rest_one)
        } else {
            Some(0nat)
        };
        let taken_two = if token is LParen {
            loop_span(rest_two, TokenView::RParen)
        } else if token is Id {
            primary_span(rest_two)
        } else {
            Some(0nat)
        };
        let count = taken_one->0;
        let after_one = rest_one.skip(count as int);
        let more_one = loop_span(after_one, first)->0;
        lemma_span_rest(after_one, first, state);
        lemma_span_rest(rest_two.skip(taken_two->0 as int), second, state);
        assert(count <= tail.len());
        assert(agree(rest_one, rest_two, count)) by {
            assert forall|i: int| 0 <= i < count implies rest_one[i] == rest_two[i] by {
                assert(rest_one[i] == tail[i]);
                assert(rest_two[i] == tail[i]);
            }
        }
        let after_two = rest_two.skip(count as int);
        let left = tail.skip(count as int);
        assert(after_one =~= left.push(first));
        assert(after_two =~= left.push(second));
        if token is LParen {
            lemma_loop_group(one, first, state);
            lemma_loop_group(two, second, state);
            lemma_group_agree(rest_one, rest_two, TokenView::RParen);
            lemma_group_rest(rest_one, TokenView::RParen);
            lemma_group_rest(rest_two, TokenView::RParen);
            let inner = parse_expression(rest_one, TokenView::RParen);
            assert(taken_two == taken_one);
            lemma_stop_independent(
                left,
                first,
                second,
                state.reported(inner.diags).operand(inner.expr),
            );
        } else if token is Id {
            lemma_loop_name(one, first, state);
            lemma_loop_name(two, second, state);
            lemma_span_rest_primary(token->Id_0, rest_one);
            lemma_span_rest_primary(token->Id_0, rest_two);
            let inner = parse_primary(token->Id_0, rest_one);
            if count == 0 {
                if tail.len() > 0 {
                    assert(rest_two[0] == rest_one[0]);
                    assert(taken_two == Some(0nat));
                } else {
                    assert(taken_two->0 == 0);
                }
                assert(parse_primary(token->Id_0, rest_two).expr == inner.expr);
                assert(parse_primary(token->Id_0, rest_two).diags == inner.diags);
            } else {
                assert(tail.len() > 0);
                lemma_primary_agree(token->Id_0, rest_one, rest_two);
            }
            assert(taken_two == taken_one);
            lemma_stop_independent(
                left,
                first,
                second,
                state.reported(inner.diags).operand(inner.expr),
            );
        } else {
            lemma_loop_plain(one, first, state);
            lemma_loop_plain(two, second, state);
            assert(after_one =~= rest_one);
            assert(after_two =~= rest_two);
            lemma_stop_independent(left, first, second, state.plain(token));
        }
    }
}

/// Brackets around a whole expression are transparent: `( E )` up to the
/// stop token is what `E` alone is up to the stop token, and brings the same
/// reports. `body` is `E`: an expression that is complete in itself, both as
/// the inside of brackets and before the stop token.
pub proof fn lemma_brackets_transparent(
    body: Seq<TokenView>,
    stop: TokenView,
    behind: Seq<TokenView>,
    behind_alone: Seq<TokenView>,
)
    requires
        complete_before(body, TokenView::RParen),
        complete_before(body, stop),
        !(stop is LParen),
    ensures
        parse_expression(
            cons(TokenView::LParen, body.push(TokenView::RParen) + cons(stop, behind)),
            stop,
        ) == (ExprParse {
            rest: behind,
            ..parse_expression(body.push(stop) + behind_alone, stop)
        }),
        parse_expression(body.push(stop) + behind_alone, stop).rest == behind_alone,
{
    let start = ExprState::start();
    let inside = body.push(TokenView::RParen);
    let alone = body.push(stop);
    let inner_stream = inside + cons(stop, behind);
    let count = (body.len() + 1) as nat;
    // Inside the brackets.
    assert(agree(inside, inner_stream, count));
    lemma_group_agree(inside, inner_stream, TokenView::RParen);
    lemma_group_rest(inner_stream, TokenView::RParen);
    assert(inner_stream.skip(count as int) =~= cons(stop, behind));
    lemma_cons(stop, behind);
    lemma_parenthesized(inner_stream, stop);
    // Without the brackets.
    assert(agree(alone, alone + behind_alone, count));
    lemma_group_agree(alone, alone + behind_alone, stop);
    lemma_group_rest(alone + behind_alone, stop);
    assert((alone + behind_alone).skip(count as int) =~= behind_alone);
    // The two agree.
    lemma_stop_independent(body, TokenView::RParen, stop, start);
    lemma_expression_is_loop(inside, TokenView::RParen);
    lemma_expression_is_loop(alone, stop);
}

// ---------------------------------------------------------------------------
// Expressions inside expressions
// ---------------------------------------------------------------------------
/// Behind an expression that is complete in itself the loop goes on in the
/// state that the expression has left, whatever follows, as long as what
/// follows is no bracket and no `.` that a name at the end of the expression
/// would take.
pub proof fn lemma_loop_goes_on(
    body: Seq<TokenView>,
    stop: TokenView,
    behind: Seq<TokenView>,
    state: ExprState,
)
    requires
        complete_before(body, stop),
        ends_name(first_token(behind)),
    ensures
        expr_loop(body + behind, stop, state) == expr_loop(
            behind,
            stop,
            expr_loop(body.push(stop), stop, state).state,
        ),
    decreases body.len(),
{
    let one = body.push(stop);
    let two = body + behind;
    if body.len() == 0 {
        lemma_loop_ends(one, stop, state);
        assert(two =~= behind);
    } else {
        let token = body[0];
        let tail = body.drop_first();
        let rest_one = one.drop_first();
        let rest_two = two.drop_first();
        assert(one[0] == token && two[0] == token);
        assert(first_token(one) == token && rest_tokens(one) == rest_one);
        assert(first_token(two) == token && rest_tokens(two) == rest_two);
        assert(rest_one =~= tail.push(stop));
        assert(rest_two =~= tail + behind);
        assert(token != stop && !(token is Eof));
        let taken = if token is LParen {
            loop_span(rest_one, TokenView::RParen)
        } else if token is Id {
            primary_span(rest_one)
        } else {
            Some(0nat)
        };
        let count = taken->0;
        let after_one = rest_one.skip(count as int);
        lemma_span_rest(after_one, stop, state);
        assert(count <= tail.len());
        assert(agree(rest_one, rest_two, count)) by {
            assert forall|i: int| 0 <= i < count implies rest_one[i] == rest_two[i] by {
                assert(rest_one[i] == tail[i]);
                assert(rest_two[i] == tail[i]);
            }
        }
        let after_two = rest_two.skip(count as int);
        let left = tail.skip(count as int);
        assert(after_one =~= left.push(stop));
        assert(after_two =~= left + behind);
        if token is LParen {
            lemma_loop_group(one, stop, state);
            lemma_loop_group(two, stop, state);
            lemma_group_agree(rest_one, rest_two, TokenView::RParen);
            lemma_group_rest(rest_one, TokenView::RParen);
            lemma_group_rest(rest_two, TokenView::RParen);
            let inner = parse_expression(rest_one, TokenView::RParen);
            lemma_loop_goes_on(
                left,
                stop,
                behind,
                state.reported(inner.diags).operand(inner.expr),
            );
        } else if token is Id {
            lemma_loop_name(one, stop, state);
            lemma_loop_name(two, stop, state);
            lemma_span_rest_primary(token->Id_0, rest_one);
            let inner = parse_primary(token->Id_0, rest_one);
            if count == 0 && tail.len() == 0 {
                reveal(expr_loop);
                reveal(parse_expression);
                reveal(parse_primary);
                assert(rest_two =~= behind);
                assert(parse_primary(token->Id_0, rest_two) == (ExprParse {
                    expr: ExprView::named(AstType::Id, token->Id_0),
                    diags: Seq::empty(),
                    rest: rest_two,
                }));
            } else {
                assert(agree(
                    rest_one,
                    rest_two,
                    if count == 0 {
                        1
                    } else {
                        count
                    },
                )) by {
                    assert(rest_one[0] == tail[0]);
                    assert(rest_two[0] == tail[0]);
                }
                lemma_primary_agree(token->Id_0, rest_one, rest_two);
                lemma_span_rest_primary(token->Id_0, rest_two);
            }
            lemma_loop_goes_on(
                left,
                stop,
                behind,
                state.reported(inner.diags).operand(inner.expr),
            );
        } else {
            lemma_loop_plain(one, stop, state);
            lemma_loop_plain(two, stop, state);
            assert(after_one =~= rest_one);
            assert(after_two =~= rest_two);
            lemma_loop_goes_on(left, stop, behind, state.plain(token));
        }
    }
}

/// Whether `body` is one operand: an expression complete in itself of which
/// the loop makes exactly one operand and no operator, such as a literal, a
/// name with what it takes behind itself, or an expression in brackets.
pub open spec fn is_operand(body: Seq<TokenView>, stop: TokenView) -> bool {
    &&& complete_before(body, stop)
    &&& made_of(body, stop).stack.len() == 1
    &&& made_of(body, stop).ops.len() == 0
    &&& !made_of(body, stop).is_list
}

/// One operand by itself is what the loop made of it.
pub proof fn lemma_operand_alone(body: Seq<TokenView>, stop: TokenView)
    requires
        is_operand(body, stop),
    ensures
        parse_expression(body.push(stop), stop).expr == made_of(body, stop).stack[0],
{
    lemma_expression_is_loop(body.push(stop), stop);
    let made = made_of(body, stop);
    assert(made.ops =~= Seq::empty());
    assert(reduce(made.stack, made.ops).stack == made.stack);
}

/// `A op B` with an operator other than `:=` between two operands is the
/// operator with `A` as its left and `B` as its right operand: what `A` is
/// by itself and what `B` is by itself. `behind` is the stream behind the
/// stop token.
pub proof fn lemma_binary_operands(
    left: Seq<TokenView>,
    op: TokenView,
    right: Seq<TokenView>,
    stop: TokenView,
    behind: Seq<TokenView>,
)
    requires
        is_operand(left, stop),
        is_operand(right, stop),
        operator_kind(op) is Some,
        operator_kind(op)->0.is_binary(),
        op != stop,
        ends_name(stop),
    ensures
        parse_expression(left + cons(op, right + cons(stop, behind)), stop).expr
            == ExprView::binary(
            operator_kind(op)->0,
            parse_expression(left.push(stop), stop).expr,
            parse_expression(right.push(stop), stop).expr,
        ),
        parse_expression(left + cons(op, right + cons(stop, behind)), stop).rest == behind,
{
    let kind = operator_kind(op)->0;
    let start = ExprState::start();
    let end = cons(stop, behind);
    let from_right = right + end;
    let from_op = cons(op, from_right);
    let all = left + from_op;
    lemma_cons(op, from_right);
    lemma_cons(stop, behind);
    let made_left = made_of(left, stop);
    let made_right = made_of(right, stop);
    lemma_operand_alone(left, stop);
    lemma_operand_alone(right, stop);
    let a = made_left.stack[0];
    let b = made_right.stack[0];
    // The left operand, then the operator.
    lemma_loop_goes_on(left, stop, from_op, start);
    lemma_loop_plain(from_op, stop, made_left);
    let with_op = made_left.plain(op);
    // The right operand on top of them.
    lemma_loop_goes_on(right, stop, end, with_op);
    lemma_above_start(with_op);
    lemma_loop_above(right.push(stop), stop, with_op, start);
    let last = above(with_op, made_right);
    lemma_loop_ends(end, stop, last);
    lemma_expression_is_loop(all, stop);
    assert(made_left.stack =~= seq![a]);
    assert(made_right.stack =~= seq![b]);
    assert(last.stack =~= Seq::<ExprView>::empty().push(a).push(b));
    assert(last.ops =~= seq![ExprView::new(kind)]);
    lemma_operand_order(Seq::empty(), a, b, kind);
}

/// Whether `body` can be an item of a list between brackets: an expression
/// complete in itself, without a `,` outside brackets of its own, whose
/// reduction leaves no more than one operand on the stack.
pub open spec fn is_item(body: Seq<TokenView>) -> bool {
    let made = made_of(body, TokenView::RParen);
    &&& complete_before(body, TokenView::RParen)
    &&& !made.is_list
    &&& reduce(made.stack, made.ops).stack.len() <= 1
}

/// What an item is by itself: the operand that its reduction leaves, or the
/// placeholder.
pub open spec fn item_value(body: Seq<TokenView>) -> ExprView {
    let made = made_of(body, TokenView::RParen);
    top_operand(reduce(made.stack, made.ops).stack)
}

/// An item by itself, between brackets, is its value.
pub proof fn lemma_item_alone(body: Seq<TokenView>)
    requires
        is_item(body),
    ensures
        parse_expression(body.push(TokenView::RParen), TokenView::RParen).expr == item_value(
            body,
        ),
        parse_expression(body.push(TokenView::RParen), TokenView::RParen).rest
            == Seq::<TokenView>::empty(),
{
    let stop = TokenView::RParen;
    lemma_expression_is_loop(body.push(stop), stop);
    lemma_span_rest(body.push(stop), stop, ExprState::start());
    assert(body.push(stop).skip((body.len() + 1) as int) =~= Seq::empty());
}

/// The state of the loop in a list that has closed the items `items` and
/// has nothing on its stacks.
pub open spec fn between_items(items: Seq<ExprView>, diags: Seq<DiagnosticView>) -> ExprState {
    ExprState { stack: Seq::empty(), ops: Seq::empty(), items, is_list: true, diags }
}

/// An item and the `,` behind it: the loop closes the item and goes on with
/// nothing on its stacks. `state` is a state with nothing on its stacks.
pub proof fn lemma_item_and_comma(
    body: Seq<TokenView>,
    behind: Seq<TokenView>,
    state: ExprState,
)
    requires
        is_item(body),
        state.stack.len() == 0,
        state.ops.len() == 0,
    ensures
        exists|diags: Seq<DiagnosticView>|
            expr_loop(body + cons(TokenView::Comma, behind), TokenView::RParen, state)
                == #[trigger] expr_loop(
                behind,
                TokenView::RParen,
                between_items(state.items.push(item_value(body)), diags),
            ),
{
    let stop = TokenView::RParen;
    let from_comma = cons(TokenView::Comma, behind);
    lemma_cons(TokenView::Comma, behind);
    let made = made_of(body, stop);
    lemma_loop_goes_on(body, stop, from_comma, state);
    lemma_above_start(state);
    lemma_loop_above(body.push(stop), stop, state, ExprState::start());
    let arrived = above(state, made);
    assert(arrived.stack =~= made.stack);
    assert(arrived.ops =~= made.ops);
    lemma_loop_plain(from_comma, stop, arrived);
    let closed = arrived.plain(TokenView::Comma);
    let reduced = reduce(made.stack, made.ops);
    assert(without_top(reduced.stack) =~= Seq::empty());
    assert(closed == between_items(state.items.push(item_value(body)), closed.diags));
}

/// The arguments of a call `f(a, b, c)` are a list of three items, in this
/// order: what `a` is by itself, what `b` is and what `c` is. `behind` is the
/// stream behind the `)` of the call. The last argument must bring an
/// operand: a list takes a last item only if there is one.
pub proof fn lemma_call_list(
    f: Seq<char>,
    a: Seq<TokenView>,
    b: Seq<TokenView>,
    c: Seq<TokenView>,
    behind: Seq<TokenView>,
)
    requires
        is_item(a),
        is_item(b),
        is_item(c),
        made_of(c, TokenView::RParen).stack.len() > 0,
    ensures
        parse_primary(
            f,
            cons(
                TokenView::LParen,
                a + cons(
                    TokenView::Comma,
                    b + cons(TokenView::Comma, c + cons(TokenView::RParen, behind)),
                ),
            ),
        ).expr == ExprView::applied(
            AstType::Call,
            f,
            ExprView::list_of(seq![item_value(a), item_value(b), item_value(c)]),
        ),
        parse_primary(
            f,
            cons(
                TokenView::LParen,
                a + cons(
                    TokenView::Comma,
                    b + cons(TokenView::Comma, c + cons(TokenView::RParen, behind)),
                ),
            ),
        ).rest == behind,
        item_value(a) == parse_expression(a.push(TokenView::RParen), TokenView::RParen).expr,
        item_value(b) == parse_expression(b.push(TokenView::RParen), TokenView::RParen).expr,
        item_value(c) == parse_expression(c.push(TokenView::RParen), TokenView::RParen).expr,
{
    let stop = TokenView::RParen;
    let start = ExprState::start();
    let end = cons(stop, behind);
    let from_c = c + end;
    let from_b = b + cons(TokenView::Comma, from_c);
    let from_a = a + cons(TokenView::Comma, from_b);
    let all = cons(TokenView::LParen, from_a);
    lemma_cons(TokenView::LParen, from_a);
    lemma_cons(stop, behind);
    lemma_item_alone(a);
    lemma_item_alone(b);
    lemma_item_alone(c);
    // The first two items, each closed by its `,`.
    lemma_item_and_comma(a, from_b, start);
    let first = choose|diags: Seq<DiagnosticView>|
        expr_loop(from_a, stop, start) == #[trigger] expr_loop(
            from_b,
            stop,
            between_items(start.items.push(item_value(a)), diags),
        );
    let after_a = between_items(start.items.push(item_value(a)), first);
    lemma_item_and_comma(b, from_c, after_a);
    let second = choose|diags: Seq<DiagnosticView>|
        expr_loop(from_b, stop, after_a) == #[trigger] expr_loop(
            from_c,
            stop,
            between_items(after_a.items.push(item_value(b)), diags),
        );
    let after_b = between_items(after_a.items.push(item_value(b)), second);
    // The last item, closed by the `)`.
    let made = made_of(c, stop);
    lemma_loop_goes_on(c, stop, end, after_b);
    lemma_above_start(after_b);
    lemma_loop_above(c.push(stop), stop, after_b, start);
    let arrived = above(after_b, made);
    assert(arrived.stack =~= made.stack);
    assert(arrived.ops =~= made.ops);
    lemma_loop_ends(end, stop, arrived);
    lemma_expression_is_loop(from_a, stop);
    let finished = arrived.finish();
    let reduced = reduce(made.stack, made.ops);
    lemma_reduce_keeps_operands(made.stack, made.ops);
    assert(without_top(reduced.stack) =~= Seq::empty());
    assert(finished.items =~= seq![item_value(a), item_value(b), item_value(c)]);
    reveal(expr_loop);
    reveal(parse_expression);
    reveal(parse_primary);
}

// ---------------------------------------------------------------------------
// Conditionals
// ---------------------------------------------------------------------------
/// An `if` owns the block that follows its condition, and its branch list is
/// the clauses that ended that block. `tokens` is the stream behind the
/// `if`; the block builder goes on behind the `end` of the chain.
pub proof fn lemma_if_statement(tokens: Seq<TokenView>, state: BlockState)
    ensures
        ({
            let condition = parse_expression(tokens, TokenView::Then);
            let body = parse_block(condition.rest);
            let stmt = if_statement(condition.expr, body.block);
            &&& stmt.kind == AstType::If
            &&& stmt.statements == seq![body.block]
            &&& stmt.branches == body.block.branches
            &&& block_loop(cons(TokenView::If, tokens), state) == block_loop(
                body.rest,
                state.reported(condition.diags).inner(body).statement(stmt),
            )
        }),
{
    reveal(block_loop);
    reveal(parse_block);
    lemma_cons(TokenView::If, tokens);
    lemma_expression_rest(tokens, TokenView::Then);
    lemma_block_rest(parse_expression(tokens, TokenView::Then).rest);
}

/// An `elif` ends the block that it stands in. The branch list of that
/// block gets the clause, with its condition and the block that it owns,
/// and behind it the clauses that ended the clause's own block. `tokens` is
/// the stream behind the `elif`.
pub proof fn lemma_elif_clause(tokens: Seq<TokenView>, state: BlockState)
    ensures
        ({
            let condition = parse_expression(tokens, TokenView::Then);
            let body = parse_block(condition.rest);
            let end = block_loop(cons(TokenView::Elif, tokens), state);
            &&& end.block == (StmtView {
                branches: state.block.branches + (seq![
                    elif_statement(condition.expr, body.block),
                ] + body.block.branches),
                ..state.block
            })
            &&& end.rest == body.rest
        }),
{
    reveal(block_loop);
    reveal(parse_block);
    lemma_cons(TokenView::Elif, tokens);
}

/// An `else` ends the block that it stands in, and the branch list of that
/// block gets the clause with the block that it owns. `tokens` is the
/// stream behind the `else`.
pub proof fn lemma_else_clause(tokens: Seq<TokenView>, state: BlockState)
    ensures
        ({
            let body = parse_block(tokens);
            let end = block_loop(cons(TokenView::Else, tokens), state);
            &&& end.block == (StmtView {
                branches: state.block.branches + seq![else_statement(body.block)],
                ..state.block
            })
            &&& end.rest == body.rest
        }),
{
    reveal(block_loop);
    reveal(parse_block);
    lemma_cons(TokenView::Else, tokens);
}

/// A chain `if .. elif .. else .. end`: where the block of the `if` has no
/// clause before its `elif`, and the block of the `elif` ends with one `else`
/// clause, the `if` has as its own block the statements before the `elif`,
/// and its branch list is the `elif` clause with its condition and then the
/// `else` clause, in this order. `tokens` is the stream behind the `elif`,
/// `state` the block of the `if` up to the `elif`.
pub proof fn lemma_chain(condition: ExprView, tokens: Seq<TokenView>, state: BlockState)
    requires
        state.block.branches.len() == 0,
        parse_block(parse_expression(tokens, TokenView::Then).rest).block.branches.len() == 1,
        parse_block(parse_expression(tokens, TokenView::Then).rest).block.branches[0].kind
            == AstType::Else,
    ensures
        ({
            let second = parse_expression(tokens, TokenView::Then);
            let elif_body = parse_block(second.rest).block;
            let first_body = block_loop(cons(TokenView::Elif, tokens), state).block;
            let chain = if_statement(condition, first_body);
            &&& chain.kind == AstType::If
            &&& chain.expr == condition
            &&& chain.statements == seq![first_body]
            &&& first_body.statements == state.block.statements
            &&& chain.branches.len() == 2
            &&& chain.branches[0] == elif_statement(second.expr, elif_body)
            &&& chain.branches[0].kind == AstType::Elif
            &&& chain.branches[0].expr == second.expr
            &&& chain.branches[1] == elif_body.branches[0]
            &&& chain.branches[1].kind == AstType::Else
        }),
{
    lemma_elif_clause(tokens, state);
}

/// Whether a branch list is a chain: `elif` clauses and then at most one
/// `else` clause, which is the last; each clause owns one block and has no
/// branch list of its own.
pub open spec fn is_chain(branches: Seq<StmtView>) -> bool {
    forall|i: int|
        0 <= i < branches.len() ==> {
            &&& (#[trigger] branches[i]).kind == AstType::Elif || (branches[i].kind
                == AstType::Else && i == branches.len() - 1)
            &&& branches[i].statements.len() == 1
            &&& branches[i].branches.len() == 0
        }
}

/// The clauses that end a block are a chain, from whatever state the block
/// builder goes on, as long as the block has no clause yet.
pub proof fn lemma_block_ends_with_a_chain(tokens: Seq<TokenView>, state: BlockState)
    requires
        state.block.branches.len() == 0,
    ensures
        is_chain(block_loop(tokens, state).block.branches),
    decreases tokens.len(), 0nat,
{
    reveal(block_loop);
    reveal(parse_block);
    let token = first_token(tokens);
    let rest = rest_tokens(tokens);
    if token is End || token is Eof {
    } else {
        match token {
            TokenView::Const => {
                let c = parse_const(rest);
                lemma_const_rest(rest);
                lemma_block_ends_with_a_chain(
                    c.rest,
                    state.reported(c.diags).constants(seq![c.arg]),
                );
            },
            TokenView::While => {
                let condition = parse_expression(rest, TokenView::Do);
                lemma_expression_rest(rest, TokenView::Do);
                let body = parse_block(condition.rest);
                lemma_block_rest(condition.rest);
                lemma_block_ends_with_a_chain(
                    body.rest,
                    state.reported(condition.diags).inner(body).statement(
                        while_statement(condition.expr, body.block),
                    ),
                );
            },
            TokenView::If => {
                let condition = parse_expression(rest, TokenView::Then);
                lemma_expression_rest(rest, TokenView::Then);
                let body = parse_block(condition.rest);
                lemma_block_rest(condition.rest);
                lemma_block_ends_with_a_chain(
                    body.rest,
                    state.reported(condition.diags).inner(body).statement(
                        if_statement(condition.expr, body.block),
                    ),
                );
            },
            TokenView::Elif => {
                let condition = parse_expression(rest, TokenView::Then);
                lemma_expression_rest(rest, TokenView::Then);
                lemma_block_is_a_chain(condition.rest);
                let body = parse_block(condition.rest);
                let clause = elif_statement(condition.expr, body.block);
                let all = state.block.branches + (seq![clause] + body.block.branches);
                assert forall|i: int| 0 <= i < all.len() implies {
                    &&& (#[trigger] all[i]).kind == AstType::Elif || (all[i].kind == AstType::Else
                        && i == all.len() - 1)
                    &&& all[i].statements.len() == 1
                    &&& all[i].branches.len() == 0
                } by {
                    if i > 0 {
                        assert(all[i] == body.block.branches[i - 1]);
                    }
                }
            },
            TokenView::Else => {
                let body = parse_block(rest);
                let all = state.block.branches + seq![else_statement(body.block)];
                assert(all.len() == 1);
            },
            _ => match parse_simple_statement(token, rest) {
                Some(parse) => {
                    lemma_simple_statement_rest(token, rest);
                    lemma_block_ends_with_a_chain(parse.rest, state.built(parse));
                },
                None => {
                    lemma_block_ends_with_a_chain(
                        rest,
                        state.reported(report(Problem::InvalidStatementToken, token)),
                    );
                },
            },
        }
    }
}

/// The branch list of every block that the block builder builds is a chain.
/// An `if` takes the branch list of its block as its own, so the branch list
/// of every `if` is a chain.
pub proof fn lemma_block_is_a_chain(tokens: Seq<TokenView>)
    ensures
        is_chain(parse_block(tokens).block.branches),
    decreases tokens.len(), 1nat,
{
    reveal(block_loop);
    reveal(parse_block);
    lemma_block_ends_with_a_chain(tokens, BlockState::start());
}

// ---------------------------------------------------------------------------
// Malformed input
// ---------------------------------------------------------------------------
/// A function without a name is reported and not built: the function
/// builder takes the token that should have been the name and stops.
/// `tokens` is the stream behind `func`.
pub proof fn lemma_function_without_name(tokens: Seq<TokenView>, pending: Seq<ArgView>)
    requires
        !(first_token(tokens) is Id),
    ensures
        parse_function(tokens, pending) == (FunctionParse {
            func: None,
            consts: pending,
            diags: report(Problem::ExpectedFunctionName, first_token(tokens)),
            rest: rest_tokens(tokens),
        }),
{
    reveal(parse_function);
}

/// Whatever the function builder made of a function, the top-level builder
/// goes on behind it; and a token that starts no function is reported and
/// passed over.
pub proof fn lemma_file_goes_on(tokens: Seq<TokenView>, state: FileParse)
    ensures
        first_token(tokens) is Func ==> file_loop(tokens, state) == file_loop(
            parse_function(rest_tokens(tokens), state.consts).rest,
            state.built(parse_function(rest_tokens(tokens), state.consts)),
        ),
        !(first_token(tokens) is Func) && !(first_token(tokens) is Eof) ==> file_loop(
            tokens,
            state,
        ) == file_loop(
            rest_tokens(tokens),
            state.reported(report(Problem::UnknownGlobalToken, first_token(tokens))),
        ),
        first_token(tokens) is Eof ==> file_loop(tokens, state) == (FileParse {
            rest: rest_tokens(tokens),
            ..state
        }),
{
    lemma_function_rest(rest_tokens(tokens), state.consts);
}

} // verus!
