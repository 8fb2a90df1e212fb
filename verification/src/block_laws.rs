//! What holds of blocks whatever the tokens are: a sequence of statements
//! that are complete in themselves is built the same way whatever follows
//! it, and a chain `if .. elif .. else .. end` is one statement whose block
//! is its first body alone.

use vstd::prelude::*;
use crate::ast::AstType;
use crate::ast::StmtView;
use crate::diagnostic::Problem;
use crate::grammar::block_loop;
use crate::grammar::BlockParse;
use crate::grammar::BlockState;
use crate::grammar::elif_statement;
use crate::grammar::else_statement;
use crate::grammar::if_statement;
use crate::grammar::parse_block;
use crate::grammar::parse_const;
use crate::grammar::parse_expression;
use crate::grammar::parse_id_statement;
use crate::grammar::parse_simple_statement;
use crate::grammar::parse_struct_dec;
use crate::grammar::parse_target;
use crate::grammar::parse_variable_dec;
use crate::grammar::put_back;
use crate::grammar::report;
use crate::grammar::while_statement;
use crate::laws::agree;
use crate::laws::complete_before;
use crate::laws::cons;
use crate::laws::lemma_elif_clause;
use crate::laws::lemma_else_clause;
use crate::laws::lemma_group_agree;
use crate::laws::lemma_group_rest;
use crate::laws::lemma_if_statement;
use crate::laws::loop_span;
use crate::lex::first_token;
use crate::lex::rest_tokens;
use crate::lex::TokenView;

verus! {

// ---------------------------------------------------------------------------
// Statements that are complete in themselves
// ---------------------------------------------------------------------------
/// The token at a place of a stream, and the stream behind it.
pub proof fn lemma_at(tokens: Seq<TokenView>, at: nat)
    requires
        at < tokens.len(),
    ensures
        first_token(tokens.skip(at as int)) == tokens[at as int],
        rest_tokens(tokens.skip(at as int)) == tokens.skip((at + 1) as int),
        tokens.skip(0) == tokens,
{
    assert(tokens.skip(at as int).drop_first() =~= tokens.skip((at + 1) as int));
    assert(tokens.skip(0) =~= tokens);
}

/// Streams that hold the same tokens first hold the same tokens behind some
/// of them.
pub proof fn lemma_agree_behind(a: Seq<TokenView>, b: Seq<TokenView>, count: nat, taken: nat)
    requires
        agree(a, b, count),
        taken <= count,
    ensures
        agree(a.skip(taken as int), b.skip(taken as int), (count - taken) as nat),
{
    assert forall|i: int| 0 <= i < count - taken implies a.skip(taken as int)[i] == b.skip(
        taken as int,
    )[i] by {
        assert(a[i + taken] == b[i + taken]);
    }
}

/// How many tokens are taken where an expression complete before `stop`
/// stands behind `taken` tokens of the stream and is taken with its stop
/// token.
pub open spec fn span_behind(tokens: Seq<TokenView>, taken: nat, stop: TokenView) -> Option<nat> {
    if tokens.len() >= taken {
        match loop_span(tokens.skip(taken as int), stop) {
            Some(more) => Some(taken + more),
            None => None,
        }
    } else {
        None
    }
}

/// What the expression builder makes of an expression behind some tokens
/// depends on the tokens that it takes alone.
pub proof fn lemma_expression_behind(
    tokens: Seq<TokenView>,
    other: Seq<TokenView>,
    taken: nat,
    stop: TokenView,
)
    requires
        span_behind(tokens, taken, stop) is Some,
        agree(tokens, other, span_behind(tokens, taken, stop)->0),
    ensures
        span_behind(other, taken, stop) == span_behind(tokens, taken, stop),
        taken < span_behind(tokens, taken, stop)->0 <= tokens.len(),
        parse_expression(other.skip(taken as int), stop).expr == parse_expression(
            tokens.skip(taken as int),
            stop,
        ).expr,
        parse_expression(other.skip(taken as int), stop).diags == parse_expression(
            tokens.skip(taken as int),
            stop,
        ).diags,
        parse_expression(tokens.skip(taken as int), stop).rest == tokens.skip(
            span_behind(tokens, taken, stop)->0 as int,
        ),
        parse_expression(other.skip(taken as int), stop).rest == other.skip(
            span_behind(tokens, taken, stop)->0 as int,
        ),
{
    let count = span_behind(tokens, taken, stop)->0;
    let more = loop_span(tokens.skip(taken as int), stop)->0;
    lemma_group_rest(tokens.skip(taken as int), stop);
    lemma_agree_behind(tokens, other, count, taken);
    lemma_group_agree(tokens.skip(taken as int), other.skip(taken as int), stop);
    lemma_group_rest(other.skip(taken as int), stop);
    assert(tokens.skip(taken as int).skip(more as int) =~= tokens.skip(count as int));
    assert(other.skip(taken as int).skip(more as int) =~= other.skip(count as int));
}

/// How many tokens the target of a statement takes behind its name.
pub open spec fn target_span(tokens: Seq<TokenView>) -> Option<nat> {
    if tokens.len() == 0 {
        None
    } else {
        match tokens[0] {
            TokenView::LBracket => span_behind(tokens, 1, TokenView::RBracket),
            TokenView::Dot => if tokens.len() >= 2 {
                Some(2)
            } else {
                None
            },
            TokenView::Eof => None,
            _ => Some(0),
        }
    }
}

/// How many tokens a declaration takes behind `var`, where it has its name
/// and its `:`.
pub open spec fn declaration_span(tokens: Seq<TokenView>) -> Option<nat> {
    if tokens.len() >= 4 && tokens[0] is Id && tokens[1] == TokenView::Colon {
        if tokens[3] is LBracket {
            match span_behind(tokens, 4, TokenView::RBracket) {
                Some(count) => if tokens.len() > count {
                    Some(count + 1)
                } else {
                    None
                },
                None => None,
            }
        } else {
            span_behind(tokens, 3, TokenView::SemiColon)
        }
    } else {
        None
    }
}

/// How many tokens a statement that holds no block takes behind its first
/// token, where it ends inside the stream: the statement with the `;` that
/// ends it. `None` where the stream ends first, and for a declaration
/// without its name or its `:`.
pub open spec fn simple_span(token: TokenView, tokens: Seq<TokenView>) -> Option<nat> {
    match token {
        TokenView::Return => span_behind(tokens, 0, TokenView::SemiColon),
        TokenView::Var => declaration_span(tokens),
        TokenView::Struct => span_behind(tokens, 2, TokenView::SemiColon),
        TokenView::Id(_) => match target_span(tokens) {
            Some(taken) => span_behind(tokens, taken, TokenView::SemiColon),
            None => None,
        },
        TokenView::Break | TokenView::Continue => if tokens.len() >= 1 {
            Some(1)
        } else {
            None
        },
        _ => None,
    }
}

/// What the declaration builder makes of a declaration depends on the
/// tokens of the declaration alone.
pub proof fn lemma_declaration_agree(tokens: Seq<TokenView>, other: Seq<TokenView>)
    requires
        declaration_span(tokens) is Some,
        agree(tokens, other, declaration_span(tokens)->0),
    ensures
        declaration_span(tokens)->0 <= tokens.len(),
        parse_variable_dec(other).stmt == parse_variable_dec(tokens).stmt,
        parse_variable_dec(other).diags == parse_variable_dec(tokens).diags,
        parse_variable_dec(tokens).rest == tokens.skip(declaration_span(tokens)->0 as int),
        parse_variable_dec(other).rest == other.skip(declaration_span(tokens)->0 as int),
{
    reveal(parse_variable_dec);
    let count = declaration_span(tokens)->0;
    lemma_at(tokens, 0);
    lemma_at(tokens, 1);
    lemma_at(tokens, 2);
    lemma_at(tokens, 3);
    if tokens[3] is LBracket {
        let inner = span_behind(tokens, 4, TokenView::RBracket)->0;
        lemma_agree_behind(tokens, other, count, 0);
        assert(agree(tokens, other, inner));
        lemma_expression_behind(tokens, other, 4, TokenView::RBracket);
        lemma_at(tokens, inner);
        lemma_at(other, inner);
    } else {
        lemma_expression_behind(tokens, other, 3, TokenView::SemiColon);
        assert(put_back(tokens.skip(3)) == tokens.skip(3));
    }
    lemma_at(other, 0);
    lemma_at(other, 1);
    lemma_at(other, 2);
    lemma_at(other, 3);
    if !(tokens[3] is LBracket) {
        assert(put_back(other.skip(3)) == other.skip(3));
    }
}

/// What a statement builder makes of a statement that holds no block
/// depends on the tokens of the statement alone.
pub proof fn lemma_simple_agree(token: TokenView, tokens: Seq<TokenView>, other: Seq<TokenView>)
    requires
        simple_span(token, tokens) is Some,
        agree(tokens, other, simple_span(token, tokens)->0),
    ensures
        simple_span(token, tokens)->0 <= tokens.len(),
        parse_simple_statement(token, tokens) is Some,
        parse_simple_statement(token, other)->0.stmt == parse_simple_statement(
            token,
            tokens,
        )->0.stmt,
        parse_simple_statement(token, other)->0.diags == parse_simple_statement(
            token,
            tokens,
        )->0.diags,
        parse_simple_statement(token, tokens)->0.rest == tokens.skip(
            simple_span(token, tokens)->0 as int,
        ),
        parse_simple_statement(token, other)->0.rest == other.skip(
            simple_span(token, tokens)->0 as int,
        ),
{
    let count = simple_span(token, tokens)->0;
    match token {
        TokenView::Return => {
            lemma_expression_behind(tokens, other, 0, TokenView::SemiColon);
            assert(tokens.skip(0) =~= tokens);
            assert(other.skip(0) =~= other);
        },
        TokenView::Var => {
            lemma_declaration_agree(tokens, other);
        },
        TokenView::Struct => {
            reveal(parse_struct_dec);
            lemma_expression_behind(tokens, other, 2, TokenView::SemiColon);
            lemma_at(tokens, 0);
            lemma_at(tokens, 1);
            lemma_at(other, 0);
            lemma_at(other, 1);
        },
        TokenView::Id(name) => {
            reveal(parse_id_statement);
            reveal(parse_target);
            let taken = target_span(tokens)->0;
            lemma_expression_behind(tokens, other, taken, TokenView::SemiColon);
            lemma_at(tokens, 0);
            lemma_at(other, 0);
            match tokens[0] {
                TokenView::LBracket => {
                    assert(agree(tokens, other, taken));
                    lemma_expression_behind(tokens, other, 1, TokenView::RBracket);
                },
                TokenView::Dot => {
                    lemma_at(tokens, 1);
                    lemma_at(other, 1);
                },
                _ => {},
            }
        },
        TokenView::Break | TokenView::Continue => {
            lemma_at(tokens, 0);
            lemma_at(other, 0);
        },
        _ => {},
    }
}

/// What the builder of a named constant makes of a constant depends on the
/// tokens of the constant alone.
pub proof fn lemma_const_agree(tokens: Seq<TokenView>, other: Seq<TokenView>)
    requires
        span_behind(tokens, 4, TokenView::SemiColon) is Some,
        agree(tokens, other, span_behind(tokens, 4, TokenView::SemiColon)->0),
    ensures
        span_behind(tokens, 4, TokenView::SemiColon)->0 <= tokens.len(),
        parse_const(other).arg == parse_const(tokens).arg,
        parse_const(other).diags == parse_const(tokens).diags,
        parse_const(tokens).rest == tokens.skip(
            span_behind(tokens, 4, TokenView::SemiColon)->0 as int,
        ),
        parse_const(other).rest == other.skip(
            span_behind(tokens, 4, TokenView::SemiColon)->0 as int,
        ),
{
    reveal(parse_const);
    lemma_expression_behind(tokens, other, 4, TokenView::SemiColon);
    lemma_at(tokens, 0);
    lemma_at(tokens, 1);
    lemma_at(tokens, 2);
    lemma_at(tokens, 3);
    lemma_at(other, 0);
    lemma_at(other, 1);
    lemma_at(other, 2);
    lemma_at(other, 3);
}

// ---------------------------------------------------------------------------
// Sequences of statements
// ---------------------------------------------------------------------------
/// How many tokens a statement of a block takes behind its first token,
/// where it ends inside the stream. A loop takes its condition and its block
/// with the `end` of the block; a token that starts no statement takes
/// nothing behind itself. `None` for `if`, `elif`, `else`, `end` and `Eof`,
/// which are no statements here.
pub open spec fn statement_span(token: TokenView, tokens: Seq<TokenView>) -> Option<nat>
    decreases tokens.len(), 1nat,
{
    match token {
        TokenView::If | TokenView::Elif | TokenView::Else | TokenView::End | TokenView::Eof => None,
        TokenView::Const => span_behind(tokens, 4, TokenView::SemiColon),
        TokenView::While => match loop_span(tokens, TokenView::Do) {
            Some(condition) => if condition <= tokens.len() {
                match block_span(tokens.skip(condition as int)) {
                    Some(body) => Some(condition + body),
                    None => None,
                }
            } else {
                None
            },
            None => None,
        },
        _ => if parse_simple_statement(token, tokens) is Some {
            simple_span(token, tokens)
        } else {
            Some(0)
        },
    }
}

/// How many tokens the block builder takes from a stream, the `end` that
/// closes the block last, where the block is a sequence of statements that
/// end inside the stream, without `if`, `elif` and `else`.
pub open spec fn block_span(tokens: Seq<TokenView>) -> Option<nat>
    decreases tokens.len(), 0nat,
{
    if tokens.len() == 0 {
        None
    } else if tokens[0] is End {
        Some(1)
    } else {
        let rest = tokens.drop_first();
        match statement_span(tokens[0], rest) {
            Some(taken) => if taken <= rest.len() {
                match block_span(rest.skip(taken as int)) {
                    Some(more) => Some(1 + taken + more),
                    None => None,
                }
            } else {
                None
            },
            None => None,
        }
    }
}

/// The state of the block builder after a statement that starts with
/// `token`, which stood before the stream `tokens`.
pub open spec fn after_statement(
    token: TokenView,
    tokens: Seq<TokenView>,
    state: BlockState,
) -> BlockState {
    match token {
        TokenView::Const => {
            let c = parse_const(tokens);
            state.reported(c.diags).constants(seq![c.arg])
        },
        TokenView::While => {
            let condition = parse_expression(tokens, TokenView::Do);
            let body = parse_block(condition.rest);
            state.reported(condition.diags).inner(body).statement(
                while_statement(condition.expr, body.block),
            )
        },
        _ => match parse_simple_statement(token, tokens) {
            Some(parse) => state.built(parse),
            None => state.reported(report(Problem::InvalidStatementToken, token)),
        },
    }
}

/// The state that a block stands for.
pub open spec fn state_of(parse: BlockParse) -> BlockState {
    BlockState { block: parse.block, consts: parse.consts, diags: parse.diags }
}

/// One statement of a block: the block builder takes it and goes on behind
/// it, and what it makes of it depends on the tokens of the statement alone.
pub proof fn lemma_statement_step(tokens: Seq<TokenView>, other: Seq<TokenView>, state: BlockState)
    requires
        tokens.len() > 0,
        statement_span(tokens[0], tokens.drop_first()) is Some,
        agree(tokens, other, 1 + statement_span(tokens[0], tokens.drop_first())->0),
    ensures
        1 + statement_span(tokens[0], tokens.drop_first())->0 <= tokens.len(),
        block_loop(tokens, state) == block_loop(
            tokens.skip((1 + statement_span(tokens[0], tokens.drop_first())->0) as int),
            after_statement(tokens[0], tokens.drop_first(), state),
        ),
        block_loop(other, state) == block_loop(
            other.skip((1 + statement_span(tokens[0], tokens.drop_first())->0) as int),
            after_statement(tokens[0], tokens.drop_first(), state),
        ),
    decreases tokens.len(), 0nat,
{
    reveal(block_loop);
    reveal(parse_block);
    let token = tokens[0];
    let rest = tokens.drop_first();
    let other_rest = other.drop_first();
    let taken = statement_span(token, rest)->0;
    assert(first_token(tokens) == token && rest_tokens(tokens) == rest);
    assert(first_token(other) == token && rest_tokens(other) == other_rest);
    assert(rest =~= tokens.skip(1));
    assert(other_rest =~= other.skip(1));
    lemma_agree_behind(tokens, other, 1 + taken, 1);
    match token {
        TokenView::Const => {
            lemma_const_agree(rest, other_rest);
        },
        TokenView::While => {
            let count = loop_span(rest, TokenView::Do)->0;
            let inside = block_span(rest.skip(count as int))->0;
            lemma_group_rest(rest, TokenView::Do);
            assert(agree(rest, other_rest, count));
            lemma_group_agree(rest, other_rest, TokenView::Do);
            lemma_group_rest(other_rest, TokenView::Do);
            lemma_agree_behind(rest, other_rest, taken, count);
            lemma_block_agree(
                rest.skip(count as int),
                other_rest.skip(count as int),
                BlockState::start(),
            );
            assert(rest.skip(count as int).skip(inside as int) =~= rest.skip(taken as int));
            assert(other_rest.skip(count as int).skip(inside as int) =~= other_rest.skip(
                taken as int,
            ));
            let condition = parse_expression(rest, TokenView::Do);
            let body = parse_block(condition.rest);
            let other_condition = parse_expression(other_rest, TokenView::Do);
            let other_body = parse_block(other_condition.rest);
            assert(state_of(other_body) == state_of(body));
        },
        _ => {
            if parse_simple_statement(token, rest) is Some {
                lemma_simple_agree(token, rest, other_rest);
            } else {
                assert(rest.skip(0) =~= rest);
                assert(other_rest.skip(0) =~= other_rest);
            }
        },
    }
    assert(rest.skip(taken as int) =~= tokens.skip((1 + taken) as int));
    assert(other_rest.skip(taken as int) =~= other.skip((1 + taken) as int));
}

/// What the block builder makes of a block of statements that end inside
/// the stream depends on the tokens of the block alone, and the builder
/// takes these tokens and no more.
pub proof fn lemma_block_agree(tokens: Seq<TokenView>, other: Seq<TokenView>, state: BlockState)
    requires
        block_span(tokens) is Some,
        agree(tokens, other, block_span(tokens)->0),
    ensures
        1 <= block_span(tokens)->0 <= tokens.len(),
        block_loop(tokens, state).rest == tokens.skip(block_span(tokens)->0 as int),
        block_loop(other, state).rest == other.skip(block_span(tokens)->0 as int),
        state_of(block_loop(other, state)) == state_of(block_loop(tokens, state)),
        block_loop(tokens, state).block.branches == state.block.branches,
    decreases tokens.len(), 1nat,
{
    let count = block_span(tokens)->0;
    if tokens[0] is End {
        reveal(block_loop);
        reveal(parse_block);
        assert(first_token(tokens) == tokens[0] && first_token(other) == tokens[0]);
        assert(rest_tokens(tokens) =~= tokens.skip(1));
        assert(rest_tokens(other) =~= other.skip(1));
    } else {
        let rest = tokens.drop_first();
        let taken = statement_span(tokens[0], rest)->0;
        let more = block_span(rest.skip(taken as int))->0;
        assert(rest.skip(taken as int) =~= tokens.skip((1 + taken) as int));
        lemma_statement_step(tokens, other, state);
        lemma_agree_behind(tokens, other, count, 1 + taken);
        let next = after_statement(tokens[0], rest, state);
        lemma_block_agree(tokens.skip((1 + taken) as int), other.skip((1 + taken) as int), next);
        assert(tokens.skip((1 + taken) as int).skip(more as int) =~= tokens.skip(count as int));
        assert(other.skip((1 + taken) as int).skip(more as int) =~= other.skip(count as int));
    }
}

/// Whether `body` is a sequence of statements that are complete in
/// themselves, without `if`, `elif` and `else`: the block builder on `body`
/// and then `end` takes all of `body`, each statement ending in it, and then
/// the `end`.
pub open spec fn is_statements(body: Seq<TokenView>) -> bool {
    block_span(body.push(TokenView::End)) == Some((body.len() + 1) as nat)
}

/// Behind a sequence of statements that are complete in themselves the
/// block builder goes on in the state that the statements have left,
/// whatever follows.
pub proof fn lemma_block_goes_on(body: Seq<TokenView>, behind: Seq<TokenView>, state: BlockState)
    requires
        is_statements(body),
    ensures
        block_loop(body + behind, state) == block_loop(
            behind,
            state_of(block_loop(body.push(TokenView::End), state)),
        ),
    decreases body.len(),
{
    let one = body.push(TokenView::End);
    let two = body + behind;
    if body.len() == 0 {
        reveal(block_loop);
        reveal(parse_block);
        assert(first_token(one) == TokenView::End);
        assert(two =~= behind);
    } else {
        let token = body[0];
        let tail = body.drop_first();
        let rest_one = one.drop_first();
        assert(one[0] == token && two[0] == token);
        assert(rest_one =~= tail.push(TokenView::End));
        let taken = statement_span(token, rest_one)->0;
        let after = rest_one.skip(taken as int);
        lemma_block_agree(after, after, state);
        assert(taken <= tail.len());
        assert(agree(one, two, 1 + taken)) by {
            assert forall|i: int| 0 <= i < 1 + taken implies one[i] == two[i] by {
                assert(one[i] == body[i]);
                assert(two[i] == body[i]);
            }
        }
        lemma_statement_step(one, two, state);
        let left = tail.skip(taken as int);
        assert(one.skip((1 + taken) as int) =~= left.push(TokenView::End));
        assert(two.skip((1 + taken) as int) =~= left + behind);
        assert(after =~= left.push(TokenView::End));
        lemma_block_goes_on(left, behind, after_statement(token, rest_one, state));
    }
}

// ---------------------------------------------------------------------------
// Chains
// ---------------------------------------------------------------------------
/// The block that stands behind a condition: where `body` is a sequence of
/// statements complete in themselves, the block has the statements of `body`
/// alone, whatever clause or `end` follows it. `stream` behind `if`, `elif`
/// or `while` is the condition, its stop token, `body` and `behind`.
pub proof fn lemma_condition_and_body(
    condition: Seq<TokenView>,
    stop: TokenView,
    body: Seq<TokenView>,
    behind: Seq<TokenView>,
)
    requires
        complete_before(condition, stop),
        is_statements(body),
    ensures
        parse_expression(condition.push(stop) + (body + behind), stop).expr == parse_expression(
            condition.push(stop),
            stop,
        ).expr,
        parse_expression(condition.push(stop) + (body + behind), stop).rest == body + behind,
        parse_block(body + behind) == block_loop(
            behind,
            state_of(parse_block(body.push(TokenView::End))),
        ),
        parse_block(body.push(TokenView::End)).block.branches == Seq::<StmtView>::empty(),
{
    let alone = condition.push(stop);
    let stream = alone + (body + behind);
    let count = (condition.len() + 1) as nat;
    assert(agree(alone, stream, count));
    lemma_group_agree(alone, stream, stop);
    lemma_group_rest(stream, stop);
    assert(stream.skip(count as int) =~= body + behind);
    reveal(block_loop);
    reveal(parse_block);
    lemma_block_goes_on(body, behind, BlockState::start());
    let only = body.push(TokenView::End);
    lemma_block_agree(only, only, BlockState::start());
}

/// A chain `if C1 then S1 elif C2 then S2 else S3 end`, with conditions and
/// statements that are complete in themselves, is one statement of the block
/// that it stands in:
/// an `if` with the condition `C1`;
/// its own block holds the statements of `S1` alone;
/// its branch list is an `elif` clause with the condition `C2` and the
/// statements of `S2` alone, and then an `else` clause with the statements of
/// `S3` alone;
/// and the block builder goes on behind the one `end`, with nothing added to
/// the branch list of the block that the chain stands in.
pub proof fn lemma_chain_of_tokens(
    c1: Seq<TokenView>,
    s1: Seq<TokenView>,
    c2: Seq<TokenView>,
    s2: Seq<TokenView>,
    s3: Seq<TokenView>,
    behind: Seq<TokenView>,
    state: BlockState,
)
    requires
        complete_before(c1, TokenView::Then),
        complete_before(c2, TokenView::Then),
        is_statements(s1),
        is_statements(s2),
        is_statements(s3),
    ensures
        ({
            let from_else = s3.push(TokenView::End) + behind;
            let from_elif = c2.push(TokenView::Then) + (s2 + cons(TokenView::Else, from_else));
            let stream = c1.push(TokenView::Then) + (s1 + cons(TokenView::Elif, from_elif));
            let first = parse_block(s1.push(TokenView::End)).block;
            let second = parse_block(s2.push(TokenView::End)).block;
            let third = parse_block(s3.push(TokenView::End)).block;
            let else_clause = else_statement(third);
            let elif_clause = elif_statement(
                parse_expression(c2.push(TokenView::Then), TokenView::Then).expr,
                StmtView { branches: seq![else_clause], ..second },
            );
            let chain = if_statement(
                parse_expression(c1.push(TokenView::Then), TokenView::Then).expr,
                StmtView { branches: seq![elif_clause, else_clause], ..first },
            );
            let end = block_loop(cons(TokenView::If, stream), state);
            &&& chain.kind == AstType::If
            &&& chain.statements == seq![StmtView { branches: chain.branches, ..first }]
            &&& chain.branches == seq![elif_clause, else_clause]
            &&& first.branches.len() == 0 && second.branches.len() == 0 && third.branches.len()
                == 0
            &&& exists|next: BlockState|
                {
                    &&& end == #[trigger] block_loop(behind, next)
                    &&& next.block == (StmtView {
                        statements: state.block.statements.push(chain),
                        ..state.block
                    })
                }
        }),
{
    let from_else = s3.push(TokenView::End) + behind;
    let after_else = cons(TokenView::Else, from_else);
    let from_elif = c2.push(TokenView::Then) + (s2 + after_else);
    let after_elif = cons(TokenView::Elif, from_elif);
    let stream = c1.push(TokenView::Then) + (s1 + after_elif);
    // The `if`, its condition and its block.
    lemma_if_statement(stream, state);
    lemma_condition_and_body(c1, TokenView::Then, s1, after_elif);
    let condition = parse_expression(stream, TokenView::Then);
    let body = parse_block(condition.rest);
    let first_state = state_of(parse_block(s1.push(TokenView::End)));
    // The `elif`, its condition and its block.
    lemma_elif_clause(from_elif, first_state);
    lemma_condition_and_body(c2, TokenView::Then, s2, after_else);
    let second_condition = parse_expression(from_elif, TokenView::Then);
    let second_body = parse_block(second_condition.rest);
    let second_state = state_of(parse_block(s2.push(TokenView::End)));
    // The `else` and its block.
    lemma_else_clause(from_else, second_state);
    let only = s3.push(TokenView::End);
    reveal(block_loop);
    reveal(parse_block);
    assert(agree(only, from_else, (s3.len() + 1) as nat));
    lemma_block_agree(only, from_else, BlockState::start());
    assert(from_else.skip((s3.len() + 1) as int) =~= behind);
    let third = parse_block(only).block;
    let third_body = parse_block(from_else);
    assert(third_body.block == third);
    let else_clause = else_statement(third);
    assert(second_body.block.branches =~= seq![else_clause]);
    let elif_clause = elif_statement(second_condition.expr, second_body.block);
    assert(body.block.branches =~= seq![elif_clause, else_clause]);
    let next = state.reported(condition.diags).inner(body).statement(
        if_statement(condition.expr, body.block),
    );
    assert(block_loop(cons(TokenView::If, stream), state) == block_loop(behind, next));
}

} // verus!
