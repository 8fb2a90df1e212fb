//! The parser: it takes tokens from its scanner and builds the syntax tree
//! that the grammar describes, reporting what it could not make sense of.

use vstd::prelude::*;
use crate::ast::arg_views;
use crate::ast::ArgView;
use crate::ast::ast_new_arg;
use crate::ast::ast_new_expression;
use crate::ast::ast_new_file;
use crate::ast::ast_new_function;
use crate::ast::ast_new_statement;
use crate::ast::ast_new_struct;
use crate::ast::AstStruct;
use crate::ast::StructView;
use crate::grammar::parse_struct_def;
use crate::grammar::parse_struct_items;
use crate::ast::AstArg;
use crate::ast::AstExpression;
use crate::ast::AstFile;
use crate::ast::AstStatement;
use crate::ast::AstType;
use crate::ast::DataType;
use crate::ast::expr_views;
use crate::ast::ExprView;
use crate::ast::FileView;
use crate::ast::FunctionView;
use crate::ast::lemma_arg_views_push;
use crate::ast::lemma_expr_views_drop_last;
use crate::ast::lemma_expr_views_push;
use crate::ast::stmt_views;
use crate::ast::StmtView;
use crate::diagnostic::Diagnostic;
use crate::diagnostic::diagnostic_views;
use crate::diagnostic::DiagnosticView;
use crate::diagnostic::lemma_diagnostic_views_push;
use crate::diagnostic::Problem;
use crate::dump::file_dump;
use crate::dump::file_printable;
use crate::grammar::apply_operator;
use crate::grammar::block_loop;
use crate::grammar::BlockParse;
use crate::grammar::BlockState;
use crate::grammar::elif_statement;
use crate::grammar::else_statement;
use crate::grammar::expr_loop;
use crate::grammar::ExprRun;
use crate::grammar::ExprState;
use crate::grammar::file_loop;
use crate::grammar::FileParse;
use crate::grammar::FunctionParse;
use crate::grammar::if_statement;
use crate::grammar::lemma_block_rest;
use crate::grammar::lemma_const_rest;
use crate::grammar::lemma_expression_rest;
use crate::grammar::lemma_function_rest;
use crate::grammar::lemma_primary_rest;
use crate::grammar::lemma_reduce_keeps_operands;
use crate::grammar::lemma_simple_statement_rest;
use crate::grammar::literal_expr;
use crate::grammar::member_name;
use crate::grammar::member_report;
use crate::grammar::missing_operand;
use crate::grammar::name_of;
use crate::grammar::operator_kind;
use crate::grammar::ParamsParse;
use crate::grammar::parse_block;
use crate::grammar::parse_const;
use crate::grammar::parse_data_type;
use crate::grammar::parse_expression;
use crate::grammar::parse_file;
use crate::grammar::parse_function;
use crate::grammar::parse_id_statement;
use crate::grammar::parse_jump;
use crate::grammar::parse_param;
use crate::grammar::parse_params;
use crate::grammar::lemma_param_rest;
use crate::grammar::parse_primary;
use crate::grammar::parse_return;
use crate::grammar::parse_simple_statement;
use crate::grammar::parse_struct_dec;
use crate::grammar::parse_target;
use crate::grammar::parse_variable_dec;
use crate::grammar::put_back;
use crate::grammar::reduce;
use crate::grammar::report;
use crate::grammar::top_operand;
use crate::grammar::TypeParse;
use crate::grammar::unless;
use crate::grammar::unless_id;
use crate::grammar::while_statement;
use crate::grammar::without_top;
use crate::lex::first_token;
use crate::lex::joined_lines;
use crate::lex::lex_new;
use crate::lex::line_views;
use crate::lex::rest_tokens;
use crate::lex::Scanner;
use crate::lex::Token;
use crate::lex::TokenView;

verus! {

/// The parser: a scanner, the file that it builds, the named constants that
/// wait for their function, and what was reported so far.
pub struct Parser {
    pub file_name: String,
    pub ast: AstFile,
    scanner: Scanner,
    local_consts: Vec<AstArg>,
    diagnostics: Vec<Diagnostic>,
}

impl Parser {
    /// The name of the file that is parsed.
    pub closed spec fn name(&self) -> Seq<char> {
        self.file_name@
    }

    /// The file as built so far.
    pub closed spec fn file(&self) -> FileView {
        self.ast@
    }

    /// The parser's scanner.
    pub closed spec fn scanner(&self) -> Scanner {
        self.scanner
    }

    /// The named constants that wait for their function.
    pub closed spec fn pending(&self) -> Seq<ArgView> {
        arg_views(self.local_consts@)
    }

    /// What was reported so far, in the order in which it was found.
    pub closed spec fn reports(&self) -> Seq<DiagnosticView> {
        diagnostic_views(self.diagnostics@)
    }

    /// The tokens that the parser has before it.
    pub open spec fn tokens(&self) -> Seq<TokenView> {
        self.scanner().tokens()
    }

    /// The parser stands where `before` stood, but that it has `rest` before
    /// it and has reported `diags` since.
    pub open spec fn advanced(
        &self,
        before: &Parser,
        rest: Seq<TokenView>,
        diags: Seq<DiagnosticView>,
    ) -> bool {
        &&& self.tokens() == rest
        &&& self.reports() == before.reports() + diags
        &&& self.pending() == before.pending()
        &&& self.file() == before.file()
        &&& self.name() == before.name()
        &&& self.scanner().source() == before.scanner().source()
    }

    /// As `advanced`, but that the named constants `consts` have joined
    /// those that wait.
    pub open spec fn advanced_with(
        &self,
        before: &Parser,
        rest: Seq<TokenView>,
        diags: Seq<DiagnosticView>,
        consts: Seq<ArgView>,
    ) -> bool {
        &&& self.tokens() == rest
        &&& self.reports() == before.reports() + diags
        &&& self.pending() == before.pending() + consts
        &&& self.file() == before.file()
        &&& self.name() == before.name()
        &&& self.scanner().source() == before.scanner().source()
    }

    /// Takes the next token of the stream.
    fn next(&mut self) -> (token: Token)
        ensures
            token@ == first_token(old(self).tokens()),
            final(self).advanced(old(self), rest_tokens(old(self).tokens()), Seq::empty()),
    {
        self.scanner.get_next()
    }

    /// Puts back a token that was just taken, unless it is `Eof`.
    fn put_back(&mut self, token: Token, Ghost(before): Ghost<Seq<TokenView>>)
        requires
            token@ == first_token(before),
            old(self).tokens() == rest_tokens(before),
        ensures
            final(self).advanced(old(self), put_back(before), Seq::empty()),
    {
        if !token.is_eof() {
            self.scanner.unget(token);
            assert(seq![token@] + rest_tokens(before) =~= before);
        }
    }

    /// Records a problem and the token that it was found at.
    fn report(&mut self, problem: Problem, token: Token)
        ensures
            final(self).advanced(old(self), old(self).tokens(), report(problem, token@)),
    {
        let entry = Diagnostic::new(problem, token);
        proof {
            lemma_diagnostic_views_push(self.diagnostics@, entry);
        }
        self.diagnostics.push(entry);
        assert(self.reports() =~= old(self).reports() + report(problem, token@));
    }

    /// Takes the operand on top of the stack. Where the stack is empty the
    /// operand is the placeholder, and that is reported.
    fn take_operand(&mut self, stack: &mut Vec<AstExpression>, token: Token) -> (operand:
        AstExpression)
        ensures
            operand@ == top_operand(expr_views(old(stack)@)),
            expr_views(final(stack)@) == without_top(expr_views(old(stack)@)),
            final(self).advanced(
                old(self),
                old(self).tokens(),
                missing_operand(expr_views(old(stack)@), token@),
            ),
    {
        match stack.pop() {
            Some(operand) => {
                proof {
                    lemma_expr_views_drop_last(old(stack)@);
                }
                operand
            },
            None => {
                self.report(Problem::MissingOperand, token);
                ast_new_expression(AstType::Empty)
            },
        }
    }

    /// The reduction: every operator leaves the operator stack, the one that
    /// came last first, takes its operands from the operand stack and goes
    /// onto it.
    pub fn process_expression(
        &mut self,
        stack: &mut Vec<AstExpression>,
        op_stack: &mut Vec<AstExpression>,
    )
        ensures
            expr_views(final(stack)@) == reduce(
                expr_views(old(stack)@),
                expr_views(old(op_stack)@),
            ).stack,
            final(op_stack)@.len() == 0,
            final(self).advanced(
                old(self),
                old(self).tokens(),
                reduce(expr_views(old(stack)@), expr_views(old(op_stack)@)).diags,
            ),
    {
        let ghost whole = reduce(expr_views(stack@), expr_views(op_stack@));
        let ghost mut done: Seq<DiagnosticView> = Seq::empty();
        while op_stack.len() > 0
            invariant
                reduce(expr_views(stack@), expr_views(op_stack@)).stack == whole.stack,
                done + reduce(expr_views(stack@), expr_views(op_stack@)).diags == whole.diags,
                self.advanced(old(self), old(self).tokens(), done),
            decreases op_stack.len(),
        {
            let ghost operands = expr_views(stack@);
            let ghost operators = expr_views(op_stack@);
            let ghost step = apply_operator(operands, operators.last());
            let ghost others = reduce(step.stack, operators.drop_last());
            let ghost reported = self.reports();
            proof {
                lemma_expr_views_drop_last(op_stack@);
            }
            let mut op = op_stack.pop().unwrap();
            let rval = self.take_operand(stack, Token::Unknown);
            if op.get_type() == AstType::Assign {
                op.set_rval(rval);
            } else {
                let lval = self.take_operand(stack, Token::Unknown);
                op.set_lval(lval);
                op.set_rval(rval);
            }
            proof {
                lemma_expr_views_push(stack@, op);
            }
            stack.push(op);
            proof {
                assert(expr_views(stack@) == step.stack);
                assert(self.reports() =~= reported + step.diags);
                assert(self.reports() =~= old(self).reports() + (done + step.diags));
                assert((done + step.diags) + others.diags =~= done + (step.diags + others.diags));
                done = done + step.diags;
            }
        }
        proof {
            assert(expr_views(op_stack@).len() == 0);
        }
    }

    /// The data-type builder: it takes one token and gives the type that the
    /// token names, or reports the token and gives `Void`.
    pub fn build_data_type(&mut self) -> (data_type: DataType)
        ensures
            data_type == parse_data_type(old(self).tokens()).data_type,
            final(self).advanced(
                old(self),
                parse_data_type(old(self).tokens()).rest,
                parse_data_type(old(self).tokens()).diags,
            ),
    {
        let token = self.next();
        let ghost mid = *self;
        match token {
            Token::I8 => DataType::I8,
            Token::U8 => DataType::U8,
            Token::I16 => DataType::I16,
            Token::U16 => DataType::U16,
            Token::I32 => DataType::I32,
            Token::U32 => DataType::U32,
            Token::I64 => DataType::I64,
            Token::U64 => DataType::U64,
            Token::String => DataType::String,
            Token::Char => DataType::Char,
            Token::Bool => DataType::Bool,
            other => {
                self.report(Problem::UnknownDataType, other);
                proof {
                    self.lemma_steps(
                        &mid,
                        old(self),
                        Seq::empty(),
                        report(Problem::UnknownDataType, other@),
                        report(Problem::UnknownDataType, other@),
                    );
                }
                DataType::Void
            },
        }
    }

    /// The name behind the `.` of a member access: the token's name, or the
    /// empty name and a report where the token is no identifier.
    fn member_name(&mut self, token: Token) -> (name: String)
        ensures
            name@ == member_name(token@),
            final(self).advanced(old(self), old(self).tokens(), member_report(token@)),
    {
        match token {
            Token::Id(name) => {
                assert(self.reports() =~= old(self).reports() + member_report(token@));
                name
            },
            other => {
                self.report(Problem::ExpectedItemName, other);
                String::new()
            },
        }
    }

    /// A node of the given tag with a name and one sub-argument.
    fn applied(kind: AstType, name: String, arg: AstExpression) -> (expr: AstExpression)
        ensures
            expr@ == ExprView::applied(kind, name@, arg@),
    {
        let mut expr = ast_new_expression(kind);
        expr.set_name(name);
        expr.set_arg(arg);
        assert(expr@.args =~= seq![arg@]);
        expr
    }

    /// What an identifier stands for, with the tokens that follow it.
    fn build_primary(&mut self, name: String) -> (expr: AstExpression)
        ensures
            expr@ == parse_primary(name@, old(self).tokens()).expr,
            final(self).advanced(
                old(self),
                parse_primary(name@, old(self).tokens()).rest,
                parse_primary(name@, old(self).tokens()).diags,
            ),
        decreases old(self).tokens().len(), 2nat,
    {
        proof {
            reveal(expr_loop);
            reveal(parse_expression);
            reveal(parse_primary);
        }
        let ghost before = self.tokens();
        let token = self.next();
        let ghost mid = *self;
        match token {
            Token::LParen => {
                let sub_expr = self.build_expression(Token::RParen);
                proof {
                    let inner = parse_expression(rest_tokens(before), TokenView::RParen);
                    self.lemma_steps(&mid, old(self), Seq::empty(), inner.diags, inner.diags);
                }
                Self::applied(AstType::Call, name, sub_expr)
            },
            Token::LBracket => {
                let sub_expr = self.build_expression(Token::RBracket);
                proof {
                    let inner = parse_expression(rest_tokens(before), TokenView::RBracket);
                    self.lemma_steps(&mid, old(self), Seq::empty(), inner.diags, inner.diags);
                }
                Self::applied(AstType::ArrayAcc, name, sub_expr)
            },
            Token::Dot => {
                let member = self.next();
                let ghost here = *self;
                let item_name = self.member_name(member);
                proof {
                    here.lemma_steps(&mid, old(self), Seq::empty(), Seq::empty(), Seq::empty());
                    self.lemma_steps(
                        &here,
                        old(self),
                        Seq::empty(),
                        member_report(member@),
                        member_report(member@),
                    );
                }
                let mut sub_expr = ast_new_expression(AstType::Id);
                sub_expr.set_name(item_name);
                Self::applied(AstType::StructAcc, name, sub_expr)
            },
            other => {
                self.put_back(other, Ghost(before));
                proof {
                    self.lemma_steps(&mid, old(self), Seq::empty(), Seq::empty(), Seq::empty());
                }
                let mut expr = ast_new_expression(AstType::Id);
                expr.set_name(name);
                expr
            },
        }
    }

    /// What a token that stands for itself does to the state of the
    /// expression builder.
    #[verifier::rlimit(30)]
    fn plain_token(
        &mut self,
        token: Token,
        stack: &mut Vec<AstExpression>,
        op_stack: &mut Vec<AstExpression>,
        list_expr: &mut AstExpression,
        is_list: &mut bool,
        Ghost(state): Ghost<ExprState>,
    )
        requires
            expr_views(old(stack)@) == state.stack,
            expr_views(old(op_stack)@) == state.ops,
            old(list_expr)@ == ExprView::list_of(state.items),
            *old(is_list) == state.is_list,
            !(token@ is LParen),
            !(token@ is Id),
        ensures
            expr_views(final(stack)@) == state.plain(token@).stack,
            expr_views(final(op_stack)@) == state.plain(token@).ops,
            final(list_expr)@ == ExprView::list_of(state.plain(token@).items),
            *final(is_list) == state.plain(token@).is_list,
            state.diags.is_prefix_of(state.plain(token@).diags),
            final(self).advanced(
                old(self),
                old(self).tokens(),
                state.plain(token@).diags.skip(state.diags.len() as int),
            ),
    {
        let ghost after = state.plain(token@);
        match token {
            Token::Comma => {
                *is_list = true;
                let ghost reduced = reduce(state.stack, state.ops);
                self.process_expression(stack, op_stack);
                let ghost mid = *self;
                let item = self.take_operand(stack, Token::Comma);
                list_expr.add_list_item(item);
                proof {
                    assert(expr_views(op_stack@) =~= Seq::empty());
                    let found = reduced.diags + missing_operand(reduced.stack, TokenView::Comma);
                    self.lemma_steps(
                        &mid,
                        old(self),
                        reduced.diags,
                        missing_operand(reduced.stack, TokenView::Comma),
                        found,
                    );
                    assert(after.diags =~= state.diags + found);
                    assert(after.diags.skip(state.diags.len() as int) =~= found);
                }
            },
            Token::IntL(value) => {
                let mut expr = ast_new_expression(AstType::IntLiteral);
                expr.set_int(value);
                proof {
                    lemma_expr_views_push(stack@, expr);
                }
                stack.push(expr);
            },
            Token::StringL(text) => {
                let mut expr = ast_new_expression(AstType::StringLiteral);
                expr.set_string(text);
                proof {
                    lemma_expr_views_push(stack@, expr);
                }
                stack.push(expr);
            },
            Token::CharL(value) => {
                let mut expr = ast_new_expression(AstType::CharLiteral);
                expr.set_char(value);
                proof {
                    lemma_expr_views_push(stack@, expr);
                }
                stack.push(expr);
            },
            Token::True => {
                let expr = ast_new_expression(AstType::BoolLiteral(true));
                proof {
                    lemma_expr_views_push(stack@, expr);
                }
                stack.push(expr);
            },
            Token::False => {
                let expr = ast_new_expression(AstType::BoolLiteral(false));
                proof {
                    lemma_expr_views_push(stack@, expr);
                }
                stack.push(expr);
            },
            Token::Assign => Self::push_operator(op_stack, AstType::Assign),
            Token::Add => Self::push_operator(op_stack, AstType::Add),
            Token::Sub => Self::push_operator(op_stack, AstType::Sub),
            Token::Mul => Self::push_operator(op_stack, AstType::Mul),
            Token::Div => Self::push_operator(op_stack, AstType::Div),
            Token::Mod => Self::push_operator(op_stack, AstType::Mod),
            Token::And => Self::push_operator(op_stack, AstType::And),
            Token::Or => Self::push_operator(op_stack, AstType::Or),
            Token::Xor => Self::push_operator(op_stack, AstType::Xor),
            Token::Eq => Self::push_operator(op_stack, AstType::Eq),
            Token::Ne => Self::push_operator(op_stack, AstType::Ne),
            Token::Gt => Self::push_operator(op_stack, AstType::Gt),
            Token::Ge => Self::push_operator(op_stack, AstType::Ge),
            Token::Lt => Self::push_operator(op_stack, AstType::Lt),
            Token::Le => Self::push_operator(op_stack, AstType::Le),
            Token::LGAnd => Self::push_operator(op_stack, AstType::LGAnd),
            Token::LGOr => Self::push_operator(op_stack, AstType::LGOr),
            other => {
                self.report(Problem::InvalidExpressionToken, other);
                proof {
                    assert(after.diags.skip(state.diags.len() as int) =~= report(
                        Problem::InvalidExpressionToken,
                        other@,
                    ));
                }
            },
        }
        proof {
            if !(token@ is Comma) && (literal_expr(token@) is Some || operator_kind(token@) is Some) {
                assert(after.diags.skip(state.diags.len() as int) =~= Seq::empty());
                assert(self.reports() =~= old(self).reports() + Seq::empty());
            }
        }
    }

    /// Puts a fresh operator node onto the operator stack.
    fn push_operator(op_stack: &mut Vec<AstExpression>, kind: AstType)
        ensures
            expr_views(final(op_stack)@) == expr_views(old(op_stack)@).push(ExprView::new(kind)),
    {
        let op = ast_new_expression(kind);
        proof {
            lemma_expr_views_push(op_stack@, op);
        }
        op_stack.push(op);
    }

    /// The expression builder: it takes tokens up to `stop` or the end of the
    /// stream, either of which it takes too, and gives the expression that
    /// they make, the placeholder if they make none.
    pub fn build_expression(&mut self, stop: Token) -> (expr: AstExpression)
        ensures
            expr@ == parse_expression(old(self).tokens(), stop@).expr,
            final(self).advanced(
                old(self),
                parse_expression(old(self).tokens(), stop@).rest,
                parse_expression(old(self).tokens(), stop@).diags,
            ),
        decreases old(self).tokens().len(), 1nat,
    {
        let mut stack: Vec<AstExpression> = Vec::new();
        let mut op_stack: Vec<AstExpression> = Vec::new();
        let mut list_expr = ast_new_expression(AstType::ExprList);
        let mut is_list = false;
        let ghost start = self.tokens();
        let ghost mut state = ExprState::start();
        let ghost whole = expr_loop(start, stop@, state);
        proof {
            reveal(expr_loop);
            reveal(parse_expression);
            reveal(parse_primary);
            assert(expr_views(stack@) =~= state.stack);
            assert(expr_views(op_stack@) =~= state.ops);
            assert(self.reports() =~= old(self).reports() + state.diags);
        }
        loop
            invariant_except_break
                expr_loop(self.tokens(), stop@, state) == whole,
            invariant
                self.tokens().len() <= start.len(),
                start == old(self).tokens(),
                expr_views(stack@) == state.stack,
                expr_views(op_stack@) == state.ops,
                list_expr@ == ExprView::list_of(state.items),
                is_list == state.is_list,
                self.advanced(old(self), self.tokens(), state.diags),
            ensures
                whole == (ExprRun { state, rest: self.tokens() }),
            decreases self.tokens().len(),
        {
            let ghost before = self.tokens();
            let ghost entry = *self;
            let token = self.next();
            let ghost mid = *self;
            proof {
                reveal(expr_loop);
                reveal(parse_expression);
                reveal(parse_primary);
                mid.lemma_steps(&entry, old(self), state.diags, Seq::empty(), state.diags);
            }
            if token.same(&stop) || token.is_eof() {
                break ;
            }
            match token {
                Token::LParen => {
                    let expr = self.build_expression(Token::RParen);
                    proof {
                        let inner = parse_expression(rest_tokens(before), TokenView::RParen);
                        lemma_expression_rest(rest_tokens(before), TokenView::RParen);
                        lemma_expr_views_push(stack@, expr);
                        self.lemma_steps(
                            &mid,
                            old(self),
                            state.diags,
                            inner.diags,
                            state.diags + inner.diags,
                        );
                        state = state.reported(inner.diags).operand(inner.expr);
                    }
                    stack.push(expr);
                },
                Token::Id(name) => {
                    let ghost inner = parse_primary(name@, rest_tokens(before));
                    let expr = self.build_primary(name);
                    proof {
                        lemma_primary_rest(name@, rest_tokens(before));
                        lemma_expr_views_push(stack@, expr);
                        self.lemma_steps(
                            &mid,
                            old(self),
                            state.diags,
                            inner.diags,
                            state.diags + inner.diags,
                        );
                        state = state.reported(inner.diags).operand(inner.expr);
                    }
                    stack.push(expr);
                },
                other => {
                    let ghost next = state.plain(other@);
                    self.plain_token(
                        other,
                        &mut stack,
                        &mut op_stack,
                        &mut list_expr,
                        &mut is_list,
                        Ghost(state),
                    );
                    proof {
                        self.lemma_steps(
                            &mid,
                            old(self),
                            state.diags,
                            next.diags.skip(state.diags.len() as int),
                            next.diags,
                        );
                        state = next;
                    }
                },
            }
        }
        let ghost run = state;
        let ghost end = run.finish();
        let ghost loop_end = *self;
        if is_list && stack.len() > 0 {
            proof {
                lemma_reduce_keeps_operands(run.stack, run.ops);
                lemma_expr_views_drop_last(stack@);
            }
            self.process_expression(&mut stack, &mut op_stack);
            proof {
                lemma_expr_views_drop_last(stack@);
            }
            let item = stack.pop().unwrap();
            list_expr.add_list_item(item);
            proof {
                assert(expr_views(op_stack@) =~= Seq::empty());
            }
        }
        let ghost closed_at = *self;
        self.process_expression(&mut stack, &mut op_stack);
        proof {
            assert(expr_views(stack@) == end.stack);
            assert(self.reports() =~= old(self).reports() + end.diags);
        }
        if is_list {
            return list_expr;
        }
        if stack.len() == 0 {
            return ast_new_expression(AstType::Empty);
        }
        proof {
            lemma_expr_views_drop_last(stack@);
        }
        stack.pop().unwrap()
    }

    /// Two steps, one after the other, make one step.
    proof fn lemma_steps(
        &self,
        mid: &Parser,
        before: &Parser,
        first: Seq<DiagnosticView>,
        second: Seq<DiagnosticView>,
        both: Seq<DiagnosticView>,
    )
        requires
            mid.advanced(before, mid.tokens(), first),
            self.advanced(mid, self.tokens(), second),
            both =~= first + second,
        ensures
            self.advanced(before, self.tokens(), both),
    {
        assert(self.reports() =~= before.reports() + both);
    }

    /// Two steps that may find named constants make one such step.
    proof fn lemma_steps_with(
        &self,
        mid: &Parser,
        before: &Parser,
        first: Seq<DiagnosticView>,
        first_consts: Seq<ArgView>,
        second: Seq<DiagnosticView>,
        second_consts: Seq<ArgView>,
        both: Seq<DiagnosticView>,
        both_consts: Seq<ArgView>,
    )
        requires
            mid.advanced_with(before, mid.tokens(), first, first_consts),
            self.advanced_with(mid, self.tokens(), second, second_consts),
            both =~= first + second,
            both_consts =~= first_consts + second_consts,
        ensures
            self.advanced_with(before, self.tokens(), both, both_consts),
    {
        assert(self.reports() =~= before.reports() + both);
        assert(self.pending() =~= before.pending() + both_consts);
    }

    /// A step that finds no named constant is a step that finds none.
    proof fn lemma_no_consts(&self, before: &Parser, diags: Seq<DiagnosticView>)
        requires
            self.advanced(before, self.tokens(), diags),
        ensures
            self.advanced_with(before, self.tokens(), diags, Seq::empty()),
    {
        assert(self.pending() =~= before.pending() + Seq::empty());
    }

    /// `return` and its value.
    fn build_return(&mut self) -> (stmt: AstStatement)
        ensures
            stmt@ == parse_return(old(self).tokens()).stmt,
            final(self).advanced(
                old(self),
                parse_return(old(self).tokens()).rest,
                parse_return(old(self).tokens()).diags,
            ),
    {
        let expr = self.build_expression(Token::SemiColon);
        let mut stmt = ast_new_statement(AstType::Return);
        stmt.set_expression(expr);
        stmt
    }

    /// `break` or `continue`, which wants a `;` behind it.
    fn build_jump(&mut self, kind: AstType) -> (stmt: AstStatement)
        ensures
            stmt@ == parse_jump(kind, old(self).tokens()).stmt,
            final(self).advanced(
                old(self),
                parse_jump(kind, old(self).tokens()).rest,
                parse_jump(kind, old(self).tokens()).diags,
            ),
    {
        let token = self.next();
        let ghost mid = *self;
        if !matches!(token, Token::SemiColon) {
            self.report(Problem::ExpectedTerminator, token);
            proof {
                self.lemma_steps(
                    &mid,
                    old(self),
                    Seq::empty(),
                    report(Problem::ExpectedTerminator, token@),
                    report(Problem::ExpectedTerminator, token@),
                );
            }
        }
        ast_new_statement(kind)
    }

    /// The name that a token carries, with a report of `problem` where the
    /// token is no identifier.
    fn name_or_report(&mut self, token: Token, problem: Problem) -> (name: String)
        ensures
            name@ == name_of(token@),
            final(self).advanced(old(self), old(self).tokens(), unless_id(token@, problem)),
    {
        match token {
            Token::Id(name) => {
                assert(self.reports() =~= old(self).reports() + unless_id(token@, problem));
                name
            },
            other => {
                self.report(problem, other);
                String::new()
            },
        }
    }

    /// Reports `problem` unless the token is `wanted`.
    fn expect(&mut self, token: Token, wanted: Token, problem: Problem)
        ensures
            final(self).advanced(
                old(self),
                old(self).tokens(),
                unless(token@, wanted@, problem),
            ),
    {
        if token.same(&wanted) {
            assert(self.reports() =~= old(self).reports() + unless(token@, wanted@, problem));
        } else {
            self.report(problem, token);
        }
    }

    /// The variable declaration builder, behind `var`.
    pub fn build_variable_dec(&mut self) -> (stmt: AstStatement)
        ensures
            stmt@ == parse_variable_dec(old(self).tokens()).stmt,
            final(self).advanced(
                old(self),
                parse_variable_dec(old(self).tokens()).rest,
                parse_variable_dec(old(self).tokens()).diags,
            ),
    {
        proof {
            reveal(parse_variable_dec);
        }
        let ghost start = self.tokens();
        let ghost whole = parse_variable_dec(start);
        let name_token = self.next();
        let ghost s1 = *self;
        let name = match name_token {
            Token::Id(value) => value,
            other => {
                self.report(Problem::ExpectedVariableName, other);
                proof {
                    self.lemma_steps(&s1, old(self), Seq::empty(), whole.diags, whole.diags);
                }
                return ast_new_statement(AstType::Empty);
            },
        };
        let colon = self.next();
        let ghost s2 = *self;
        proof {
            s2.lemma_steps(&s1, old(self), Seq::empty(), Seq::empty(), Seq::empty());
        }
        if !matches!(colon, Token::Colon) {
            self.report(Problem::ExpectedColon, colon);
            proof {
                self.lemma_steps(&s2, old(self), Seq::empty(), whole.diags, whole.diags);
            }
            return ast_new_statement(AstType::Empty);
        }
        let ghost ty = parse_data_type(self.tokens());
        let data_type = self.build_data_type();
        let ghost s3 = *self;
        proof {
            s3.lemma_steps(&s2, old(self), Seq::empty(), ty.diags, ty.diags);
        }
        let look = self.next();
        let ghost s4 = *self;
        if matches!(look, Token::LBracket) {
            let mut stmt = ast_new_statement(AstType::ArrayDec);
            stmt.set_name(name);
            stmt.set_data_type(data_type);
            let ghost size = parse_expression(self.tokens(), TokenView::RBracket);
            let expr = self.build_expression(Token::RBracket);
            stmt.set_expression(expr);
            let ghost s5 = *self;
            let end = self.next();
            let ghost s6 = *self;
            proof {
                s4.lemma_steps(&s3, old(self), ty.diags, Seq::empty(), ty.diags);
                s5.lemma_steps(&s4, old(self), ty.diags, size.diags, ty.diags + size.diags);
                s6.lemma_steps(
                    &s5,
                    old(self),
                    ty.diags + size.diags,
                    Seq::empty(),
                    ty.diags + size.diags,
                );
            }
            if !matches!(end, Token::SemiColon) {
                self.report(Problem::ExpectedDeclarationEnd, end);
                proof {
                    self.lemma_steps(
                        &s6,
                        old(self),
                        ty.diags + size.diags,
                        report(Problem::ExpectedDeclarationEnd, end@),
                        whole.diags,
                    );
                }
                return ast_new_statement(AstType::Empty);
            }
            stmt
        } else {
            self.put_back(look, Ghost(ty.rest));
            let ghost s5 = *self;
            let mut stmt = ast_new_statement(AstType::VarDec);
            stmt.set_name(name.clone());
            stmt.set_data_type(data_type);
            let mut lval = ast_new_expression(AstType::Id);
            lval.set_name(name);
            let ghost init = parse_expression(self.tokens(), TokenView::SemiColon);
            let mut expr = self.build_expression(Token::SemiColon);
            expr.set_lval(lval);
            stmt.set_expression(expr);
            proof {
                s4.lemma_steps(&s3, old(self), ty.diags, Seq::empty(), ty.diags);
                s5.lemma_steps(&s4, old(self), ty.diags, Seq::empty(), ty.diags);
                self.lemma_steps(&s5, old(self), ty.diags, init.diags, whole.diags);
            }
            stmt
        }
    }

    /// The builder of a named constant, behind `const`.
    pub fn build_const(&mut self) -> (c: AstArg)
        ensures
            c@ == parse_const(old(self).tokens()).arg,
            final(self).advanced(
                old(self),
                parse_const(old(self).tokens()).rest,
                parse_const(old(self).tokens()).diags,
            ),
    {
        proof {
            reveal(parse_const);
        }
        let ghost whole = parse_const(self.tokens());
        let name_token = self.next();
        let ghost s1 = *self;
        let name = self.name_or_report(name_token, Problem::ExpectedVariableName);
        let ghost s2 = *self;
        let ghost d2 = unless_id(name_token@, Problem::ExpectedVariableName);
        let colon = self.next();
        let ghost s3 = *self;
        self.expect(colon, Token::Colon, Problem::ExpectedColon);
        let ghost s4 = *self;
        let ghost d4 = d2 + unless(colon@, TokenView::Colon, Problem::ExpectedColon);
        let ghost ty = parse_data_type(self.tokens());
        let data_type = self.build_data_type();
        let ghost s5 = *self;
        let ghost d5 = d4 + ty.diags;
        let assign = self.next();
        let ghost s6 = *self;
        self.expect(assign, Token::Assign, Problem::ExpectedAssign);
        let ghost s7 = *self;
        let ghost d7 = d5 + unless(assign@, TokenView::Assign, Problem::ExpectedAssign);
        let ghost value = parse_expression(self.tokens(), TokenView::SemiColon);
        let expr = self.build_expression(Token::SemiColon);
        proof {
            s2.lemma_steps(&s1, old(self), Seq::empty(), d2, d2);
            s3.lemma_steps(&s2, old(self), d2, Seq::empty(), d2);
            s4.lemma_steps(
                &s3,
                old(self),
                d2,
                unless(colon@, TokenView::Colon, Problem::ExpectedColon),
                d4,
            );
            s5.lemma_steps(&s4, old(self), d4, ty.diags, d5);
            s6.lemma_steps(&s5, old(self), d5, Seq::empty(), d5);
            s7.lemma_steps(
                &s6,
                old(self),
                d5,
                unless(assign@, TokenView::Assign, Problem::ExpectedAssign),
                d7,
            );
            self.lemma_steps(&s7, old(self), d7, value.diags, whole.diags);
        }
        let mut c = ast_new_arg(name, data_type);
        c.set_expression(expr);
        c
    }

    /// The builder of a structure variable, behind `struct`.
    pub fn build_struct_dec(&mut self) -> (stmt: AstStatement)
        ensures
            stmt@ == parse_struct_dec(old(self).tokens()).stmt,
            final(self).advanced(
                old(self),
                parse_struct_dec(old(self).tokens()).rest,
                parse_struct_dec(old(self).tokens()).diags,
            ),
    {
        proof {
            reveal(parse_struct_dec);
        }
        let ghost whole = parse_struct_dec(self.tokens());
        let name_token = self.next();
        let ghost s1 = *self;
        let var_name = self.name_or_report(name_token, Problem::ExpectedStructVariableName);
        let ghost s2 = *self;
        let ghost d2 = unless_id(name_token@, Problem::ExpectedStructVariableName);
        let colon = self.next();
        let ghost s3 = *self;
        self.expect(colon, Token::Colon, Problem::ExpectedStructColon);
        let ghost s4 = *self;
        let ghost d4 = d2 + unless(colon@, TokenView::Colon, Problem::ExpectedStructColon);
        let ghost of = parse_expression(self.tokens(), TokenView::SemiColon);
        let struct_id = self.build_expression(Token::SemiColon);
        proof {
            s2.lemma_steps(&s1, old(self), Seq::empty(), d2, d2);
            s3.lemma_steps(&s2, old(self), d2, Seq::empty(), d2);
            s4.lemma_steps(
                &s3,
                old(self),
                d2,
                unless(colon@, TokenView::Colon, Problem::ExpectedStructColon),
                d4,
            );
            self.lemma_steps(&s4, old(self), d4, of.diags, whole.diags);
        }
        let mut stmt = ast_new_statement(AstType::StructDec);
        stmt.set_name(var_name);
        stmt.set_expression(struct_id);
        stmt
    }

    /// The target that a statement starts with: the identifier and what
    /// follows it.
    fn build_target(&mut self, name: String) -> (target: AstExpression)
        ensures
            target@ == parse_target(name@, old(self).tokens()).target,
            final(self).advanced(
                old(self),
                parse_target(name@, old(self).tokens()).rest,
                parse_target(name@, old(self).tokens()).diags,
            ),
    {
        proof {
            reveal(parse_target);
        }
        let ghost start = self.tokens();
        let ghost whole = parse_target(name@, start);
        let token = self.next();
        let ghost s1 = *self;
        match token {
            Token::LBracket => {
                let sub_expr = self.build_expression(Token::RBracket);
                proof {
                    self.lemma_steps(&s1, old(self), Seq::empty(), whole.diags, whole.diags);
                }
                Self::applied(AstType::ArrayAcc, name, sub_expr)
            },
            Token::Dot => {
                let member = self.next();
                let ghost s2 = *self;
                let item_name = self.member_name(member);
                proof {
                    s2.lemma_steps(&s1, old(self), Seq::empty(), Seq::empty(), Seq::empty());
                    self.lemma_steps(&s2, old(self), Seq::empty(), whole.diags, whole.diags);
                }
                let mut sub_expr = ast_new_expression(AstType::Id);
                sub_expr.set_name(item_name);
                Self::applied(AstType::StructAcc, name, sub_expr)
            },
            other => {
                self.put_back(other, Ghost(start));
                proof {
                    self.lemma_steps(&s1, old(self), Seq::empty(), Seq::empty(), whole.diags);
                }
                Self::applied(AstType::Id, name, ast_new_expression(AstType::Empty))
            },
        }
    }

    /// A statement that starts with an identifier: an assignment to the
    /// target that the identifier starts, or a call of the identifier.
    fn build_id_statement(&mut self, name: String) -> (stmt: AstStatement)
        ensures
            stmt@ == parse_id_statement(name@, old(self).tokens()).stmt,
            final(self).advanced(
                old(self),
                parse_id_statement(name@, old(self).tokens()).rest,
                parse_id_statement(name@, old(self).tokens()).diags,
            ),
    {
        proof {
            reveal(parse_id_statement);
        }
        let ghost whole = parse_id_statement(name@, self.tokens());
        let ghost target = parse_target(name@, self.tokens());
        let lval = self.build_target(name.clone());
        let ghost s1 = *self;
        let mut expr = self.build_expression(Token::SemiColon);
        proof {
            self.lemma_steps(
                &s1,
                old(self),
                target.diags,
                parse_expression(target.rest, TokenView::SemiColon).diags,
                whole.diags,
            );
        }
        if expr.get_type() == AstType::Assign {
            expr.set_lval(lval);
            let mut stmt = ast_new_statement(AstType::ExprStmt);
            stmt.set_expression(expr);
            stmt
        } else {
            let mut stmt = ast_new_statement(AstType::CallStmt);
            stmt.set_name(name);
            stmt.set_expression(expr);
            stmt
        }
    }

    /// The statement that starts with `token` and holds no block; the token
    /// is handed back where it starts no such statement.
    fn build_simple_statement(&mut self, token: Token) -> (res: Result<AstStatement, Token>)
        ensures
            match res {
                Ok(stmt) => {
                    &&& parse_simple_statement(token@, old(self).tokens()) is Some
                    &&& stmt@ == parse_simple_statement(token@, old(self).tokens())->0.stmt
                    &&& final(self).advanced(
                        old(self),
                        parse_simple_statement(token@, old(self).tokens())->0.rest,
                        parse_simple_statement(token@, old(self).tokens())->0.diags,
                    )
                },
                Err(other) => {
                    &&& parse_simple_statement(token@, old(self).tokens()) is None
                    &&& other@ == token@
                    &&& *final(self) == *old(self)
                },
            },
    {
        match token {
            Token::Return => Ok(self.build_return()),
            Token::Var => Ok(self.build_variable_dec()),
            Token::Struct => Ok(self.build_struct_dec()),
            Token::Id(name) => Ok(self.build_id_statement(name)),
            Token::Break => Ok(self.build_jump(AstType::Break)),
            Token::Continue => Ok(self.build_jump(AstType::Continue)),
            other => Err(other),
        }
    }

    /// The clauses of a vector, copied onto the branch list of a block.
    fn add_branches(block: &mut AstStatement, clauses: &Vec<AstStatement>)
        ensures
            final(block)@ == (StmtView {
                branches: old(block)@.branches + stmt_views(clauses@),
                ..old(block)@
            }),
    {
        let mut i: usize = 0;
        assert(stmt_views(clauses@).take(0) =~= Seq::empty());
        assert(block@.branches =~= old(block)@.branches + Seq::empty());
        while i < clauses.len()
            invariant
                i <= clauses.len(),
                block@ == (StmtView {
                    branches: old(block)@.branches + stmt_views(clauses@).take(i as int),
                    ..old(block)@
                }),
            decreases clauses.len() - i,
        {
            block.add_branch(clauses[i].clone());
            assert(stmt_views(clauses@).take(i + 1) =~= stmt_views(clauses@).take(i as int).push(
                clauses@[i as int]@,
            ));
            assert(old(block)@.branches + stmt_views(clauses@).take(i + 1) =~= (old(
                block,
            )@.branches + stmt_views(clauses@).take(i as int)).push(clauses@[i as int]@));
            i += 1;
        }
        assert(stmt_views(clauses@).take(clauses@.len() as int) =~= stmt_views(clauses@));
    }

    /// A statement that owns a block: its condition, the block, and as its
    /// branch list the clauses that ended the block if `chained` says so.
    fn owning(kind: AstType, condition: AstExpression, body: AstStatement, chained: bool) -> (stmt:
        AstStatement)
        ensures
            stmt@ == (StmtView {
                expr: condition@,
                statements: seq![body@],
                branches: if chained {
                    body@.branches
                } else {
                    Seq::empty()
                },
                ..StmtView::new(kind)
            }),
    {
        let mut stmt = ast_new_statement(kind);
        stmt.set_expression(condition);
        if chained {
            Self::add_branches(&mut stmt, body.get_branches());
            assert(stmt@.branches =~= body@.branches);
        }
        stmt.add_sub_block(body);
        assert(stmt@.statements =~= seq![body@]);
        stmt
    }

    /// A loop or a conditional, behind its keyword: the condition up to
    /// `stop`, then the block that the statement owns.
    fn build_conditional(&mut self, kind: AstType, stop: Token, chained: bool) -> (stmt:
        AstStatement)
        ensures
            ({
                let condition = parse_expression(old(self).tokens(), stop@);
                let body = parse_block(condition.rest);
                &&& stmt@ == (StmtView {
                    expr: condition.expr,
                    statements: seq![body.block],
                    branches: if chained {
                        body.block.branches
                    } else {
                        Seq::empty()
                    },
                    ..StmtView::new(kind)
                })
                &&& final(self).advanced_with(
                    old(self),
                    body.rest,
                    condition.diags + body.diags,
                    body.consts,
                )
            }),
        decreases old(self).tokens().len(), 1nat,
    {
        let ghost condition = parse_expression(self.tokens(), stop@);
        let ghost body = parse_block(condition.rest);
        proof {
            lemma_expression_rest(self.tokens(), stop@);
        }
        let expr = self.build_expression(stop);
        let ghost here = *self;
        let sub_block = self.build_block();
        proof {
            here.lemma_no_consts(old(self), condition.diags);
            self.lemma_steps_with(
                &here,
                old(self),
                condition.diags,
                Seq::empty(),
                body.diags,
                body.consts,
                condition.diags + body.diags,
                body.consts,
            );
        }
        Self::owning(kind, expr, sub_block, chained)
    }

    /// A named constant inside a block: it joins those that wait.
    fn step_const(&mut self)
        ensures
            final(self).advanced_with(
                old(self),
                parse_const(old(self).tokens()).rest,
                parse_const(old(self).tokens()).diags,
                seq![parse_const(old(self).tokens()).arg],
            ),
    {
        let ghost parse = parse_const(self.tokens());
        let c = self.build_const();
        proof {
            lemma_arg_views_push(self.local_consts@, c);
        }
        self.local_consts.push(c);
        assert(self.pending() =~= old(self).pending() + seq![parse.arg]);
    }

    /// A statement that owns a block, inside a block: it joins the
    /// statements of the block.
    fn step_conditional(
        &mut self,
        block: &mut AstStatement,
        kind: AstType,
        stop: Token,
        chained: bool,
    )
        ensures
            ({
                let condition = parse_expression(old(self).tokens(), stop@);
                let body = parse_block(condition.rest);
                &&& final(block)@ == (StmtView {
                    statements: old(block)@.statements.push(
                        StmtView {
                            expr: condition.expr,
                            statements: seq![body.block],
                            branches: if chained {
                                body.block.branches
                            } else {
                                Seq::empty()
                            },
                            ..StmtView::new(kind)
                        },
                    ),
                    ..old(block)@
                })
                &&& final(self).advanced_with(
                    old(self),
                    body.rest,
                    condition.diags + body.diags,
                    body.consts,
                )
            }),
        decreases old(self).tokens().len(), 2nat,
    {
        let stmt = self.build_conditional(kind, stop, chained);
        block.add_statement(stmt);
    }

    /// An `elif` clause: it ends the block that it stands in. The clause
    /// goes to the branch list of that block, and behind it the clauses that
    /// ended the clause's own block.
    fn step_elif(&mut self, block: &mut AstStatement)
        ensures
            ({
                let condition = parse_expression(old(self).tokens(), TokenView::Then);
                let body = parse_block(condition.rest);
                &&& final(block)@ == (StmtView {
                    branches: old(block)@.branches + (seq![
                        elif_statement(condition.expr, body.block),
                    ] + body.block.branches),
                    ..old(block)@
                })
                &&& final(self).advanced_with(
                    old(self),
                    body.rest,
                    condition.diags + body.diags,
                    body.consts,
                )
            }),
        decreases old(self).tokens().len(), 2nat,
    {
        let ghost condition = parse_expression(self.tokens(), TokenView::Then);
        let ghost body = parse_block(condition.rest);
        let stmt = self.build_conditional(AstType::Elif, Token::Then, false);
        let mut clauses: Vec<AstStatement> = Vec::new();
        Self::copy_clauses(&mut clauses, stmt.get_block().get_branches());
        block.add_branch(stmt);
        Self::add_branches(block, &clauses);
        assert(block@.branches =~= old(block)@.branches + (seq![
            elif_statement(condition.expr, body.block),
        ] + body.block.branches));
    }

    /// An `else` clause: it ends the block that it stands in and goes to the
    /// branch list of that block.
    fn step_else(&mut self, block: &mut AstStatement)
        ensures
            ({
                let body = parse_block(old(self).tokens());
                &&& final(block)@ == (StmtView {
                    branches: old(block)@.branches + seq![else_statement(body.block)],
                    ..old(block)@
                })
                &&& final(self).advanced_with(old(self), body.rest, body.diags, body.consts)
            }),
        decreases old(self).tokens().len(), 2nat,
    {
        let ghost body = parse_block(self.tokens());
        let sub_block = self.build_block();
        let stmt = Self::owning(
            AstType::Else,
            ast_new_expression(AstType::Empty),
            sub_block,
            false,
        );
        block.add_branch(stmt);
        assert(block@.branches =~= old(block)@.branches + seq![else_statement(body.block)]);
    }

    /// A statement that holds no block, inside a block; a token that starts
    /// none is reported.
    fn step_simple(&mut self, block: &mut AstStatement, token: Token)
        ensures
            match parse_simple_statement(token@, old(self).tokens()) {
                Some(parse) => {
                    &&& final(block)@ == (StmtView {
                        statements: old(block)@.statements.push(parse.stmt),
                        ..old(block)@
                    })
                    &&& final(self).advanced_with(
                        old(self),
                        parse.rest,
                        parse.diags,
                        Seq::empty(),
                    )
                },
                None => {
                    &&& final(block)@ == old(block)@
                    &&& final(self).advanced_with(
                        old(self),
                        old(self).tokens(),
                        report(Problem::InvalidStatementToken, token@),
                        Seq::empty(),
                    )
                },
            },
    {
        match self.build_simple_statement(token) {
            Ok(stmt) => {
                block.add_statement(stmt);
                proof {
                    let parse = parse_simple_statement(token@, old(self).tokens())->0;
                    self.lemma_no_consts(old(self), parse.diags);
                }
            },
            Err(unknown) => {
                self.report(Problem::InvalidStatementToken, unknown);
                proof {
                    self.lemma_no_consts(
                        old(self),
                        report(Problem::InvalidStatementToken, token@),
                    );
                }
            },
        }
    }

    /// The state of the block builder after one more step.
    proof fn lemma_block_step(
        &self,
        mid: &Parser,
        before: &Parser,
        state: BlockState,
        diags: Seq<DiagnosticView>,
        consts: Seq<ArgView>,
    )
        requires
            mid.advanced_with(before, mid.tokens(), state.diags, state.consts),
            self.advanced_with(mid, self.tokens(), diags, consts),
        ensures
            self.advanced_with(before, self.tokens(), state.diags + diags, state.consts + consts),
    {
        self.lemma_steps_with(
            mid,
            before,
            state.diags,
            state.consts,
            diags,
            consts,
            state.diags + diags,
            state.consts + consts,
        );
    }

    /// The block builder: statement by statement up to `end` or the end of
    /// the stream, either of which it takes. An `elif` or an `else` ends the
    /// block with its own: the `end` that closes the clause closes the block.
    #[verifier::rlimit(30)]
    pub fn build_block(&mut self) -> (block: AstStatement)
        ensures
            block@ == parse_block(old(self).tokens()).block,
            final(self).advanced_with(
                old(self),
                parse_block(old(self).tokens()).rest,
                parse_block(old(self).tokens()).diags,
                parse_block(old(self).tokens()).consts,
            ),
        decreases old(self).tokens().len(), 0nat,
    {
        let mut block = ast_new_statement(AstType::Block);
        let ghost start = self.tokens();
        let ghost mut state = BlockState::start();
        let ghost whole = block_loop(start, state);
        proof {
            reveal(block_loop);
            reveal(parse_block);
            assert(self.reports() =~= old(self).reports() + state.diags);
            assert(self.pending() =~= old(self).pending() + state.consts);
        }
        loop
            invariant_except_break
                block_loop(self.tokens(), state) == whole,
            invariant
                self.tokens().len() <= start.len(),
                start == old(self).tokens(),
                whole == parse_block(start),
                block@ == state.block,
                self.advanced_with(old(self), self.tokens(), state.diags, state.consts),
            ensures
                whole == (BlockParse {
                    block: state.block,
                    consts: state.consts,
                    diags: state.diags,
                    rest: self.tokens(),
                }),
            decreases self.tokens().len(),
        {
            let ghost before = self.tokens();
            let ghost rest = rest_tokens(before);
            let ghost entry = *self;
            let token = self.next();
            let ghost mid = *self;
            proof {
                reveal(block_loop);
                reveal(parse_block);
                mid.lemma_no_consts(&entry, Seq::empty());
                mid.lemma_steps_with(
                    &entry,
                    old(self),
                    state.diags,
                    state.consts,
                    Seq::empty(),
                    Seq::empty(),
                    state.diags,
                    state.consts,
                );
            }
            if matches!(token, Token::End) || token.is_eof() {
                break ;
            }
            match token {
                Token::Const => {
                    let ghost parse = parse_const(rest);
                    self.step_const();
                    proof {
                        lemma_const_rest(rest);
                        self.lemma_block_step(&mid, old(self), state, parse.diags, seq![parse.arg]);
                        state = state.reported(parse.diags).constants(seq![parse.arg]);
                    }
                },
                Token::While => {
                    let ghost condition = parse_expression(rest, TokenView::Do);
                    let ghost body = parse_block(condition.rest);
                    self.step_conditional(&mut block, AstType::While, Token::Do, false);
                    proof {
                        lemma_expression_rest(rest, TokenView::Do);
                        lemma_block_rest(condition.rest);
                        self.lemma_block_step(
                            &mid,
                            old(self),
                            state,
                            condition.diags + body.diags,
                            body.consts,
                        );
                        let next = state.reported(condition.diags).inner(body).statement(
                            while_statement(condition.expr, body.block),
                        );
                        assert(next.diags =~= state.diags + (condition.diags + body.diags));
                        state = next;
                    }
                },
                Token::If => {
                    let ghost condition = parse_expression(rest, TokenView::Then);
                    let ghost body = parse_block(condition.rest);
                    self.step_conditional(&mut block, AstType::If, Token::Then, true);
                    proof {
                        lemma_expression_rest(rest, TokenView::Then);
                        lemma_block_rest(condition.rest);
                        self.lemma_block_step(
                            &mid,
                            old(self),
                            state,
                            condition.diags + body.diags,
                            body.consts,
                        );
                        let next = state.reported(condition.diags).inner(body).statement(
                            if_statement(condition.expr, body.block),
                        );
                        assert(next.diags =~= state.diags + (condition.diags + body.diags));
                        state = next;
                    }
                },
                Token::Elif => {
                    let ghost condition = parse_expression(rest, TokenView::Then);
                    let ghost body = parse_block(condition.rest);
                    self.step_elif(&mut block);
                    proof {
                        self.lemma_block_step(
                            &mid,
                            old(self),
                            state,
                            condition.diags + body.diags,
                            body.consts,
                        );
                        let next = state.reported(condition.diags).inner(body);
                        assert(next.diags =~= state.diags + (condition.diags + body.diags));
                    }
                    return block;
                },
                Token::Else => {
                    let ghost body = parse_block(rest);
                    self.step_else(&mut block);
                    proof {
                        self.lemma_block_step(&mid, old(self), state, body.diags, body.consts);
                    }
                    return block;
                },
                other => {
                    let ghost simple = parse_simple_statement(other@, rest);
                    self.step_simple(&mut block, other);
                    proof {
                        lemma_simple_statement_rest(other@, rest);
                        match simple {
                            Some(parse) => {
                                self.lemma_block_step(
                                    &mid,
                                    old(self),
                                    state,
                                    parse.diags,
                                    Seq::empty(),
                                );
                                assert(state.consts + Seq::<ArgView>::empty() =~= state.consts);
                                state = state.built(parse);
                            },
                            None => {
                                let found = report(Problem::InvalidStatementToken, other@);
                                self.lemma_block_step(&mid, old(self), state, found, Seq::empty());
                                assert(state.consts + Seq::<ArgView>::empty() =~= state.consts);
                                state = state.reported(found);
                            },
                        }
                    }
                },
            }
        }
        block
    }

    /// Copies of the clauses of a vector, appended to another.
    fn copy_clauses(into: &mut Vec<AstStatement>, clauses: &Vec<AstStatement>)
        requires
            old(into)@.len() == 0,
        ensures
            stmt_views(final(into)@) == stmt_views(clauses@),
    {
        let mut i: usize = 0;
        while i < clauses.len()
            invariant
                i <= clauses.len(),
                into@.len() == i,
                forall|j: int| 0 <= j < i ==> into@[j]@ == clauses@[j]@,
            decreases clauses.len() - i,
        {
            into.push(clauses[i].clone());
            i += 1;
        }
        assert(stmt_views(into@) =~= stmt_views(clauses@));
    }

    /// The parser stands where `before` stood, but for what the function
    /// builder made of the stream: the function, if there is one, is the last
    /// of the file.
    pub open spec fn after_function(&self, before: &Parser, parse: FunctionParse) -> bool {
        &&& self.tokens() == parse.rest
        &&& self.reports() == before.reports() + parse.diags
        &&& self.pending() == parse.consts
        &&& self.file() == (match parse.func {
            Some(func) => FileView {
                functions: before.file().functions.push(func),
                ..before.file()
            },
            None => before.file(),
        })
        &&& self.name() == before.name()
        &&& self.scanner().source() == before.scanner().source()
    }

    /// The parser stands where `before` stood, but for what the top-level
    /// builder made of the stream: the functions have joined the file.
    pub open spec fn after_run(&self, before: &Parser, parse: FileParse) -> bool {
        &&& self.tokens() == parse.rest
        &&& self.reports() == before.reports() + parse.diags
        &&& self.pending() == parse.consts
        &&& self.file() == (FileView {
            functions: before.file().functions + parse.functions,
            ..before.file()
        })
        &&& self.name() == before.name()
        &&& self.scanner().source() == before.scanner().source()
    }

    /// One parameter of a function: `None` where it is malformed, which is
    /// reported; else the parameter, and whether its list ends with it.
    fn build_param(&mut self) -> (res: Option<(AstArg, bool)>)
        ensures
            match res {
                Some(pair) => parse_param(old(self).tokens()).arg == Some(pair.0@) && pair.1
                    == parse_param(old(self).tokens()).last,
                None => parse_param(old(self).tokens()).arg is None,
            },
            final(self).advanced(
                old(self),
                parse_param(old(self).tokens()).rest,
                parse_param(old(self).tokens()).diags,
            ),
    {
        proof {
            reveal(parse_param);
        }
        let ghost whole = parse_param(self.tokens());
        let name_token = self.next();
        let ghost s1 = *self;
        let colon = self.next();
        let ghost s2 = *self;
        let ghost ty = parse_data_type(self.tokens());
        let data_type = self.build_data_type();
        let ghost s3 = *self;
        let end = self.next();
        let ghost s4 = *self;
        proof {
            s2.lemma_steps(&s1, old(self), Seq::empty(), Seq::empty(), Seq::empty());
            s3.lemma_steps(&s2, old(self), Seq::empty(), ty.diags, ty.diags);
            s4.lemma_steps(&s3, old(self), ty.diags, Seq::empty(), ty.diags);
        }
        if !matches!(colon, Token::Colon) {
            self.report(Problem::ExpectedArgumentColon, colon);
            proof {
                self.lemma_steps(
                    &s4,
                    old(self),
                    ty.diags,
                    report(Problem::ExpectedArgumentColon, colon@),
                    whole.diags,
                );
            }
            return None;
        }
        let name = match name_token {
            Token::Id(value) => value,
            other => {
                self.report(Problem::ExpectedArgumentName, other);
                proof {
                    self.lemma_steps(
                        &s4,
                        old(self),
                        ty.diags,
                        report(Problem::ExpectedArgumentName, other@),
                        whole.diags,
                    );
                }
                return None;
            },
        };
        let last = matches!(end, Token::RParen);
        if !matches!(end, Token::Comma) && !last {
            self.report(Problem::ExpectedArgumentEnd, end);
            proof {
                self.lemma_steps(
                    &s4,
                    old(self),
                    ty.diags,
                    report(Problem::ExpectedArgumentEnd, end@),
                    whole.diags,
                );
            }
            return None;
        }
        Some((ast_new_arg(name, data_type), last))
    }

    /// The parameters of a function, behind `(`: `None` where the list is
    /// malformed, which is reported.
    pub fn build_params(&mut self) -> (args: Option<Vec<AstArg>>)
        ensures
            match args {
                Some(list) => parse_params(old(self).tokens(), Seq::empty()).args == Some(
                    arg_views(list@),
                ),
                None => parse_params(old(self).tokens(), Seq::empty()).args is None,
            },
            final(self).advanced(
                old(self),
                parse_params(old(self).tokens(), Seq::empty()).rest,
                parse_params(old(self).tokens(), Seq::empty()).diags,
            ),
    {
        let mut args: Vec<AstArg> = Vec::new();
        let ghost whole = parse_params(self.tokens(), Seq::empty());
        let ghost mut done: Seq<DiagnosticView> = Seq::empty();
        proof {
            assert(arg_views(args@) =~= Seq::empty());
            assert(self.reports() =~= old(self).reports() + done);
        }
        loop
            invariant_except_break
                whole.args == parse_params(self.tokens(), arg_views(args@)).args,
                whole.rest == parse_params(self.tokens(), arg_views(args@)).rest,
                whole.diags == done + parse_params(self.tokens(), arg_views(args@)).diags,
            invariant
                whole == parse_params(old(self).tokens(), Seq::empty()),
                self.advanced(old(self), self.tokens(), done),
            ensures
                whole.args == Some(arg_views(args@)),
                whole.rest == self.tokens(),
                whole.diags == done,
            decreases self.tokens().len(),
        {
            let ghost before = *self;
            let ghost one = parse_param(self.tokens());
            proof {
                lemma_param_rest(self.tokens());
            }
            match self.build_param() {
                None => {
                    proof {
                        self.lemma_steps(&before, old(self), done, one.diags, whole.diags);
                    }
                    return None;
                },
                Some(pair) => {
                    proof {
                        lemma_arg_views_push(args@, pair.0);
                    }
                    args.push(pair.0);
                    proof {
                        self.lemma_steps(&before, old(self), done, one.diags, done + one.diags);
                        if !pair.1 {
                            let others = parse_params(self.tokens(), arg_views(args@));
                            assert(done + (one.diags + others.diags) =~= (done + one.diags)
                                + others.diags);
                        }
                        done = done + one.diags;
                    }
                    if pair.1 {
                        break ;
                    }
                },
            }
        }
        Some(args)
    }

    /// The builder of a structure definition, behind `struct`: a name, `is`
    /// and the items up to `end`. A malformed definition is reported, and the
    /// builder stops there without a definition. The file keeps no structure
    /// definitions: the definition is handed to the caller.
    pub fn build_struct_def(&mut self) -> (def: Option<AstStruct>)
        ensures
            match def {
                Some(built) => parse_struct_def(old(self).tokens()).def == Some(built@),
                None => parse_struct_def(old(self).tokens()).def is None,
            },
            final(self).advanced(
                old(self),
                parse_struct_def(old(self).tokens()).rest,
                parse_struct_def(old(self).tokens()).diags,
            ),
    {
        proof {
            reveal(parse_struct_def);
        }
        let ghost whole = parse_struct_def(self.tokens());
        let name_token = self.next();
        let ghost s1 = *self;
        let struct_name = match name_token {
            Token::Id(name) => name,
            other => {
                self.report(Problem::ExpectedStructName, other);
                proof {
                    self.lemma_steps(&s1, old(self), Seq::empty(), whole.diags, whole.diags);
                }
                return None;
            },
        };
        let is = self.next();
        let ghost s2 = *self;
        proof {
            s2.lemma_steps(&s1, old(self), Seq::empty(), Seq::empty(), Seq::empty());
        }
        if !matches!(is, Token::Is) {
            self.report(Problem::ExpectedIs, is);
            proof {
                self.lemma_steps(&s2, old(self), Seq::empty(), whole.diags, whole.diags);
            }
            return None;
        }
        let mut ast_struct = ast_new_struct(struct_name);
        let ghost items = parse_struct_items(self.tokens(), Seq::empty());
        let ghost mut done: Seq<DiagnosticView> = Seq::empty();
        loop
            invariant_except_break
                items.0 == parse_struct_items(self.tokens(), ast_struct@.items).0,
                items.1 == done + parse_struct_items(self.tokens(), ast_struct@.items).1,
                items.2 == parse_struct_items(self.tokens(), ast_struct@.items).2,
            invariant
                ast_struct@.name == struct_name@,
                whole.diags == items.1,
                whole.rest == items.2,
                whole.def == (match items.0 {
                    Some(list) => Some(StructView { name: struct_name@, items: list }),
                    None => None,
                }),
                whole == parse_struct_def(old(self).tokens()),
                self.advanced(old(self), self.tokens(), done),
            ensures
                items.0 == Some(ast_struct@.items),
                items.1 == done,
                items.2 == self.tokens(),
            decreases self.tokens().len(),
        {
            let ghost s3 = *self;
            let token = self.next();
            let ghost s4 = *self;
            proof {
                s4.lemma_steps(&s3, old(self), done, Seq::empty(), done);
            }
            if matches!(token, Token::End) || token.is_eof() {
                proof {
                    assert(done + Seq::<DiagnosticView>::empty() =~= done);
                }
                break ;
            }
            let name = match token {
                Token::Id(value) => value,
                other => {
                    self.report(Problem::ExpectedStructItemName, other);
                    proof {
                        self.lemma_steps(
                            &s4,
                            old(self),
                            done,
                            report(Problem::ExpectedStructItemName, other@),
                            whole.diags,
                        );
                    }
                    return None;
                },
            };
            let colon = self.next();
            let ghost s5 = *self;
            let ghost ty = parse_data_type(self.tokens());
            let data_type = self.build_data_type();
            let ghost s6 = *self;
            proof {
                s5.lemma_steps(&s4, old(self), done, Seq::empty(), done);
                s6.lemma_steps(&s5, old(self), done, ty.diags, done + ty.diags);
            }
            if !matches!(colon, Token::Colon) {
                self.report(Problem::ExpectedStructItemColon, colon);
                proof {
                    assert(whole.diags =~= (done + ty.diags) + report(
                        Problem::ExpectedStructItemColon,
                        colon@,
                    ));
                    self.lemma_steps(
                        &s6,
                        old(self),
                        done + ty.diags,
                        report(Problem::ExpectedStructItemColon, colon@),
                        whole.diags,
                    );
                }
                return None;
            }
            let mut lval = ast_new_expression(AstType::Id);
            lval.set_name(name.clone());
            let ghost value = parse_expression(self.tokens(), TokenView::SemiColon);
            let mut expr = self.build_expression(Token::SemiColon);
            expr.set_lval(lval);
            let mut arg = ast_new_arg(name, data_type);
            arg.set_expression(expr);
            ast_struct.add_item(arg);
            proof {
                lemma_expression_rest(ty.rest, TokenView::SemiColon);
                self.lemma_steps(
                    &s6,
                    old(self),
                    done + ty.diags,
                    value.diags,
                    done + ty.diags + value.diags,
                );
                let others = parse_struct_items(self.tokens(), ast_struct@.items);
                assert(done + (ty.diags + value.diags + others.1) =~= (done + ty.diags
                    + value.diags) + others.1);
                done = done + ty.diags + value.diags;
            }
        }
        Some(ast_struct)
    }

    /// The function builder, behind `func`: the header and the body. The
    /// function joins the file, with the named constants that waited for it
    /// and those of its body. A malformed header is reported, and the
    /// builder stops there without a function.
    #[verifier::rlimit(30)]
    pub fn build_function(&mut self)
        ensures
            final(self).after_function(
                old(self),
                parse_function(old(self).tokens(), old(self).pending()),
            ),
    {
        proof {
            reveal(parse_function);
        }
        let ghost whole = parse_function(self.tokens(), self.pending());
        let name_token = self.next();
        let ghost s1 = *self;
        let function_name = match name_token {
            Token::Id(name) => name,
            other => {
                self.report(Problem::ExpectedFunctionName, other);
                proof {
                    self.lemma_steps(&s1, old(self), Seq::empty(), whole.diags, whole.diags);
                }
                return ;
            },
        };
        let mut token = self.next();
        let ghost s2 = *self;
        proof {
            s2.lemma_steps(&s1, old(self), Seq::empty(), Seq::empty(), Seq::empty());
        }
        let ghost params = if token@ is LParen {
            parse_params(self.tokens(), Seq::empty())
        } else {
            ParamsParse { args: Some(Seq::empty()), diags: Seq::empty(), rest: s1.tokens() }
        };
        let mut args: Vec<AstArg> = Vec::new();
        if matches!(token, Token::LParen) {
            match self.build_params() {
                Some(list) => {
                    args = list;
                },
                None => {
                    proof {
                        self.lemma_steps(&s2, old(self), Seq::empty(), whole.diags, whole.diags);
                    }
                    return ;
                },
            }
            let ghost s3 = *self;
            token = self.next();
            proof {
                s3.lemma_steps(&s2, old(self), Seq::empty(), params.diags, params.diags);
                self.lemma_steps(&s3, old(self), params.diags, Seq::empty(), params.diags);
            }
        } else {
            proof {
                assert(arg_views(args@) =~= Seq::empty());
            }
        }
        let ghost s4 = *self;
        let ghost ty = if token@ is Arrow {
            parse_data_type(self.tokens())
        } else {
            TypeParse { data_type: DataType::Void, diags: Seq::empty(), rest: params.rest }
        };
        let mut data_type = DataType::Void;
        if matches!(token, Token::Arrow) {
            data_type = self.build_data_type();
            let ghost s5 = *self;
            token = self.next();
            proof {
                s5.lemma_steps(&s4, old(self), params.diags, ty.diags, params.diags + ty.diags);
                self.lemma_steps(
                    &s5,
                    old(self),
                    params.diags + ty.diags,
                    Seq::empty(),
                    params.diags + ty.diags,
                );
            }
        } else {
            proof {
                self.lemma_steps(&s4, old(self), params.diags, Seq::empty(), params.diags + ty.diags);
            }
        }
        let ghost s6 = *self;
        if !matches!(token, Token::Is) {
            self.report(Problem::ExpectedIs, token);
            proof {
                self.lemma_steps(
                    &s6,
                    old(self),
                    params.diags + ty.diags,
                    report(Problem::ExpectedIs, token@),
                    whole.diags,
                );
            }
            return ;
        }
        let ghost body = parse_block(self.tokens());
        let block = self.build_block();
        let ghost s7 = *self;
        proof {
            s6.lemma_no_consts(old(self), params.diags + ty.diags);
            s7.lemma_steps_with(
                &s6,
                old(self),
                params.diags + ty.diags,
                Seq::empty(),
                body.diags,
                body.consts,
                whole.diags,
                body.consts,
            );
        }
        let mut func = ast_new_function(function_name);
        func.set_data_type(data_type);
        func.set_block(block);
        let mut i: usize = 0;
        assert(arg_views(args@).take(0) =~= Seq::empty());
        while i < args.len()
            invariant
                i <= args.len(),
                func@ == (FunctionView {
                    args: arg_views(args@).take(i as int),
                    ..func@
                }),
                func@.name == function_name@,
                func@.data_type == data_type,
                func@.block == block@,
                func@.consts == Seq::<ArgView>::empty(),
            decreases args.len() - i,
        {
            func.add_arg(args[i].clone());
            assert(arg_views(args@).take(i + 1) =~= arg_views(args@).take(i as int).push(
                args@[i as int]@,
            ));
            i += 1;
        }
        assert(arg_views(args@).take(args@.len() as int) =~= arg_views(args@));
        let mut k: usize = 0;
        assert(arg_views(self.local_consts@).take(0) =~= Seq::empty());
        while k < self.local_consts.len()
            invariant
                k <= self.local_consts.len(),
                *self == s7,
                func@ == (FunctionView {
                    consts: arg_views(self.local_consts@).take(k as int),
                    ..func@
                }),
                func@.name == function_name@,
                func@.data_type == data_type,
                func@.block == block@,
                func@.args == arg_views(args@),
            decreases self.local_consts.len() - k,
        {
            func.add_const(self.local_consts[k].clone());
            assert(arg_views(self.local_consts@).take(k + 1) =~= arg_views(
                self.local_consts@,
            ).take(k as int).push(self.local_consts@[k as int]@));
            k += 1;
        }
        assert(arg_views(self.local_consts@).take(self.local_consts@.len() as int) =~= arg_views(
            self.local_consts@,
        ));
        self.ast.add_function(func);
        self.local_consts = Vec::new();
        assert(self.pending() =~= Seq::empty());
    }

    /// The top-level builder: it parses the whole stream. `func` starts a
    /// function; any other token is reported and passed over.
    pub fn run(&mut self)
        ensures
            final(self).after_run(old(self), parse_file(old(self).tokens(), old(self).pending())),
    {
        let ghost start = self.tokens();
        let ghost mut state = FileParse {
            functions: Seq::empty(),
            consts: self.pending(),
            diags: Seq::empty(),
            rest: Seq::empty(),
        };
        let ghost whole = file_loop(start, state);
        proof {
            assert(self.reports() =~= old(self).reports() + state.diags);
            assert(self.file().functions =~= old(self).file().functions + state.functions);
        }
        loop
            invariant_except_break
                file_loop(self.tokens(), state) == whole,
            invariant
                whole == parse_file(old(self).tokens(), old(self).pending()),
                state.rest == Seq::<TokenView>::empty(),
                self.reports() == old(self).reports() + state.diags,
                self.pending() == state.consts,
                self.file() == (FileView {
                    functions: old(self).file().functions + state.functions,
                    ..old(self).file()
                }),
                self.name() == old(self).name(),
                self.scanner().source() == old(self).scanner().source(),
            ensures
                whole == (FileParse { rest: self.tokens(), ..state }),
            decreases self.tokens().len(),
        {
            let ghost before = self.tokens();
            let ghost rest = rest_tokens(before);
            let token = self.next();
            let ghost mid = *self;
            if token.is_eof() {
                break ;
            }
            match token {
                Token::Func => {
                    let ghost parse = parse_function(rest, state.consts);
                    self.build_function();
                    proof {
                        lemma_function_rest(rest, state.consts);
                        let next = state.built(parse);
                        assert(self.reports() =~= old(self).reports() + next.diags);
                        assert(self.file().functions =~= old(self).file().functions
                            + next.functions);
                        state = next;
                    }
                },
                other => {
                    self.report(Problem::UnknownGlobalToken, other);
                    proof {
                        let next = state.reported(report(Problem::UnknownGlobalToken, other@));
                        assert(self.reports() =~= old(self).reports() + next.diags);
                        state = next;
                    }
                },
            }
        }
    }

    /// Takes in the lines of the file that is to be parsed.
    pub fn init(&mut self, lines: &Vec<String>)
        ensures
            final(self).scanner().source() == old(self).scanner().source() + joined_lines(
                line_views(lines@),
            ),
            final(self).scanner().position() == old(self).scanner().position(),
            final(self).scanner().word() == old(self).scanner().word(),
            final(self).scanner().pushed_back() == old(self).scanner().pushed_back(),
            final(self).reports() == old(self).reports(),
            final(self).pending() == old(self).pending(),
            final(self).file() == old(self).file(),
            final(self).name() == old(self).name(),
    {
        self.scanner.init(lines);
    }

    /// What `debug` writes: what the scanner writes, a line of `=`, and the
    /// dump of the file.
    pub open spec fn debug_text(&self) -> Seq<char> {
        self.scanner().debug_text() + "=================\n"@ + file_dump(self.file())
    }

    /// The text that is parsed and the dump of the file as built so far.
    pub fn debug(&self) -> (text: String)
        requires
            file_printable(self.file()),
        ensures
            text@ == self.debug_text(),
    {
        let mut out = self.scanner.debug();
        out.append("=================\n");
        let dump = self.ast.print();
        out.append(dump.as_str());
        out
    }

    /// The name of the file that is parsed.
    pub fn get_file_name(&self) -> (name: String)
        ensures
            name@ == self.name(),
    {
        self.file_name.clone()
    }

    /// Takes the next token from the parser's scanner.
    pub fn get_next(&mut self) -> (token: Token)
        ensures
            token@ == first_token(old(self).tokens()),
            final(self).advanced(old(self), rest_tokens(old(self).tokens()), Seq::empty()),
    {
        self.next()
    }

    /// Puts a token before the stream of the parser's scanner: it is the
    /// next one that the builders take.
    pub fn unget(&mut self, token: Token)
        ensures
            final(self).advanced(old(self), seq![token@] + old(self).tokens(), Seq::empty()),
    {
        self.scanner.unget(token);
        assert(self.reports() =~= old(self).reports() + Seq::empty());
    }

    /// A copy of the file as built so far.
    pub fn get_file(&self) -> (file: AstFile)
        ensures
            file@ == self.file(),
    {
        self.ast.clone()
    }

    /// What was reported so far, in the order in which it was found.
    pub fn get_diagnostics(&self) -> (reports: &Vec<Diagnostic>)
        ensures
            diagnostic_views(reports@) == self.reports(),
    {
        &self.diagnostics
    }
}

/// A parser for the file of the given name, with no text yet.
pub fn parser_new(file_name: String) -> (parser: Parser)
    ensures
        parser.name() == file_name@,
        parser.file() == (FileView { name: file_name@, functions: Seq::empty() }),
        parser.scanner().source() == Seq::<char>::empty(),
        parser.scanner().position() == 0,
        parser.scanner().word() == Seq::<char>::empty(),
        parser.scanner().pushed_back() == Seq::<TokenView>::empty(),
        parser.pending() == Seq::<ArgView>::empty(),
        parser.reports() == Seq::<DiagnosticView>::empty(),
{
    let parser = Parser {
        file_name: file_name.clone(),
        ast: ast_new_file(file_name.clone()),
        scanner: lex_new(file_name),
        local_consts: Vec::new(),
        diagnostics: Vec::new(),
    };
    assert(parser.pending() =~= Seq::empty());
    assert(parser.reports() =~= Seq::empty());
    parser
}

} // verus!
