//! The syntax tree: node tags, the nodes themselves, and the mathematical
//! values (`ExprView`, `StmtView`, ...) that the contracts speak of.

use vstd::prelude::*;

verus! {

/// The tag of a syntax-tree node.
#[derive(Debug, Clone, Copy, PartialEq, Eq, Structural)]
pub enum AstType {
    /// The placeholder tag: an absent expression or a statement that could
    /// not be built.
    Empty,
    // Statements
    Block,
    VarDec,
    ArrayDec,
    StructDec,
    ExprStmt,
    CallStmt,
    Return,
    While,
    If,
    Elif,
    Else,
    Break,
    Continue,
    // Expressions
    ExprList,
    // Expressions: operators
    Assign,
    Add,
    Sub,
    Mul,
    Div,
    Mod,
    And,
    Or,
    Xor,
    Eq,
    Ne,
    Gt,
    Lt,
    Ge,
    Le,
    LGAnd,
    LGOr,
    // Expressions: primaries
    Id,
    Call,
    ArrayAcc,
    StructAcc,
    IntLiteral,
    CharLiteral,
    StringLiteral,
    BoolLiteral(bool),
}

/// The primitive types of the language.
#[derive(Debug, Clone, Copy, PartialEq, Eq, Structural)]
pub enum DataType {
    Void,
    I8,
    U8,
    I16,
    U16,
    I32,
    U32,
    I64,
    U64,
    String,
    Char,
    Bool,
}

impl AstType {
    /// The operators whose two operands both come from the operand stack.
    pub open spec fn is_binary(self) -> bool {
        matches!(
            self,
            AstType::Add | AstType::Sub | AstType::Mul | AstType::Div | AstType::Mod | AstType::And
                | AstType::Or | AstType::Xor | AstType::Eq | AstType::Ne | AstType::Gt | AstType::Lt
                | AstType::Ge | AstType::Le | AstType::LGAnd | AstType::LGOr
        )
    }
}

/// What an expression node is: its tag, its payloads, the items of a list
/// node (`list`) and the operands of an operator or the sub-argument of a
/// call, an array access or a member access (`args`).
pub struct ExprView {
    pub kind: AstType,
    pub number: u64,
    pub letter: char,
    pub text: Seq<char>,
    pub list: Seq<ExprView>,
    pub args: Seq<ExprView>,
}

/// What a statement node is.
pub struct StmtView {
    pub kind: AstType,
    pub name: Seq<char>,
    pub data_type: DataType,
    pub expr: ExprView,
    pub statements: Seq<StmtView>,
    pub branches: Seq<StmtView>,
}

/// What a typed name is: a parameter or a named constant.
pub struct ArgView {
    pub name: Seq<char>,
    pub data_type: DataType,
    pub expr: ExprView,
}

/// What a structure definition is: a name and its items in order.
pub struct StructView {
    pub name: Seq<char>,
    pub items: Seq<ArgView>,
}

/// What a function is.
pub struct FunctionView {
    pub name: Seq<char>,
    pub data_type: DataType,
    pub args: Seq<ArgView>,
    pub consts: Seq<ArgView>,
    pub block: StmtView,
}

/// What a file is.
pub struct FileView {
    pub name: Seq<char>,
    pub functions: Seq<FunctionView>,
}

impl ExprView {
    /// A node of the given tag with nothing attached.
    pub open spec fn new(kind: AstType) -> ExprView {
        ExprView {
            kind,
            number: 0,
            letter: '\0',
            text: Seq::empty(),
            list: Seq::empty(),
            args: Seq::empty(),
        }
    }

    /// The placeholder expression.
    pub open spec fn empty() -> ExprView {
        ExprView::new(AstType::Empty)
    }

    /// A node of the given tag that carries a name or a string.
    pub open spec fn named(kind: AstType, text: Seq<char>) -> ExprView {
        ExprView { text, ..ExprView::new(kind) }
    }

    pub open spec fn int_literal(value: u64) -> ExprView {
        ExprView { number: value, ..ExprView::new(AstType::IntLiteral) }
    }

    pub open spec fn char_literal(value: char) -> ExprView {
        ExprView { letter: value, ..ExprView::new(AstType::CharLiteral) }
    }

    /// A list node with the given items.
    pub open spec fn list_of(items: Seq<ExprView>) -> ExprView {
        ExprView { list: items, ..ExprView::new(AstType::ExprList) }
    }

    /// An operator node with its left and its right operand, in this order.
    pub open spec fn binary(kind: AstType, left: ExprView, right: ExprView) -> ExprView {
        ExprView { args: seq![left, right], ..ExprView::new(kind) }
    }

    /// A named node with one sub-argument: a call, an array access or a
    /// member access.
    pub open spec fn applied(kind: AstType, name: Seq<char>, arg: ExprView) -> ExprView {
        ExprView { args: seq![arg], ..ExprView::named(kind, name) }
    }

    /// The node with `item` as its new first operand.
    pub open spec fn with_lval(self, item: ExprView) -> ExprView {
        ExprView { args: seq![item] + self.args, ..self }
    }

    /// The node with `item` as its new last operand.
    pub open spec fn with_rval(self, item: ExprView) -> ExprView {
        ExprView { args: self.args.push(item), ..self }
    }
}

impl StmtView {
    /// A statement of the given tag with nothing attached.
    pub open spec fn new(kind: AstType) -> StmtView {
        StmtView {
            kind,
            name: Seq::empty(),
            data_type: DataType::Void,
            expr: ExprView::empty(),
            statements: Seq::empty(),
            branches: Seq::empty(),
        }
    }

    /// A statement that carries only an expression.
    pub open spec fn with_expr(kind: AstType, expr: ExprView) -> StmtView {
        StmtView { expr, ..StmtView::new(kind) }
    }
}

impl ArgView {
    pub open spec fn new(name: Seq<char>, data_type: DataType) -> ArgView {
        ArgView { name, data_type, expr: ExprView::empty() }
    }
}

impl FunctionView {
    pub open spec fn new(name: Seq<char>) -> FunctionView {
        FunctionView {
            name,
            data_type: DataType::Void,
            args: Seq::empty(),
            consts: Seq::empty(),
            block: StmtView::new(AstType::Block),
        }
    }
}

/// The values of a sequence of expression nodes.
pub open spec fn expr_views(nodes: Seq<AstExpression>) -> Seq<ExprView> {
    Seq::new(nodes.len(), |i: int| nodes[i]@)
}

/// The values of a sequence of statement nodes.
pub open spec fn stmt_views(nodes: Seq<AstStatement>) -> Seq<StmtView> {
    Seq::new(nodes.len(), |i: int| nodes[i]@)
}

/// The values of a sequence of typed names.
pub open spec fn arg_views(nodes: Seq<AstArg>) -> Seq<ArgView> {
    Seq::new(nodes.len(), |i: int| nodes[i]@)
}

/// The values of a sequence of functions.
pub open spec fn function_views(nodes: Seq<AstFunction>) -> Seq<FunctionView> {
    Seq::new(nodes.len(), |i: int| nodes[i]@)
}

pub struct AstFile {
    name: String,
    functions: Vec<AstFunction>,
}

pub struct AstFunction {
    name: String,
    data_type: DataType,
    args: Vec<AstArg>,
    consts: Vec<AstArg>,
    block: AstStatement,
}

pub struct AstArg {
    name: String,
    data_type: DataType,
    expr: AstExpression,
}

pub struct AstStruct {
    name: String,
    items: Vec<AstArg>,
}

pub struct AstStatement {
    ast_type: AstType,
    name: String,
    data_type: DataType,
    expr: AstExpression,
    statements: Vec<AstStatement>,
    branches: Vec<AstStatement>,
}

pub struct AstExpression {
    ast_type: AstType,
    int_value: u64,
    char_value: char,
    string_value: String,
    list: Vec<AstExpression>,
    args: Vec<AstExpression>,
}

impl AstExpression {
    /// The value of the node, by recursion over its children.
    pub closed spec fn model(&self) -> ExprView
        decreases self,
    {
        ExprView {
            kind: self.ast_type,
            number: self.int_value,
            letter: self.char_value,
            text: self.string_value@,
            list: Seq::new(
                self.list@.len(),
                |i: int|
                    if 0 <= i < self.list@.len() {
                        self.list@[i].model()
                    } else {
                        arbitrary()
                    },
            ),
            args: Seq::new(
                self.args@.len(),
                |i: int|
                    if 0 <= i < self.args@.len() {
                        self.args@[i].model()
                    } else {
                        arbitrary()
                    },
            ),
        }
    }

    proof fn lemma_children(&self)
        ensures
            self@.list == expr_views(self.list@),
            self@.args == expr_views(self.args@),
    {
        assert(self@.list =~= expr_views(self.list@));
        assert(self@.args =~= expr_views(self.args@));
    }
}

impl View for AstExpression {
    type V = ExprView;

    closed spec fn view(&self) -> ExprView {
        self.model()
    }
}

impl AstStatement {
    /// The value of the node, by recursion over its children.
    pub closed spec fn model(&self) -> StmtView
        decreases self,
    {
        StmtView {
            kind: self.ast_type,
            name: self.name@,
            data_type: self.data_type,
            expr: self.expr@,
            statements: Seq::new(
                self.statements@.len(),
                |i: int|
                    if 0 <= i < self.statements@.len() {
                        self.statements@[i].model()
                    } else {
                        arbitrary()
                    },
            ),
            branches: Seq::new(
                self.branches@.len(),
                |i: int|
                    if 0 <= i < self.branches@.len() {
                        self.branches@[i].model()
                    } else {
                        arbitrary()
                    },
            ),
        }
    }

    proof fn lemma_children(&self)
        ensures
            self@.statements == stmt_views(self.statements@),
            self@.branches == stmt_views(self.branches@),
    {
        assert(self@.statements =~= stmt_views(self.statements@));
        assert(self@.branches =~= stmt_views(self.branches@));
    }
}

impl View for AstStatement {
    type V = StmtView;

    closed spec fn view(&self) -> StmtView {
        self.model()
    }
}

impl View for AstArg {
    type V = ArgView;

    closed spec fn view(&self) -> ArgView {
        ArgView { name: self.name@, data_type: self.data_type, expr: self.expr@ }
    }
}

impl View for AstStruct {
    type V = StructView;

    closed spec fn view(&self) -> StructView {
        StructView { name: self.name@, items: arg_views(self.items@) }
    }
}

impl View for AstFunction {
    type V = FunctionView;

    closed spec fn view(&self) -> FunctionView {
        FunctionView {
            name: self.name@,
            data_type: self.data_type,
            args: arg_views(self.args@),
            consts: arg_views(self.consts@),
            block: self.block@,
        }
    }
}

impl View for AstFile {
    type V = FileView;

    closed spec fn view(&self) -> FileView {
        FileView { name: self.name@, functions: function_views(self.functions@) }
    }
}

/// Pushing a node onto a vector pushes its value onto the vector's values.
pub proof fn lemma_expr_views_push(nodes: Seq<AstExpression>, node: AstExpression)
    ensures
        expr_views(nodes.push(node)) == expr_views(nodes).push(node@),
{
    assert(expr_views(nodes.push(node)) =~= expr_views(nodes).push(node@));
}

/// Dropping the last node drops the last value.
pub proof fn lemma_expr_views_drop_last(nodes: Seq<AstExpression>)
    requires
        nodes.len() > 0,
    ensures
        expr_views(nodes.drop_last()) == expr_views(nodes).drop_last(),
        expr_views(nodes).last() == nodes.last()@,
{
    assert(expr_views(nodes.drop_last()) =~= expr_views(nodes).drop_last());
}

/// Pushing a node onto a vector pushes its value onto the vector's values.
pub proof fn lemma_stmt_views_push(nodes: Seq<AstStatement>, node: AstStatement)
    ensures
        stmt_views(nodes.push(node)) == stmt_views(nodes).push(node@),
{
    assert(stmt_views(nodes.push(node)) =~= stmt_views(nodes).push(node@));
}

/// Pushing a typed name onto a vector pushes its value onto the vector's values.
pub proof fn lemma_arg_views_push(nodes: Seq<AstArg>, node: AstArg)
    ensures
        arg_views(nodes.push(node)) == arg_views(nodes).push(node@),
{
    assert(arg_views(nodes.push(node)) =~= arg_views(nodes).push(node@));
}

impl Clone for AstExpression {
    fn clone(&self) -> (res: Self)
        ensures
            res@ == self@,
        decreases self,
    {
        let mut list: Vec<AstExpression> = Vec::new();
        let mut i: usize = 0;
        while i < self.list.len()
            invariant
                i <= self.list.len(),
                list@.len() == i,
                forall|j: int| 0 <= j < i ==> list@[j]@ == self.list@[j]@,
            decreases self.list.len() - i,
        {
            list.push(self.list[i].clone());
            i += 1;
        }
        let mut args: Vec<AstExpression> = Vec::new();
        let mut k: usize = 0;
        while k < self.args.len()
            invariant
                k <= self.args.len(),
                args@.len() == k,
                forall|j: int| 0 <= j < k ==> args@[j]@ == self.args@[j]@,
            decreases self.args.len() - k,
        {
            args.push(self.args[k].clone());
            k += 1;
        }
        let res = AstExpression {
            ast_type: self.ast_type,
            int_value: self.int_value,
            char_value: self.char_value,
            string_value: self.string_value.clone(),
            list,
            args,
        };
        proof {
            res.lemma_children();
            self.lemma_children();
            assert(expr_views(res.list@) =~= expr_views(self.list@));
            assert(expr_views(res.args@) =~= expr_views(self.args@));
        }
        res
    }
}

impl Clone for AstStatement {
    fn clone(&self) -> (res: Self)
        ensures
            res@ == self@,
        decreases self,
    {
        let mut statements: Vec<AstStatement> = Vec::new();
        let mut i: usize = 0;
        while i < self.statements.len()
            invariant
                i <= self.statements.len(),
                statements@.len() == i,
                forall|j: int| 0 <= j < i ==> statements@[j]@ == self.statements@[j]@,
            decreases self.statements.len() - i,
        {
            statements.push(self.statements[i].clone());
            i += 1;
        }
        let mut branches: Vec<AstStatement> = Vec::new();
        let mut k: usize = 0;
        while k < self.branches.len()
            invariant
                k <= self.branches.len(),
                branches@.len() == k,
                forall|j: int| 0 <= j < k ==> branches@[j]@ == self.branches@[j]@,
            decreases self.branches.len() - k,
        {
            branches.push(self.branches[k].clone());
            k += 1;
        }
        let res = AstStatement {
            ast_type: self.ast_type,
            name: self.name.clone(),
            data_type: self.data_type,
            expr: self.expr.clone(),
            statements,
            branches,
        };
        proof {
            res.lemma_children();
            self.lemma_children();
            assert(stmt_views(res.statements@) =~= stmt_views(self.statements@));
            assert(stmt_views(res.branches@) =~= stmt_views(self.branches@));
        }
        res
    }
}

impl Clone for AstArg {
    fn clone(&self) -> (res: Self)
        ensures
            res@ == self@,
    {
        AstArg { name: self.name.clone(), data_type: self.data_type, expr: self.expr.clone() }
    }
}

/// A copy of a vector of typed names.
pub fn clone_args(items: &Vec<AstArg>) -> (res: Vec<AstArg>)
    ensures
        arg_views(res@) == arg_views(items@),
{
    let mut res: Vec<AstArg> = Vec::new();
    let mut i: usize = 0;
    while i < items.len()
        invariant
            i <= items.len(),
            res@.len() == i,
            forall|j: int| 0 <= j < i ==> res@[j]@ == items@[j]@,
        decreases items.len() - i,
    {
        res.push(items[i].clone());
        i += 1;
    }
    assert(arg_views(res@) =~= arg_views(items@));
    res
}

impl Clone for AstStruct {
    fn clone(&self) -> (res: Self)
        ensures
            res@ == self@,
    {
        AstStruct { name: self.name.clone(), items: clone_args(&self.items) }
    }
}

impl AstStruct {
    /// Appends an item.
    pub fn add_item(&mut self, item: AstArg)
        ensures
            final(self)@ == (StructView { items: old(self)@.items.push(item@), ..old(self)@ }),
    {
        proof {
            lemma_arg_views_push(self.items@, item);
        }
        self.items.push(item);
    }

    pub fn get_name(&self) -> (name: String)
        ensures
            name@ == self@.name,
    {
        self.name.clone()
    }

    pub fn get_items(&self) -> (items: &Vec<AstArg>)
        ensures
            arg_views(items@) == self@.items,
    {
        &self.items
    }
}

impl Clone for AstFunction {
    fn clone(&self) -> (res: Self)
        ensures
            res@ == self@,
    {
        AstFunction {
            name: self.name.clone(),
            data_type: self.data_type,
            args: clone_args(&self.args),
            consts: clone_args(&self.consts),
            block: self.block.clone(),
        }
    }
}

impl Clone for AstFile {
    fn clone(&self) -> (res: Self)
        ensures
            res@ == self@,
    {
        let mut functions: Vec<AstFunction> = Vec::new();
        let mut i: usize = 0;
        while i < self.functions.len()
            invariant
                i <= self.functions.len(),
                functions@.len() == i,
                forall|j: int| 0 <= j < i ==> functions@[j]@ == self.functions@[j]@,
            decreases self.functions.len() - i,
        {
            functions.push(self.functions[i].clone());
            i += 1;
        }
        assert(function_views(functions@) =~= function_views(self.functions@));
        AstFile { name: self.name.clone(), functions }
    }
}

impl AstFile {
    /// Appends a function: declaration order is insertion order.
    pub fn add_function(&mut self, func: AstFunction)
        ensures
            final(self)@ == (FileView {
                functions: old(self)@.functions.push(func@),
                ..old(self)@
            }),
    {
        proof {
            lemma_function_views_push(self.functions@, func);
        }
        self.functions.push(func);
    }

    pub fn get_name(&self) -> (name: String)
        ensures
            name@ == self@.name,
    {
        self.name.clone()
    }

    pub fn get_functions(&self) -> (functions: &Vec<AstFunction>)
        ensures
            function_views(functions@) == self@.functions,
    {
        &self.functions
    }
}

/// Pushing a function onto a vector pushes its value onto the vector's values.
pub proof fn lemma_function_views_push(nodes: Seq<AstFunction>, node: AstFunction)
    ensures
        function_views(nodes.push(node)) == function_views(nodes).push(node@),
{
    assert(function_views(nodes.push(node)) =~= function_views(nodes).push(node@));
}

impl AstFunction {
    pub fn set_block(&mut self, block: AstStatement)
        ensures
            final(self)@ == (FunctionView { block: block@, ..old(self)@ }),
    {
        self.block = block;
    }

    pub fn set_data_type(&mut self, data_type: DataType)
        ensures
            final(self)@ == (FunctionView { data_type, ..old(self)@ }),
    {
        self.data_type = data_type;
    }

    /// Appends a parameter.
    pub fn add_arg(&mut self, arg: AstArg)
        ensures
            final(self)@ == (FunctionView { args: old(self)@.args.push(arg@), ..old(self)@ }),
    {
        proof {
            lemma_arg_views_push(self.args@, arg);
        }
        self.args.push(arg);
    }

    /// Appends a named constant.
    pub fn add_const(&mut self, c: AstArg)
        ensures
            final(self)@ == (FunctionView { consts: old(self)@.consts.push(c@), ..old(self)@ }),
    {
        proof {
            lemma_arg_views_push(self.consts@, c);
        }
        self.consts.push(c);
    }

    pub fn get_name(&self) -> (name: String)
        ensures
            name@ == self@.name,
    {
        self.name.clone()
    }

    pub fn get_data_type(&self) -> (data_type: DataType)
        ensures
            data_type == self@.data_type,
    {
        self.data_type
    }

    pub fn get_args(&self) -> (args: &Vec<AstArg>)
        ensures
            arg_views(args@) == self@.args,
    {
        &self.args
    }

    pub fn get_consts(&self) -> (consts: &Vec<AstArg>)
        ensures
            arg_views(consts@) == self@.consts,
    {
        &self.consts
    }

    pub fn get_block(&self) -> (block: &AstStatement)
        ensures
            block@ == self@.block,
    {
        &self.block
    }
}

impl AstArg {
    pub fn set_expression(&mut self, expr: AstExpression)
        ensures
            final(self)@ == (ArgView { expr: expr@, ..old(self)@ }),
    {
        self.expr = expr;
    }

    pub fn get_name(&self) -> (name: String)
        ensures
            name@ == self@.name,
    {
        self.name.clone()
    }

    pub fn get_data_type(&self) -> (data_type: DataType)
        ensures
            data_type == self@.data_type,
    {
        self.data_type
    }

    pub fn get_expression(&self) -> (expr: &AstExpression)
        ensures
            expr@ == self@.expr,
    {
        &self.expr
    }
}

impl AstStatement {
    pub fn set_name(&mut self, name: String)
        ensures
            final(self)@ == (StmtView { name: name@, ..old(self)@ }),
    {
        proof {
            old(self).lemma_children();
        }
        self.name = name;
        proof {
            self.lemma_children();
        }
    }

    pub fn set_data_type(&mut self, data_type: DataType)
        ensures
            final(self)@ == (StmtView { data_type, ..old(self)@ }),
    {
        proof {
            old(self).lemma_children();
        }
        self.data_type = data_type;
        proof {
            self.lemma_children();
        }
    }

    pub fn set_expression(&mut self, expr: AstExpression)
        ensures
            final(self)@ == (StmtView { expr: expr@, ..old(self)@ }),
    {
        proof {
            old(self).lemma_children();
        }
        self.expr = expr;
        proof {
            self.lemma_children();
        }
    }

    /// Appends a child statement: order is execution order.
    pub fn add_statement(&mut self, stmt: AstStatement)
        ensures
            final(self)@ == (StmtView {
                statements: old(self)@.statements.push(stmt@),
                ..old(self)@
            }),
    {
        proof {
            old(self).lemma_children();
            lemma_stmt_views_push(self.statements@, stmt);
        }
        self.statements.push(stmt);
        proof {
            self.lemma_children();
        }
    }

    /// Appends the block that a loop or a conditional owns.
    pub fn add_sub_block(&mut self, stmt: AstStatement)
        ensures
            final(self)@ == (StmtView {
                statements: old(self)@.statements.push(stmt@),
                ..old(self)@
            }),
    {
        self.add_statement(stmt);
    }

    /// Appends a clause to the branch list.
    pub fn add_branch(&mut self, stmt: AstStatement)
        ensures
            final(self)@ == (StmtView {
                branches: old(self)@.branches.push(stmt@),
                ..old(self)@
            }),
    {
        proof {
            old(self).lemma_children();
            lemma_stmt_views_push(self.branches@, stmt);
        }
        self.branches.push(stmt);
        proof {
            self.lemma_children();
        }
    }

    pub fn get_type(&self) -> (ast_type: AstType)
        ensures
            ast_type == self@.kind,
    {
        self.ast_type
    }

    pub fn get_name(&self) -> (name: String)
        ensures
            name@ == self@.name,
    {
        self.name.clone()
    }

    pub fn get_data_type(&self) -> (data_type: DataType)
        ensures
            data_type == self@.data_type,
    {
        self.data_type
    }

    pub fn get_expression(&self) -> (expr: &AstExpression)
        ensures
            expr@ == self@.expr,
    {
        &self.expr
    }

    pub fn get_statements(&self) -> (statements: &Vec<AstStatement>)
        ensures
            stmt_views(statements@) == self@.statements,
    {
        proof {
            self.lemma_children();
        }
        &self.statements
    }

    /// The block that a loop or a conditional owns: its first child.
    pub fn get_block(&self) -> (block: &AstStatement)
        requires
            self@.statements.len() > 0,
        ensures
            block@ == self@.statements[0],
    {
        proof {
            self.lemma_children();
        }
        &self.statements[0]
    }

    pub fn get_branches(&self) -> (branches: &Vec<AstStatement>)
        ensures
            stmt_views(branches@) == self@.branches,
    {
        proof {
            self.lemma_children();
        }
        &self.branches
    }
}

impl AstExpression {
    /// Attaches the left operand: it becomes the first operand, before any
    /// operand that is already there.
    pub fn set_lval(&mut self, item: AstExpression)
        ensures
            final(self)@ == old(self)@.with_lval(item@),
    {
        proof {
            old(self).lemma_children();
        }
        self.args.insert(0, item);
        proof {
            self.lemma_children();
            assert(expr_views(self.args@) =~= seq![item@] + expr_views(old(self).args@));
        }
    }

    /// Attaches the right operand: it becomes the last operand.
    pub fn set_rval(&mut self, item: AstExpression)
        ensures
            final(self)@ == old(self)@.with_rval(item@),
    {
        proof {
            old(self).lemma_children();
            lemma_expr_views_push(self.args@, item);
        }
        self.args.push(item);
        proof {
            self.lemma_children();
        }
    }

    /// Attaches the sub-argument of a call, an array access or a member
    /// access.
    pub fn set_arg(&mut self, item: AstExpression)
        ensures
            final(self)@ == old(self)@.with_rval(item@),
    {
        self.set_rval(item);
    }

    pub fn add_list_item(&mut self, item: AstExpression)
        ensures
            final(self)@ == (ExprView { list: old(self)@.list.push(item@), ..old(self)@ }),
    {
        proof {
            old(self).lemma_children();
            lemma_expr_views_push(self.list@, item);
        }
        self.list.push(item);
        proof {
            self.lemma_children();
        }
    }

    pub fn set_int(&mut self, value: u64)
        ensures
            final(self)@ == (ExprView { number: value, ..old(self)@ }),
    {
        proof {
            old(self).lemma_children();
        }
        self.int_value = value;
        proof {
            self.lemma_children();
        }
    }

    pub fn set_char(&mut self, value: char)
        ensures
            final(self)@ == (ExprView { letter: value, ..old(self)@ }),
    {
        proof {
            old(self).lemma_children();
        }
        self.char_value = value;
        proof {
            self.lemma_children();
        }
    }

    pub fn set_string(&mut self, value: String)
        ensures
            final(self)@ == (ExprView { text: value@, ..old(self)@ }),
    {
        proof {
            old(self).lemma_children();
        }
        self.string_value = value;
        proof {
            self.lemma_children();
        }
    }

    pub fn set_name(&mut self, value: String)
        ensures
            final(self)@ == (ExprView { text: value@, ..old(self)@ }),
    {
        self.set_string(value);
    }

    pub fn get_type(&self) -> (ast_type: AstType)
        ensures
            ast_type == self@.kind,
    {
        self.ast_type
    }

    /// The left operand of a node that has its two operands.
    pub fn get_lval(&self) -> (item: &AstExpression)
        requires
            self@.args.len() > 1,
        ensures
            item@ == self@.args[0],
    {
        proof {
            self.lemma_children();
        }
        &self.args[0]
    }

    /// The right operand of a node that has its two operands.
    pub fn get_rval(&self) -> (item: &AstExpression)
        requires
            self@.args.len() > 1,
        ensures
            item@ == self@.args[1],
    {
        proof {
            self.lemma_children();
        }
        &self.args[1]
    }

    /// The sub-argument of a call, an array access or a member access.
    pub fn get_arg(&self) -> (item: &AstExpression)
        requires
            self@.args.len() > 0,
        ensures
            item@ == self@.args[0],
    {
        proof {
            self.lemma_children();
        }
        &self.args[0]
    }

    /// The number of operands attached.
    pub fn get_arg_count(&self) -> (count: usize)
        ensures
            count == self@.args.len(),
    {
        proof {
            self.lemma_children();
        }
        self.args.len()
    }

    pub fn get_list(&self) -> (list: &Vec<AstExpression>)
        ensures
            expr_views(list@) == self@.list,
    {
        proof {
            self.lemma_children();
        }
        &self.list
    }

    pub fn get_list_size(&self) -> (size: usize)
        ensures
            size == self@.list.len(),
    {
        proof {
            self.lemma_children();
        }
        self.list.len()
    }

    pub fn get_int(&self) -> (value: u64)
        ensures
            value == self@.number,
    {
        self.int_value
    }

    pub fn get_char(&self) -> (value: char)
        ensures
            value == self@.letter,
    {
        self.char_value
    }

    pub fn get_string(&self) -> (value: String)
        ensures
            value@ == self@.text,
    {
        self.string_value.clone()
    }

    pub fn get_name(&self) -> (value: String)
        ensures
            value@ == self@.text,
    {
        self.string_value.clone()
    }
}

pub fn ast_new_file(name: String) -> (file: AstFile)
    ensures
        file@ == (FileView { name: name@, functions: Seq::empty() }),
{
    let file = AstFile { name, functions: Vec::new() };
    assert(function_views(file.functions@) =~= Seq::empty());
    file
}

pub fn ast_new_function(name: String) -> (func: AstFunction)
    ensures
        func@ == FunctionView::new(name@),
{
    let func = AstFunction {
        name,
        data_type: DataType::Void,
        args: Vec::new(),
        consts: Vec::new(),
        block: ast_new_statement(AstType::Block),
    };
    assert(arg_views(func.args@) =~= Seq::empty());
    assert(arg_views(func.consts@) =~= Seq::empty());
    func
}

pub fn ast_new_struct(name: String) -> (def: AstStruct)
    ensures
        def@ == (StructView { name: name@, items: Seq::empty() }),
{
    let def = AstStruct { name, items: Vec::new() };
    assert(arg_views(def.items@) =~= Seq::empty());
    def
}

pub fn ast_new_arg(name: String, data_type: DataType) -> (arg: AstArg)
    ensures
        arg@ == ArgView::new(name@, data_type),
{
    AstArg { name, data_type, expr: ast_new_expression(AstType::Empty) }
}

pub fn ast_new_statement(ast_type: AstType) -> (stmt: AstStatement)
    ensures
        stmt@ == StmtView::new(ast_type),
{
    let stmt = AstStatement {
        ast_type,
        name: String::new(),
        data_type: DataType::Void,
        expr: ast_new_expression(AstType::Empty),
        statements: Vec::new(),
        branches: Vec::new(),
    };
    proof {
        stmt.lemma_children();
        assert(stmt_views(stmt.statements@) =~= Seq::empty());
        assert(stmt_views(stmt.branches@) =~= Seq::empty());
    }
    stmt
}

pub fn ast_new_expression(ast_type: AstType) -> (expr: AstExpression)
    ensures
        expr@ == ExprView::new(ast_type),
{
    let expr = AstExpression {
        ast_type,
        int_value: 0,
        char_value: '\0',
        string_value: String::new(),
        list: Vec::new(),
        args: Vec::new(),
    };
    proof {
        expr.lemma_children();
        assert(expr_views(expr.list@) =~= Seq::empty());
        assert(expr_views(expr.args@) =~= Seq::empty());
    }
    expr
}

} // verus!
