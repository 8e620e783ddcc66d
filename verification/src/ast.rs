//! The abstract syntax tree, and its mathematical model.
//!
//! A number literal is held by the bit pattern of its IEEE-754 double.

use vstd::prelude::*;

verus! {

/// A binary operator.
#[derive(Debug, Clone, Copy, PartialEq, Eq, Structural)]
pub enum BinaryOp {
    Add,
    Subtract,
    Multiply,
    Divide,
    Modulo,
    Power,
    Equal,
    NotEqual,
    Less,
    Greater,
    LessEqual,
    GreaterEqual,
    And,
    Or,
}

/// A unary operator.
#[derive(Debug, Clone, Copy, PartialEq, Eq, Structural)]
pub enum UnaryOp {
    Negate,
    Not,
}

/// The scope that a declaration names.
#[derive(Debug, Clone, Copy, PartialEq, Eq, Structural)]
pub enum VarScope {
    Local,
    Static,
    Private,
    Public,
}

/// An expression.
#[allow(inconsistent_fields)]
#[derive(Debug, PartialEq)]
pub enum Expr {
    Number(u64),
    String(String),
    Boolean(bool),
    Nil,
    Variable(String),
    Binary { left: Box<Expr>, operator: BinaryOp, right: Box<Expr> },
    Unary { operator: UnaryOp, operand: Box<Expr> },
    Call { name: String, args: Vec<Expr> },
    Index { object: Box<Expr>, index: Box<Expr> },
    Assign { name: String, value: Box<Expr> },
    Array(Vec<Expr>),
}

/// A statement.
#[derive(Debug, PartialEq)]
pub enum Stmt {
    VarDecl { name: String, initializer: Option<Expr>, scope: VarScope },
    Expression(Expr),
    Function { name: String, params: Vec<String>, body: Vec<Stmt>, is_procedure: bool },
    Return(Option<Expr>),
    If { condition: Expr, then_branch: Vec<Stmt>, else_branch: Option<Vec<Stmt>> },
    While { condition: Expr, body: Vec<Stmt> },
    For { variable: String, start: Expr, end: Expr, step: Option<Expr>, body: Vec<Stmt> },
    DoWhile { body: Vec<Stmt>, condition: Expr },
    Exit,
    Loop { body: Vec<Stmt> },
    Case { expr: Expr, cases: Vec<(Expr, Vec<Stmt>)>, otherwise: Option<Vec<Stmt>> },
    DbUse { filename: String, alias: Option<String> },
    DbSkip(Option<Expr>),
    DbGoTop,
    DbGoBottom,
    DbSeek { key: Expr },
    Replace { field: String, value: Expr },
    Block(Vec<Stmt>),
}

/// A program: its statements in order.
#[derive(Debug)]
pub struct Program {
    pub statements: Vec<Stmt>,
}

/// What an expression is.
#[allow(inconsistent_fields)]
pub enum ExprView {
    Number(u64),
    String(Seq<char>),
    Boolean(bool),
    Nil,
    Variable(Seq<char>),
    Binary { left: Box<ExprView>, operator: BinaryOp, right: Box<ExprView> },
    Unary { operator: UnaryOp, operand: Box<ExprView> },
    Call { name: Seq<char>, args: Seq<ExprView> },
    Index { object: Box<ExprView>, index: Box<ExprView> },
    Assign { name: Seq<char>, value: Box<ExprView> },
    Array(Seq<ExprView>),
}

/// What a statement is.
pub enum StmtView {
    VarDecl { name: Seq<char>, initializer: Option<ExprView>, scope: VarScope },
    Expression(ExprView),
    Function { name: Seq<char>, params: Seq<Seq<char>>, body: Seq<StmtView>, is_procedure: bool },
    Return(Option<ExprView>),
    If { condition: ExprView, then_branch: Seq<StmtView>, else_branch: Option<Seq<StmtView>> },
    While { condition: ExprView, body: Seq<StmtView> },
    For {
        variable: Seq<char>,
        start: ExprView,
        end: ExprView,
        step: Option<ExprView>,
        body: Seq<StmtView>,
    },
    DoWhile { body: Seq<StmtView>, condition: ExprView },
    Exit,
    Loop { body: Seq<StmtView> },
    Case {
        expr: ExprView,
        cases: Seq<(ExprView, Seq<StmtView>)>,
        otherwise: Option<Seq<StmtView>>,
    },
    DbUse { filename: Seq<char>, alias: Option<Seq<char>> },
    DbSkip(Option<ExprView>),
    DbGoTop,
    DbGoBottom,
    DbSeek { key: ExprView },
    Replace { field: Seq<char>, value: ExprView },
    Block(Seq<StmtView>),
}

/// The texts of a list of names.
pub open spec fn names_model(names: Seq<String>) -> Seq<Seq<char>> {
    Seq::new(names.len(), |i: int| names[i]@)
}

/// The models of a list of expressions.
pub open spec fn exprs_model(items: &Vec<Expr>) -> Seq<ExprView>
    decreases items,
{
    Seq::new(
        items.len() as nat,
        |i: int|
            if 0 <= i < items.len() {
                items[i].model()
            } else {
                ExprView::Nil
            },
    )
}

/// The model of an expression that may be absent.
pub open spec fn optional_expr_model(e: &Option<Expr>) -> Option<ExprView> {
    match e {
        Some(e) => Some(e.model()),
        None => None,
    }
}

/// The models of a list of statements.
pub open spec fn stmts_model(items: &Vec<Stmt>) -> Seq<StmtView>
    decreases items,
{
    Seq::new(
        items.len() as nat,
        |i: int|
            if 0 <= i < items.len() {
                items[i].model()
            } else {
                StmtView::Exit
            },
    )
}

/// The models of a list of statements that may be absent.
pub open spec fn optional_stmts_model(items: &Option<Vec<Stmt>>) -> Option<Seq<StmtView>> {
    match items {
        Some(stmts) => Some(stmts_model(stmts)),
        None => None,
    }
}

/// The models of the labels of a `CASE` statement, each with its body.
pub open spec fn arms_model(items: &Vec<(Expr, Vec<Stmt>)>) -> Seq<(ExprView, Seq<StmtView>)>
    decreases items,
{
    Seq::new(
        items.len() as nat,
        |i: int|
            if 0 <= i < items.len() {
                (items[i].0.model(), stmts_model(&items[i].1))
            } else {
                (ExprView::Nil, Seq::empty())
            },
    )
}

impl Expr {
    /// What this expression is.
    pub open spec fn model(&self) -> ExprView
        decreases self,
    {
        match self {
            Expr::Number(bits) => ExprView::Number(*bits),
            Expr::String(text) => ExprView::String(text@),
            Expr::Boolean(b) => ExprView::Boolean(*b),
            Expr::Nil => ExprView::Nil,
            Expr::Variable(name) => ExprView::Variable(name@),
            Expr::Binary { left, operator, right } => ExprView::Binary {
                left: Box::new(left.model()),
                operator: *operator,
                right: Box::new(right.model()),
            },
            Expr::Unary { operator, operand } => ExprView::Unary {
                operator: *operator,
                operand: Box::new(operand.model()),
            },
            Expr::Call { name, args } => ExprView::Call { name: name@, args: exprs_model(args) },
            Expr::Index { object, index } => ExprView::Index {
                object: Box::new(object.model()),
                index: Box::new(index.model()),
            },
            Expr::Assign { name, value } => ExprView::Assign {
                name: name@,
                value: Box::new(value.model()),
            },
            Expr::Array(items) => ExprView::Array(exprs_model(items)),
        }
    }
}

impl View for Expr {
    type V = ExprView;

    open spec fn view(&self) -> ExprView {
        self.model()
    }
}

impl Stmt {
    /// What this statement is.
    pub open spec fn model(&self) -> StmtView
        decreases self,
    {
        match self {
            Stmt::VarDecl { name, initializer, scope } => StmtView::VarDecl {
                name: name@,
                initializer: optional_expr_model(initializer),
                scope: *scope,
            },
            Stmt::Expression(e) => StmtView::Expression(e.model()),
            Stmt::Function { name, params, body, is_procedure } => StmtView::Function {
                name: name@,
                params: names_model(params@),
                body: stmts_model(body),
                is_procedure: *is_procedure,
            },
            Stmt::Return(e) => StmtView::Return(optional_expr_model(e)),
            Stmt::If { condition, then_branch, else_branch } => StmtView::If {
                condition: condition.model(),
                then_branch: stmts_model(then_branch),
                else_branch: match else_branch {
                    Some(stmts) => Some(stmts_model(stmts)),
                    None => None,
                },
            },
            Stmt::While { condition, body } => StmtView::While {
                condition: condition.model(),
                body: stmts_model(body),
            },
            Stmt::For { variable, start, end, step, body } => StmtView::For {
                variable: variable@,
                start: start.model(),
                end: end.model(),
                step: optional_expr_model(step),
                body: stmts_model(body),
            },
            Stmt::DoWhile { body, condition } => StmtView::DoWhile {
                body: stmts_model(body),
                condition: condition.model(),
            },
            Stmt::Exit => StmtView::Exit,
            Stmt::Loop { body } => StmtView::Loop { body: stmts_model(body) },
            Stmt::Case { expr, cases, otherwise } => StmtView::Case {
                expr: expr.model(),
                cases: arms_model(cases),
                otherwise: match otherwise {
                    Some(stmts) => Some(stmts_model(stmts)),
                    None => None,
                },
            },
            Stmt::DbUse { filename, alias } => StmtView::DbUse {
                filename: filename@,
                alias: match alias {
                    Some(a) => Some(a@),
                    None => None,
                },
            },
            Stmt::DbSkip(e) => StmtView::DbSkip(optional_expr_model(e)),
            Stmt::DbGoTop => StmtView::DbGoTop,
            Stmt::DbGoBottom => StmtView::DbGoBottom,
            Stmt::DbSeek { key } => StmtView::DbSeek { key: key.model() },
            Stmt::Replace { field, value } => StmtView::Replace {
                field: field@,
                value: value.model(),
            },
            Stmt::Block(stmts) => StmtView::Block(stmts_model(stmts)),
        }
    }
}

impl View for Stmt {
    type V = StmtView;

    open spec fn view(&self) -> StmtView {
        self.model()
    }
}

impl View for Program {
    type V = Seq<StmtView>;

    open spec fn view(&self) -> Seq<StmtView> {
        stmts_model(&self.statements)
    }
}

impl Program {
    /// The program without statements.
    pub fn new() -> (r: Program)
        ensures
            r@ == Seq::<StmtView>::empty(),
    {
        let r = Program { statements: Vec::new() };
        assert(r@ =~= Seq::<StmtView>::empty());
        r
    }
}

} // verus!
