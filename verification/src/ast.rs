//! Abstract syntax of the source language: a program is one function whose
//! body is a sequence of statements over 32-bit integer locals.

use vstd::prelude::*;

verus! {

/// Unary operators of the source language.
#[derive(Clone, Copy, PartialEq, Eq, Structural, Debug)]
pub enum UnaryOp {
    /// Arithmetic negation.
    Neg,
    /// Bitwise complement.
    BitNot,
    /// Logical negation: zero becomes one, nonzero becomes zero.
    LogicNot,
}

/// Binary operators of the source language. Logical `And` and `Or` do not
/// short-circuit: both operands are always fully evaluated.
#[derive(Clone, Copy, PartialEq, Eq, Structural, Debug)]
pub enum BinaryOp {
    Add,
    Sub,
    Mul,
    Div,
    Mod,
    Lt,
    Le,
    Gt,
    Ge,
    Equal,
    NotEqual,
    And,
    Or,
}

/// Expressions. Evaluating an expression leaves exactly one value on the
/// operand stack of the target machine.
pub enum Expr {
    /// A 32-bit integer literal.
    Int(i32),
    /// A unary operation applied to an operand.
    Unary(UnaryOp, Box<Expr>),
    /// A binary operation; the left operand is evaluated strictly before the
    /// right one.
    Binary(BinaryOp, Box<Expr>, Box<Expr>),
    /// A reference to a variable, resolved by lexical scope.
    Var(String),
    /// An assignment to a named variable; the assigned value is also the
    /// value of the whole expression.
    Assign(String, Box<Expr>),
    /// The ternary conditional `cond ? then : otherwise`.
    Condition(Box<Expr>, Box<Expr>, Box<Expr>),
}

/// A variable declaration, with an optional initializer.
pub struct Decl {
    pub name: String,
    pub init: Option<Expr>,
}

/// Statements. Executing a lowered statement leaves the operand stack depth
/// unchanged.
pub enum Stmt {
    /// The empty statement; lowers to no instructions.
    Empty,
    /// `return e;`.
    Ret(Expr),
    /// A declaration statement.
    Decl(Decl),
    /// An expression evaluated for its effect; its value is discarded.
    Expr(Expr),
    /// `if (cond) then ...` with an optional else branch.
    If(Expr, Box<Stmt>, Option<Box<Stmt>>),
    /// A braced block opening a fresh lexical scope.
    Block(Vec<Stmt>),
    /// `do body while (cond);`.
    DoWhile(Box<Stmt>, Expr),
    /// `for (; cond; update) body`; any initializer has already been lowered
    /// by the surrounding code, so it is not part of this construct.
    For { cond: Option<Expr>, update: Option<Expr>, body: Box<Stmt> },
    /// `break;` out of the innermost enclosing loop.
    Break,
    /// `continue;` to the innermost enclosing loop's continue target.
    Continue,
}

/// A function: a name and the ordered statements of its body.
pub struct Func {
    pub name: String,
    pub stmts: Vec<Stmt>,
}

/// A program holds exactly one function.
pub struct Prog {
    pub func: Func,
}

/// An upper bound on the labels and slots that lowering an expression
/// allocates; used to state freedom from counter overflow.
pub open spec fn expr_size(e: Expr) -> nat
    decreases e,
{
    match e {
        Expr::Int(_) => 1,
        Expr::Unary(_, x) => 1 + expr_size(*x),
        Expr::Binary(_, l, r) => 1 + expr_size(*l) + expr_size(*r),
        Expr::Var(_) => 1,
        Expr::Assign(_, rhs) => 1 + expr_size(*rhs),
        Expr::Condition(c, t, f) => 2 + expr_size(*c) + expr_size(*t) + expr_size(*f),
    }
}

/// The size of an optional expression; absence contributes nothing.
pub open spec fn opt_expr_size(oe: Option<Expr>) -> nat {
    match oe {
        None => 0,
        Some(e) => expr_size(e),
    }
}

/// An upper bound on the labels and slots that lowering a declaration
/// allocates.
pub open spec fn decl_size(d: Decl) -> nat {
    1 + opt_expr_size(d.init)
}

/// An upper bound on the labels and slots that lowering a statement
/// allocates.
pub open spec fn stmt_size(s: Stmt) -> nat
    decreases s,
{
    match s {
        Stmt::Empty => 1,
        Stmt::Ret(e) => 1 + expr_size(e),
        Stmt::Decl(d) => decl_size(d),
        Stmt::Expr(e) => 1 + expr_size(e),
        Stmt::If(cond, t, f) => 2 + expr_size(cond) + stmt_size(*t) + opt_stmt_size(f),
        Stmt::Block(v) => 1 + stmts_size(v@),
        Stmt::DoWhile(body, cond) => 3 + stmt_size(*body) + expr_size(cond),
        Stmt::For { cond, update, body } => 3 + opt_expr_size(cond) + opt_expr_size(update)
            + stmt_size(*body),
        Stmt::Break => 1,
        Stmt::Continue => 1,
    }
}

/// The size of an optional boxed statement; absence contributes nothing.
pub open spec fn opt_stmt_size(os: Option<Box<Stmt>>) -> nat
    decreases os,
{
    match os {
        None => 0,
        Some(s) => stmt_size(*s),
    }
}

/// The summed size of a statement sequence.
pub open spec fn stmts_size(ss: Seq<Stmt>) -> nat
    decreases ss,
{
    if ss.len() == 0 {
        0
    } else {
        stmt_size(ss.first()) + stmts_size(ss.drop_first())
    }
}

} // verus!
