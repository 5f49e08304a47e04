use vstd::prelude::*;
use crate::lattice::AwkT;

verus! {

/// Arithmetic operators; their result is always a number.
#[derive(Clone, Copy, Debug, PartialEq, Eq, Structural)]
pub enum MathOp {
    Minus,
    Plus,
    Slash,
    Star,
}

/// Comparison operators; their result is the number 0 or 1.
#[derive(Clone, Copy, Debug, PartialEq, Eq, Structural)]
pub enum BinOp {
    Greater,
    GreaterEq,
    Less,
    LessEq,
    BangEq,
    EqEq,
}

/// Short-circuit logical operators; their result is the number 0 or 1.
#[derive(Clone, Copy, Debug, PartialEq, Eq, Structural)]
pub enum LogicalOp {
    And,
    Or,
}

/// An expression node. A number literal is held as the bit pattern of its
/// IEEE-754 double.
#[derive(Debug)]
pub enum Expr {
    Number(u64),
    String(String),
    Variable(String),
    Assign(String, Box<TypedExpr>),
    MathOp(Box<TypedExpr>, MathOp, Box<TypedExpr>),
    BinOp(Box<TypedExpr>, BinOp, Box<TypedExpr>),
    LogicalOp(Box<TypedExpr>, LogicalOp, Box<TypedExpr>),
    Column(Box<TypedExpr>),
    Call,
}

/// An expression together with the static type slot that type analysis fills.
#[derive(Debug)]
pub struct TypedExpr {
    pub expr: Expr,
    pub typ: AwkT,
}

/// A statement of the language.
#[derive(Debug)]
pub enum Stmt {
    Expr(TypedExpr),
    Print(TypedExpr),
    Group(Vec<Stmt>),
    If(TypedExpr, Box<Stmt>, Option<Box<Stmt>>),
    While(TypedExpr, Box<Stmt>),
}

impl TypedExpr {
    /// Wraps an expression whose type slot is not yet analysed (it starts
    /// out as `Float`).
    pub fn new(expr: Expr) -> (r: TypedExpr)
        ensures
            r.expr == expr,
            r.typ == AwkT::Float,
    {
        TypedExpr { expr, typ: AwkT::Float }
    }
}

/// Two expression trees that differ at most in their type slots.
pub open spec fn same_shape_expr(a: TypedExpr, b: TypedExpr) -> bool
    decreases a,
{
    match (a.expr, b.expr) {
        (Expr::Number(x), Expr::Number(y)) => x == y,
        (Expr::String(x), Expr::String(y)) => x == y,
        (Expr::Variable(x), Expr::Variable(y)) => x == y,
        (Expr::Assign(x, v), Expr::Assign(y, w)) => x == y && same_shape_expr(*v, *w),
        (Expr::MathOp(l1, o1, r1), Expr::MathOp(l2, o2, r2)) =>
            o1 == o2 && same_shape_expr(*l1, *l2) && same_shape_expr(*r1, *r2),
        (Expr::BinOp(l1, o1, r1), Expr::BinOp(l2, o2, r2)) =>
            o1 == o2 && same_shape_expr(*l1, *l2) && same_shape_expr(*r1, *r2),
        (Expr::LogicalOp(l1, o1, r1), Expr::LogicalOp(l2, o2, r2)) =>
            o1 == o2 && same_shape_expr(*l1, *l2) && same_shape_expr(*r1, *r2),
        (Expr::Column(c1), Expr::Column(c2)) => same_shape_expr(*c1, *c2),
        (Expr::Call, Expr::Call) => true,
        _ => false,
    }
}

/// Two statement trees that differ at most in the type slots of their
/// expressions.
pub open spec fn same_shape_stmt(a: Stmt, b: Stmt) -> bool
    decreases a,
{
    match (a, b) {
        (Stmt::Expr(x), Stmt::Expr(y)) => same_shape_expr(x, y),
        (Stmt::Print(x), Stmt::Print(y)) => same_shape_expr(x, y),
        (Stmt::Group(xs), Stmt::Group(ys)) => same_shape_group(xs@, ys@),
        (Stmt::If(t1, a1, b1), Stmt::If(t2, a2, b2)) =>
            same_shape_expr(t1, t2) && same_shape_stmt(*a1, *a2) && match (b1, b2) {
                (Some(x), Some(y)) => same_shape_stmt(*x, *y),
                (None, None) => true,
                _ => false,
            },
        (Stmt::While(t1, b1), Stmt::While(t2, b2)) =>
            same_shape_expr(t1, t2) && same_shape_stmt(*b1, *b2),
        _ => false,
    }
}

/// Two statement sequences that agree element by element up to type slots.
pub open spec fn same_shape_group(xs: Seq<Stmt>, ys: Seq<Stmt>) -> bool
    decreases xs,
{
    xs.len() == ys.len() && forall|i: int| 0 <= i < xs.len() ==> same_shape_stmt(xs[i], ys[i])
}

} // verus!
