//! The syntax tree of a Nova source file.
//!
//! A float literal is held as its source text.
use vstd::prelude::*;
use crate::syntax::span::Span;

verus! {

/// A decorator like `@persist`, `@dist(node="worker-1")`, `@runtime`
#[derive(Debug)]
pub struct Decorator {
    pub name: String,
    pub args: Vec<DecoratorArg>,
    pub span: Span,
}

#[derive(Debug)]
pub enum DecoratorArg {
    KeyValue { key: String, value: String },
    Ident(String),
}

/// Top-level items in a Nova file
#[derive(Debug)]
pub enum Item {
    Function(Function),
    Module(ModuleDecl),
    Struct(StructDecl),
    Import(ImportDecl),
    RuntimeConfig(RuntimeConfig),
    Expr(Expr),
}

#[derive(Debug)]
pub struct Function {
    pub decorators: Vec<Decorator>,
    pub name: String,
    pub params: Vec<Param>,
    pub return_ty: Option<TypeExpr>,
    pub body: Vec<Stmt>,
    pub span: Span,
}

#[derive(Debug)]
pub struct Param {
    pub name: String,
    pub ty: Option<TypeExpr>,
    pub span: Span,
}

#[derive(Debug)]
pub struct ModuleDecl {
    pub decorators: Vec<Decorator>,
    pub name: String,
    pub items: Vec<Item>,
    pub span: Span,
}

#[derive(Debug)]
pub struct StructDecl {
    pub decorators: Vec<Decorator>,
    pub name: String,
    pub fields: Vec<StructField>,
    pub span: Span,
}

#[derive(Debug)]
pub struct StructField {
    pub name: String,
    pub ty: TypeExpr,
    pub span: Span,
}

#[derive(Debug)]
pub struct ImportDecl {
    pub path: Vec<String>,
    pub alias: Option<String>,
    pub span: Span,
}

#[derive(Debug)]
pub struct RuntimeConfig {
    pub entries: Vec<(String, String)>,
    pub span: Span,
}

// ── Statements ────────────────────────────────────────────────────────────────

#[derive(Debug)]
pub enum Stmt {
    Let { name: String, ty: Option<TypeExpr>, value: Expr, span: Span },
    Var { name: String, ty: Option<TypeExpr>, value: Expr, span: Span },
    Assign { target: Expr, value: Expr, span: Span },
    Return { value: Option<Expr>, span: Span },
    If {
        condition: Expr,
        then_body: Vec<Stmt>,
        elif_branches: Vec<(Expr, Vec<Stmt>)>,
        else_body: Option<Vec<Stmt>>,
        span: Span,
    },
    While { condition: Expr, body: Vec<Stmt>, span: Span },
    For { var: String, iter: Expr, body: Vec<Stmt>, span: Span },
    Break { span: Span },
    Continue { span: Span },
    Pass { span: Span },
    Expr(Expr),
}

impl Stmt {
    /// The inner expression of an expression statement; any other statement
    /// becomes the placeholder identifier `__stmt__` with an empty span.
    pub fn into_expr(self) -> (e: Expr)
        ensures
            match self {
                Stmt::Expr(x) => e == x,
                _ => e matches Expr::Ident(name, span) && name@ == "__stmt__"@ && span == Span {
                    start: 0,
                    end: 0,
                },
            },
    {
        match self {
            Stmt::Expr(e) => e,
            _ => {
                let name = String::from_str("__stmt__");
                proof {
                    reveal_strlit("__stmt__");
                }
                Expr::Ident(name, Span::default())
            },
        }
    }
}

// ── Expressions ───────────────────────────────────────────────────────────────

#[derive(Debug)]
pub enum Expr {
    Int(i64, Span),
    /// The literal's source text: digits, a point, digits.
    Float(String, Span),
    Str(String, Span),
    Bool(bool, Span),
    Ident(String, Span),
    BinOp { op: BinOp, lhs: Box<Expr>, rhs: Box<Expr>, span: Span },
    UnaryOp { op: UnaryOp, expr: Box<Expr>, span: Span },
    Call { callee: Box<Expr>, args: Vec<Expr>, span: Span },
    Field { object: Box<Expr>, field: String, span: Span },
    Index { object: Box<Expr>, index: Box<Expr>, span: Span },
    Array(Vec<Expr>, Span),
    FStr(Vec<FStrPart>, Span),
}

/// `b` is a copy of `a`: the same variant, with equal literals, names,
/// operators and spans, and copies of the subexpressions.
pub open spec fn copy_of(a: Expr, b: Expr) -> bool
    decreases a,
{
    match a {
        Expr::BinOp { op, lhs, rhs, span } => b matches Expr::BinOp { op: o2, lhs: l2, rhs: r2, span: s2 }
            && op == o2 && span == s2 && copy_of(*lhs, *l2) && copy_of(*rhs, *r2),
        Expr::UnaryOp { op, expr, span } => b matches Expr::UnaryOp { op: o2, expr: e2, span: s2 } && op == o2
            && span == s2 && copy_of(*expr, *e2),
        Expr::Call { callee, args, span } => b matches Expr::Call { callee: c2, args: a2, span: s2 } && span
            == s2 && copy_of(*callee, *c2) && args@.len() == a2@.len() && forall|i: int|
            0 <= i < args@.len() ==> copy_of(#[trigger] args@[i], a2@[i]),
        Expr::Field { object, field, span } => b matches Expr::Field { object: o2, field: f2, span: s2 }
            && field == f2 && span == s2 && copy_of(*object, *o2),
        Expr::Index { object, index, span } => b matches Expr::Index { object: o2, index: i2, span: s2 }
            && span == s2 && copy_of(*object, *o2) && copy_of(*index, *i2),
        Expr::Array(elems, span) => b matches Expr::Array(e2, s2) && span == s2 && elems@.len() == e2@.len()
            && forall|i: int| 0 <= i < elems@.len() ==> copy_of(#[trigger] elems@[i], e2@[i]),
        Expr::FStr(parts, span) => b matches Expr::FStr(p2, s2) && span == s2 && parts@.len() == p2@.len()
            && forall|i: int|
            0 <= i < parts@.len() ==> match #[trigger] parts@[i] {
                FStrPart::Literal(t) => p2@[i] == FStrPart::Literal(t),
                FStrPart::Interpolated(e) => p2@[i] matches FStrPart::Interpolated(e2) && copy_of(e, e2),
            },
        _ => b == a,
    }
}

impl Expr {
    /// A copy of this expression.
    pub fn duplicate(&self) -> (r: Expr)
        ensures
            copy_of(*self, r),
        decreases self,
    {
        match self {
            Expr::Int(n, sp) => Expr::Int(*n, *sp),
            Expr::Float(f, sp) => Expr::Float(f.clone(), *sp),
            Expr::Str(s, sp) => Expr::Str(s.clone(), *sp),
            Expr::Bool(b, sp) => Expr::Bool(*b, *sp),
            Expr::Ident(s, sp) => Expr::Ident(s.clone(), *sp),
            Expr::BinOp { op, lhs, rhs, span } => Expr::BinOp {
                op: *op,
                lhs: Box::new(lhs.duplicate()),
                rhs: Box::new(rhs.duplicate()),
                span: *span,
            },
            Expr::UnaryOp { op, expr, span } => Expr::UnaryOp {
                op: *op,
                expr: Box::new(expr.duplicate()),
                span: *span,
            },
            Expr::Call { callee, args, span } => {
                let mut out: Vec<Expr> = Vec::new();
                let mut i: usize = 0;
                while i < args.len()
                    invariant
                        i <= args@.len(),
                        forall|j: int| 0 <= j < args@.len() ==> decreases_to!(*self => #[trigger] args@[j]),
                        out@.len() == i,
                        forall|j: int| 0 <= j < i ==> copy_of(#[trigger] args@[j], out@[j]),
                    decreases args@.len() - i,
                {
                    out.push(args[i].duplicate());
                    i = i + 1;
                }
                Expr::Call { callee: Box::new(callee.duplicate()), args: out, span: *span }
            },
            Expr::Field { object, field, span } => Expr::Field {
                object: Box::new(object.duplicate()),
                field: field.clone(),
                span: *span,
            },
            Expr::Index { object, index, span } => Expr::Index {
                object: Box::new(object.duplicate()),
                index: Box::new(index.duplicate()),
                span: *span,
            },
            Expr::Array(elems, sp) => {
                let mut out: Vec<Expr> = Vec::new();
                let mut i: usize = 0;
                while i < elems.len()
                    invariant
                        i <= elems@.len(),
                        forall|j: int| 0 <= j < elems@.len() ==> decreases_to!(*self => #[trigger] elems@[j]),
                        out@.len() == i,
                        forall|j: int| 0 <= j < i ==> copy_of(#[trigger] elems@[j], out@[j]),
                    decreases elems@.len() - i,
                {
                    out.push(elems[i].duplicate());
                    i = i + 1;
                }
                Expr::Array(out, *sp)
            },
            Expr::FStr(parts, sp) => {
                let mut out: Vec<FStrPart> = Vec::new();
                let mut i: usize = 0;
                while i < parts.len()
                    invariant
                        i <= parts@.len(),
                        forall|j: int| 0 <= j < parts@.len() ==> decreases_to!(*self => #[trigger] parts@[j]),
                        out@.len() == i,
                        forall|j: int|
                            0 <= j < i ==> match #[trigger] parts@[j] {
                                FStrPart::Literal(t) => out@[j] == FStrPart::Literal(t),
                                FStrPart::Interpolated(e) => out@[j] matches FStrPart::Interpolated(e2) && copy_of(
                                    e,
                                    e2,
                                ),
                            },
                    decreases parts@.len() - i,
                {
                    let part = match &parts[i] {
                        FStrPart::Literal(s) => FStrPart::Literal(s.clone()),
                        FStrPart::Interpolated(e) => {
                            assert(decreases_to!(parts@[i as int] => *e));
                            FStrPart::Interpolated(e.duplicate())
                        },
                    };
                    out.push(part);
                    i = i + 1;
                }
                Expr::FStr(out, *sp)
            },
        }
    }
}

#[derive(Debug)]
pub enum FStrPart {
    Literal(String),
    Interpolated(Expr),
}

#[derive(Debug, Clone, Copy, PartialEq, Eq, Structural)]
pub enum BinOp {
    Add,
    Sub,
    Mul,
    Div,
    Mod,
    Eq,
    NotEq,
    Lt,
    LtEq,
    Gt,
    GtEq,
    And,
    Or,
}

#[derive(Debug, Clone, Copy, PartialEq, Eq, Structural)]
pub enum UnaryOp {
    Neg,
    Not,
}

// ── Types ─────────────────────────────────────────────────────────────────────

#[derive(Debug)]
pub enum TypeExpr {
    Named(String, Span),
    Array(Box<TypeExpr>, Span),
    Optional(Box<TypeExpr>, Span),
}

// ── Top-level program ─────────────────────────────────────────────────────────

#[derive(Debug)]
pub struct Program {
    pub items: Vec<Item>,
    pub source_file: String,
}

} // verus!
