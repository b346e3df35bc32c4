//! The syntax tree that type inference checks: statements, expressions and
//! type annotations of a Nova program.
//!
//! A float literal is held as its source text.
use vstd::prelude::*;

verus! {

#[derive(Debug)]
pub struct Program {
    pub statements: Vec<Statement>,
}

#[derive(Debug)]
pub enum Statement {
    /// `fn name(params) -> ret [effects]: body`
    FunctionDef {
        name: String,
        params: Vec<Parameter>,
        return_type: Option<TypeExpr>,
        effects: Vec<String>,
        body: Vec<Statement>,
        decorators: Vec<Decorator>,
        is_pub: bool,
        /// The `##` comment lines before the definition, joined by line feeds
        doc_comment: Option<String>,
    },
    /// `struct Name: fields`
    StructDef { name: String, fields: Vec<Field>, is_pub: bool, doc_comment: Option<String> },
    /// `enum Name: variants`
    EnumDef { name: String, variants: Vec<EnumVariant>, is_pub: bool, doc_comment: Option<String> },
    /// `trait Name: methods`
    TraitDef { name: String, methods: Vec<TraitMethod>, is_pub: bool, doc_comment: Option<String> },
    /// `impl [Trait for] Type: methods`
    ImplBlock { trait_name: Option<String>, target_type: String, methods: Vec<Statement> },
    /// `let [mut] name [: type] = value`
    LetBinding { name: String, type_annotation: Option<TypeExpr>, value: Expression, mutable: bool },
    /// `const name [: type] = value`
    ConstBinding { name: String, type_annotation: Option<TypeExpr>, value: Expression },
    /// `import path [.{items}]`
    Import { path: Vec<String>, items: Option<Vec<ImportItem>> },
    /// `import foreign("path", lang: "c")`
    ForeignImport { path: String, lang: String, items: Option<Vec<String>> },
    If {
        condition: Expression,
        body: Vec<Statement>,
        elif_clauses: Vec<(Expression, Vec<Statement>)>,
        else_body: Option<Vec<Statement>>,
    },
    ForLoop { variable: String, iterable: Expression, body: Vec<Statement> },
    WhileLoop { condition: Expression, body: Vec<Statement> },
    Match { subject: Expression, arms: Vec<MatchArm> },
    Return(Option<Expression>),
    Break,
    Continue,
    Expression(Expression),
    Assignment { target: Expression, value: Expression },
    /// `require condition`: a precondition of the enclosing function
    Require(Expression),
    /// `ensure condition`: a postcondition of the enclosing function
    Ensure(Expression),
}

#[derive(Debug)]
pub enum Expression {
    IntLiteral(i64),
    /// The literal's source text.
    FloatLiteral(String),
    StringLiteral(String),
    FString(Vec<FStringPart>),
    BoolLiteral(bool),
    NoneLiteral,
    Identifier(String),
    BinaryOp { left: Box<Expression>, op: BinaryOperator, right: Box<Expression> },
    UnaryOp { op: UnaryOperator, operand: Box<Expression> },
    Call { function: Box<Expression>, args: Vec<Expression> },
    MethodCall { object: Box<Expression>, method: String, args: Vec<Expression> },
    FieldAccess { object: Box<Expression>, field: String },
    Index { object: Box<Expression>, index: Box<Expression> },
    /// `left |> right`
    Pipe { left: Box<Expression>, right: Box<Expression> },
    /// `|params| body`
    Lambda { params: Vec<String>, body: Box<Expression> },
    List(Vec<Expression>),
    Dict(Vec<(Expression, Expression)>),
    StructInit { name: String, fields: Vec<(String, Expression)> },
    /// `value or ErrorType`
    ResultExpr { value: Box<Expression>, error_type: String },
    Await(Box<Expression>),
}

#[derive(Debug)]
pub struct Parameter {
    pub name: String,
    pub type_annotation: TypeExpr,
    pub default: Option<Expression>,
}

#[derive(Debug)]
pub struct Field {
    pub name: String,
    pub type_annotation: TypeExpr,
    pub default: Option<Expression>,
    pub is_pub: bool,
}

#[derive(Debug)]
pub struct EnumVariant {
    pub name: String,
    pub fields: Option<Vec<TypeExpr>>,
}

#[derive(Debug)]
pub struct TraitMethod {
    pub name: String,
    pub params: Vec<Parameter>,
    pub return_type: Option<TypeExpr>,
    pub default_body: Option<Vec<Statement>>,
}

#[derive(Debug)]
pub struct Decorator {
    pub name: String,
    pub args: Vec<Expression>,
}

#[derive(Debug)]
pub struct ImportItem {
    pub name: String,
    pub alias: Option<String>,
}

#[derive(Debug)]
pub struct MatchArm {
    pub pattern: Pattern,
    pub guard: Option<Expression>,
    pub body: Vec<Statement>,
}

#[derive(Debug)]
pub enum Pattern {
    Literal(Expression),
    Variable(String),
    Variant(String, Vec<Pattern>),
    Wildcard,
}

#[derive(Debug)]
pub enum TypeExpr {
    Named(String),
    Generic(String, Vec<TypeExpr>),
    Function(Vec<TypeExpr>, Box<TypeExpr>),
    Optional(Box<TypeExpr>),
    Result(Box<TypeExpr>, Box<TypeExpr>),
    Tuple(Vec<TypeExpr>),
}

#[derive(Debug)]
pub enum FStringPart {
    Literal(String),
    Expression(Expression),
}

#[derive(Debug, Clone, Copy, PartialEq, Eq, Structural)]
pub enum BinaryOperator {
    Add,
    Sub,
    Mul,
    Div,
    IntDiv,
    Mod,
    Power,
    Eq,
    NotEq,
    Lt,
    Gt,
    LtEq,
    GtEq,
    And,
    Or,
    In,
    Is,
}

#[derive(Debug, Clone, Copy, PartialEq, Eq, Structural)]
pub enum UnaryOperator {
    Neg,
    Not,
}

impl BinaryOperator {
    /// The operator's name, as debug output writes it.
    pub fn name(self) -> (r: &'static str)
        ensures
            r@ == binop_name(self),
    {
        proof {
            reveal_strlit("Add");
            reveal_strlit("Sub");
            reveal_strlit("Mul");
            reveal_strlit("Div");
            reveal_strlit("IntDiv");
            reveal_strlit("Mod");
            reveal_strlit("Power");
            reveal_strlit("Eq");
            reveal_strlit("NotEq");
            reveal_strlit("Lt");
            reveal_strlit("Gt");
            reveal_strlit("LtEq");
            reveal_strlit("GtEq");
            reveal_strlit("And");
            reveal_strlit("Or");
            reveal_strlit("In");
            reveal_strlit("Is");
        }
        match self {
            BinaryOperator::Add => "Add",
            BinaryOperator::Sub => "Sub",
            BinaryOperator::Mul => "Mul",
            BinaryOperator::Div => "Div",
            BinaryOperator::IntDiv => "IntDiv",
            BinaryOperator::Mod => "Mod",
            BinaryOperator::Power => "Power",
            BinaryOperator::Eq => "Eq",
            BinaryOperator::NotEq => "NotEq",
            BinaryOperator::Lt => "Lt",
            BinaryOperator::Gt => "Gt",
            BinaryOperator::LtEq => "LtEq",
            BinaryOperator::GtEq => "GtEq",
            BinaryOperator::And => "And",
            BinaryOperator::Or => "Or",
            BinaryOperator::In => "In",
            BinaryOperator::Is => "Is",
        }
    }
}

/// The name of a binary operator.
pub open spec fn binop_name(op: BinaryOperator) -> Seq<char> {
    match op {
        BinaryOperator::Add => "Add"@,
        BinaryOperator::Sub => "Sub"@,
        BinaryOperator::Mul => "Mul"@,
        BinaryOperator::Div => "Div"@,
        BinaryOperator::IntDiv => "IntDiv"@,
        BinaryOperator::Mod => "Mod"@,
        BinaryOperator::Power => "Power"@,
        BinaryOperator::Eq => "Eq"@,
        BinaryOperator::NotEq => "NotEq"@,
        BinaryOperator::Lt => "Lt"@,
        BinaryOperator::Gt => "Gt"@,
        BinaryOperator::LtEq => "LtEq"@,
        BinaryOperator::GtEq => "GtEq"@,
        BinaryOperator::And => "And"@,
        BinaryOperator::Or => "Or"@,
        BinaryOperator::In => "In"@,
        BinaryOperator::Is => "Is"@,
    }
}

} // verus!
