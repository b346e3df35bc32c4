//! The types of Nova's checked surface language, and which of them fit where.
use vstd::prelude::*;
use crate::syntax::ast::TypeExpr;

verus! {

broadcast use vstd::std_specs::vec::group_vec_axioms;

/// The complete set of types in Nova's type system.
#[derive(Debug, PartialEq)]
pub enum Type {
    // ── Integer types ──
    I8,
    I16,
    I32,
    I64,
    U8,
    U16,
    U32,
    U64,
    // ── Float types ──
    F32,
    F64,
    // ── Primitive types ──
    Bool,
    Str,
    Void,
    // ── Compound types ──
    /// `[]T`: a homogeneous array of `T`
    Array(Box<Type>),
    /// A callable: parameters and return type.
    Function { params: Vec<Type>, ret: Box<Type> },
    // ── Inference helpers ──
    /// An unresolved integer literal (`42`). Compatible with any integer
    /// type; defaults to `i64` when forced to resolve.
    IntLiteral,
    /// An unresolved float literal (`2.5`). Compatible with any float type;
    /// defaults to `f64` when forced to resolve.
    FloatLiteral,
    /// Type is not yet known (e.g. empty array `[]`, or pending inference).
    /// Compatible with everything; prevents cascading errors.
    Unknown,
    /// A type error occurred. Compatible with everything to stop error storms.
    Error,
    /// The type of `return`, `break`, `continue`: never produces a value.
    Never,
}

/// The value of a `Type`: the same tree with sequences in place of vectors.
pub enum TyM {
    I8,
    I16,
    I32,
    I64,
    U8,
    U16,
    U32,
    U64,
    F32,
    F64,
    Bool,
    Str,
    Void,
    Array(Box<TyM>),
    Function(Seq<TyM>, Box<TyM>),
    IntLiteral,
    FloatLiteral,
    Unknown,
    Error,
    Never,
}

/// The value of a type.
pub open spec fn ty_model(t: &Type) -> TyM
    decreases t,
{
    match t {
        Type::I8 => TyM::I8,
        Type::I16 => TyM::I16,
        Type::I32 => TyM::I32,
        Type::I64 => TyM::I64,
        Type::U8 => TyM::U8,
        Type::U16 => TyM::U16,
        Type::U32 => TyM::U32,
        Type::U64 => TyM::U64,
        Type::F32 => TyM::F32,
        Type::F64 => TyM::F64,
        Type::Bool => TyM::Bool,
        Type::Str => TyM::Str,
        Type::Void => TyM::Void,
        Type::Array(t) => TyM::Array(Box::new(ty_model(&**t))),
        Type::Function { params, ret } => TyM::Function(tys_view(params@), Box::new(ty_model(&**ret))),
        Type::IntLiteral => TyM::IntLiteral,
        Type::FloatLiteral => TyM::FloatLiteral,
        Type::Unknown => TyM::Unknown,
        Type::Error => TyM::Error,
        Type::Never => TyM::Never,
    }
}

/// The values of a vector of types.
pub open spec fn tys_view(ts: Seq<Type>) -> Seq<TyM>
    decreases ts,
{
    if ts.len() == 0 {
        Seq::empty()
    } else {
        tys_view(ts.drop_last()).push(ty_model(&ts.last()))
    }
}

impl View for Type {
    type V = TyM;

    open spec fn view(&self) -> TyM {
        ty_model(self)
    }
}

/// Length and elements of the view of a vector of types.
pub broadcast proof fn lemma_tys_view(ts: Seq<Type>)
    ensures
        #[trigger] tys_view(ts).len() == ts.len(),
        forall|i: int| 0 <= i < ts.len() ==> #[trigger] tys_view(ts)[i] == ts[i]@,
    decreases ts.len(),
{
    if ts.len() > 0 {
        lemma_tys_view(ts.drop_last());
        assert forall|i: int| 0 <= i < ts.len() implies #[trigger] tys_view(ts)[i] == ts[i]@ by {
            if i < ts.len() - 1 {
                assert(ts.drop_last()[i] == ts[i]);
            }
        }
    }
}

/// Any integer type, including an unresolved integer literal.
pub open spec fn is_integer_m(t: TyM) -> bool {
    t is I8 || t is I16 || t is I32 || t is I64 || t is U8 || t is U16 || t is U32 || t is U64
        || t is IntLiteral
}

/// Any float type, including an unresolved float literal.
pub open spec fn is_float_m(t: TyM) -> bool {
    t is F32 || t is F64 || t is FloatLiteral
}

/// `Error` and `Unknown`: types that suppress further errors.
pub open spec fn is_poisoned_m(t: TyM) -> bool {
    t is Error || t is Unknown
}

/// A literal type resolved to its default: `i64` for integers, `f64` for
/// floats; any other type is itself.
pub open spec fn default_of(t: TyM) -> TyM {
    match t {
        TyM::IntLiteral => TyM::I64,
        TyM::FloatLiteral => TyM::F64,
        other => other,
    }
}

/// Two types are compatible if they are equal, or either side is `Error` or
/// `Unknown` (error recovery), or an integer literal meets an integer type,
/// or a float literal meets a float type. There is no implicit numeric
/// widening: `i32` and `i64` are not compatible.
pub open spec fn compatible(expected: TyM, found: TyM) -> bool {
    ||| is_poisoned_m(expected)
    ||| is_poisoned_m(found)
    ||| expected == found
    ||| (found is IntLiteral && is_integer_m(expected))
    ||| (expected is IntLiteral && is_integer_m(found))
    ||| (found is FloatLiteral && is_float_m(expected))
    ||| (expected is FloatLiteral && is_float_m(found))
}

/// The type that a type annotation denotes: a primitive type name denotes
/// that type, an array annotation an array; any other name (a user type)
/// and an optional annotation are not yet known.
pub open spec fn annotation_type(te: TypeExpr) -> TyM
    decreases te,
{
    match te {
        TypeExpr::Named(name, _) => primitive_named(name@),
        TypeExpr::Array(inner, _) => TyM::Array(Box::new(annotation_type(*inner))),
        TypeExpr::Optional(_, _) => TyM::Unknown,
    }
}

/// The primitive type with name `n`, or `Unknown`.
pub open spec fn primitive_named(n: Seq<char>) -> TyM {
    if n == "i8"@ {
        TyM::I8
    } else if n == "i16"@ {
        TyM::I16
    } else if n == "i32"@ {
        TyM::I32
    } else if n == "i64"@ {
        TyM::I64
    } else if n == "u8"@ {
        TyM::U8
    } else if n == "u16"@ {
        TyM::U16
    } else if n == "u32"@ {
        TyM::U32
    } else if n == "u64"@ {
        TyM::U64
    } else if n == "f32"@ {
        TyM::F32
    } else if n == "f64"@ {
        TyM::F64
    } else if n == "bool"@ {
        TyM::Bool
    } else if n == "str"@ {
        TyM::Str
    } else if n == "void"@ {
        TyM::Void
    } else {
        TyM::Unknown
    }
}

/// Whether `s` spells the literal `lit`.
pub fn spells(s: &String, lit: &str) -> (r: bool)
    ensures
        r == (s@ == lit@),
{
    *s == lit.to_owned()
}

impl Type {
    /// Resolve an `IntLiteral` to its default concrete type (`i64`) and a
    /// `FloatLiteral` to its default (`f64`); all other types are returned
    /// as they are.
    pub fn resolve_default(self) -> (r: Type)
        ensures
            r@ == default_of(self@),
    {
        match self {
            Type::IntLiteral => Type::I64,
            Type::FloatLiteral => Type::F64,
            other => other,
        }
    }

    /// Whether this type is any integer variant (including `IntLiteral`).
    pub fn is_integer(&self) -> (r: bool)
        ensures
            r == is_integer_m(self@),
    {
        matches!(
            self,
            Type::I8 | Type::I16 | Type::I32 | Type::I64 | Type::U8 | Type::U16 | Type::U32 | Type::U64
                | Type::IntLiteral
        )
    }

    /// Whether this type is any float variant (including `FloatLiteral`).
    pub fn is_float(&self) -> (r: bool)
        ensures
            r == is_float_m(self@),
    {
        matches!(self, Type::F32 | Type::F64 | Type::FloatLiteral)
    }

    /// Whether this type is numeric (integer or float).
    pub fn is_numeric(&self) -> (r: bool)
        ensures
            r == (is_integer_m(self@) || is_float_m(self@)),
    {
        self.is_integer() || self.is_float()
    }

    /// `true` for `Error` and `Unknown`: these suppress further errors.
    pub fn is_poisoned(&self) -> (r: bool)
        ensures
            r == is_poisoned_m(self@),
    {
        matches!(self, Type::Error | Type::Unknown)
    }

    /// An equal copy of this type.
    pub fn duplicate(&self) -> (r: Type)
        ensures
            r@ == self@,
        decreases self,
    {
        match self {
            Type::I8 => Type::I8,
            Type::I16 => Type::I16,
            Type::I32 => Type::I32,
            Type::I64 => Type::I64,
            Type::U8 => Type::U8,
            Type::U16 => Type::U16,
            Type::U32 => Type::U32,
            Type::U64 => Type::U64,
            Type::F32 => Type::F32,
            Type::F64 => Type::F64,
            Type::Bool => Type::Bool,
            Type::Str => Type::Str,
            Type::Void => Type::Void,
            Type::Array(t) => Type::Array(Box::new(t.duplicate())),
            Type::Function { params, ret } => {
                let ps = duplicate_tys(params);
                let r = ret.duplicate();
                Type::Function { params: ps, ret: Box::new(r) }
            },
            Type::IntLiteral => Type::IntLiteral,
            Type::FloatLiteral => Type::FloatLiteral,
            Type::Unknown => Type::Unknown,
            Type::Error => Type::Error,
            Type::Never => Type::Never,
        }
    }

    /// Whether two types are the same.
    pub fn same_as(&self, other: &Type) -> (r: bool)
        ensures
            r == (self@ == other@),
        decreases self,
    {
        match (self, other) {
            (Type::I8, Type::I8) => true,
            (Type::I16, Type::I16) => true,
            (Type::I32, Type::I32) => true,
            (Type::I64, Type::I64) => true,
            (Type::U8, Type::U8) => true,
            (Type::U16, Type::U16) => true,
            (Type::U32, Type::U32) => true,
            (Type::U64, Type::U64) => true,
            (Type::F32, Type::F32) => true,
            (Type::F64, Type::F64) => true,
            (Type::Bool, Type::Bool) => true,
            (Type::Str, Type::Str) => true,
            (Type::Void, Type::Void) => true,
            (Type::Array(a), Type::Array(b)) => a.same_as(b),
            (Type::Function { params: ap, ret: ar }, Type::Function { params: bp, ret: br }) => {
                same_tys(ap, bp) && ar.same_as(br)
            },
            (Type::IntLiteral, Type::IntLiteral) => true,
            (Type::FloatLiteral, Type::FloatLiteral) => true,
            (Type::Unknown, Type::Unknown) => true,
            (Type::Error, Type::Error) => true,
            (Type::Never, Type::Never) => true,
            _ => false,
        }
    }
}

/// An equal copy of a vector of types.
pub fn duplicate_tys(ts: &Vec<Type>) -> (r: Vec<Type>)
    ensures
        tys_view(r@) == tys_view(ts@),
    decreases ts,
{
    let mut r: Vec<Type> = Vec::new();
    let mut i: usize = 0;
    while i < ts.len()
        invariant
            i <= ts@.len(),
            r@.len() == i,
            forall|j: int| 0 <= j < i ==> #[trigger] r@[j]@ == ts@[j]@,
        decreases ts@.len() - i,
    {
        assert(decreases_to!(ts => ts@[i as int]));
        r.push(ts[i].duplicate());
        i = i + 1;
    }
    proof {
        lemma_tys_view(r@);
        lemma_tys_view(ts@);
        assert(tys_view(r@) =~= tys_view(ts@));
    }
    r
}

/// Whether two vectors of types have the same values.
pub fn same_tys(a: &Vec<Type>, b: &Vec<Type>) -> (r: bool)
    ensures
        r == (tys_view(a@) == tys_view(b@)),
    decreases a,
{
    proof {
        lemma_tys_view(a@);
        lemma_tys_view(b@);
    }
    if a.len() != b.len() {
        return false;
    }
    let mut i: usize = 0;
    while i < a.len()
        invariant
            i <= a@.len(),
            a@.len() == b@.len(),
            tys_view(a@).len() == a@.len(),
            tys_view(b@).len() == b@.len(),
            forall|j: int| 0 <= j < a@.len() ==> #[trigger] tys_view(a@)[j] == a@[j]@,
            forall|j: int| 0 <= j < b@.len() ==> #[trigger] tys_view(b@)[j] == b@[j]@,
            forall|j: int| 0 <= j < i ==> #[trigger] a@[j]@ == b@[j]@,
        decreases a@.len() - i,
    {
        assert(decreases_to!(a => a@[i as int]));
        if !a[i].same_as(&b[i]) {
            assert(tys_view(a@)[i as int] != tys_view(b@)[i as int]);
            return false;
        }
        i = i + 1;
    }
    assert(tys_view(a@) =~= tys_view(b@));
    true
}

/// Whether a value of type `found` fits where `expected` is wanted.
pub fn types_compatible(expected: &Type, found: &Type) -> (r: bool)
    ensures
        r == compatible(expected@, found@),
{
    // Error / Unknown on either side: skip the check.
    if expected.is_poisoned() || found.is_poisoned() {
        return true;
    }
    // Exact structural equality.
    if expected.same_as(found) {
        return true;
    }
    // Integer literal with any concrete integer type.
    if matches!(found, Type::IntLiteral) && expected.is_integer() {
        return true;
    }
    if matches!(expected, Type::IntLiteral) && found.is_integer() {
        return true;
    }
    // Float literal with any concrete float type.
    if matches!(found, Type::FloatLiteral) && expected.is_float() {
        return true;
    }
    if matches!(expected, Type::FloatLiteral) && found.is_float() {
        return true;
    }
    false
}

/// Convert a type annotation from the syntax tree into a `Type`.
pub fn type_expr_to_type(te: &TypeExpr) -> (r: Type)
    ensures
        r@ == annotation_type(*te),
    decreases te,
{
    match te {
        TypeExpr::Named(name, _) => {
            proof {
                reveal_strlit("i8");
                reveal_strlit("i16");
                reveal_strlit("i32");
                reveal_strlit("i64");
                reveal_strlit("u8");
                reveal_strlit("u16");
                reveal_strlit("u32");
                reveal_strlit("u64");
                reveal_strlit("f32");
                reveal_strlit("f64");
                reveal_strlit("bool");
                reveal_strlit("str");
                reveal_strlit("void");
            }
            if spells(name, "i8") {
                Type::I8
            } else if spells(name, "i16") {
                Type::I16
            } else if spells(name, "i32") {
                Type::I32
            } else if spells(name, "i64") {
                Type::I64
            } else if spells(name, "u8") {
                Type::U8
            } else if spells(name, "u16") {
                Type::U16
            } else if spells(name, "u32") {
                Type::U32
            } else if spells(name, "u64") {
                Type::U64
            } else if spells(name, "f32") {
                Type::F32
            } else if spells(name, "f64") {
                Type::F64
            } else if spells(name, "bool") {
                Type::Bool
            } else if spells(name, "str") {
                Type::Str
            } else if spells(name, "void") {
                Type::Void
            } else {
                // user-defined struct types are not resolved yet
                Type::Unknown
            }
        },
        TypeExpr::Array(inner, _) => Type::Array(Box::new(type_expr_to_type(inner))),
        TypeExpr::Optional(inner, _) => {
            // optional types are not modelled yet
            let _ = type_expr_to_type(inner);
            Type::Unknown
        },
    }
}

/// How a type is written in messages.
pub open spec fn ty_text(t: TyM) -> Seq<char>
    decreases t,
{
    match t {
        TyM::I8 => "i8"@,
        TyM::I16 => "i16"@,
        TyM::I32 => "i32"@,
        TyM::I64 => "i64"@,
        TyM::U8 => "u8"@,
        TyM::U16 => "u16"@,
        TyM::U32 => "u32"@,
        TyM::U64 => "u64"@,
        TyM::F32 => "f32"@,
        TyM::F64 => "f64"@,
        TyM::Bool => "bool"@,
        TyM::Str => "str"@,
        TyM::Void => "void"@,
        TyM::Array(inner) => "[]"@ + ty_text(*inner),
        TyM::Function(ps, r) => "fn("@ + list_text(ps) + ") -> "@ + ty_text(*r),
        TyM::IntLiteral => "{integer}"@,
        TyM::FloatLiteral => "{float}"@,
        TyM::Unknown => "{unknown}"@,
        TyM::Error => "{error}"@,
        TyM::Never => "!"@,
    }
}

/// Types written one after another, separated by `, `.
pub open spec fn list_text(ts: Seq<TyM>) -> Seq<char>
    decreases ts,
{
    if ts.len() == 0 {
        Seq::empty()
    } else if ts.len() == 1 {
        ty_text(ts.last())
    } else {
        list_text(ts.drop_last()) + ", "@ + ty_text(ts.last())
    }
}

impl Type {
    /// The type as it is written in messages.
    pub fn display(&self) -> (r: String)
        ensures
            r@ == ty_text(self@),
        decreases self,
    {
        proof {
            reveal_strlit("i8");
            reveal_strlit("i16");
            reveal_strlit("i32");
            reveal_strlit("i64");
            reveal_strlit("u8");
            reveal_strlit("u16");
            reveal_strlit("u32");
            reveal_strlit("u64");
            reveal_strlit("f32");
            reveal_strlit("f64");
            reveal_strlit("bool");
            reveal_strlit("str");
            reveal_strlit("void");
            reveal_strlit("[]");
            reveal_strlit("fn(");
            reveal_strlit(") -> ");
            reveal_strlit("{integer}");
            reveal_strlit("{float}");
            reveal_strlit("{unknown}");
            reveal_strlit("{error}");
            reveal_strlit("!");
        }
        match self {
            Type::I8 => String::from_str("i8"),
            Type::I16 => String::from_str("i16"),
            Type::I32 => String::from_str("i32"),
            Type::I64 => String::from_str("i64"),
            Type::U8 => String::from_str("u8"),
            Type::U16 => String::from_str("u16"),
            Type::U32 => String::from_str("u32"),
            Type::U64 => String::from_str("u64"),
            Type::F32 => String::from_str("f32"),
            Type::F64 => String::from_str("f64"),
            Type::Bool => String::from_str("bool"),
            Type::Str => String::from_str("str"),
            Type::Void => String::from_str("void"),
            Type::Array(inner) => {
                let mut s = String::from_str("[]");
                let t = inner.display();
                s.append(t.as_str());
                s
            },
            Type::Function { params, ret } => {
                let mut s = String::from_str("fn(");
                let ps = list_display(params);
                s.append(ps.as_str());
                s.append(") -> ");
                let r = ret.display();
                s.append(r.as_str());
                s
            },
            Type::IntLiteral => String::from_str("{integer}"),
            Type::FloatLiteral => String::from_str("{float}"),
            Type::Unknown => String::from_str("{unknown}"),
            Type::Error => String::from_str("{error}"),
            Type::Never => String::from_str("!"),
        }
    }
}

/// Types as written in messages, separated by `, `.
pub fn list_display(ts: &Vec<Type>) -> (r: String)
    ensures
        r@ == list_text(tys_view(ts@)),
    decreases ts,
{
    proof {
        lemma_tys_view(ts@);
        reveal_strlit(", ");
    }
    let ghost v = tys_view(ts@);
    let mut s = String::new();
    let mut i: usize = 0;
    while i < ts.len()
        invariant
            i <= ts@.len(),
            v == tys_view(ts@),
            v.len() == ts@.len(),
            forall|j: int| 0 <= j < ts@.len() ==> #[trigger] v[j] == ts@[j]@,
            s@ == list_text(v.take(i as int)),
        decreases ts@.len() - i,
    {
        assert(decreases_to!(ts => ts@[i as int]));
        if i > 0 {
            s.append(", ");
        }
        let t = ts[i].display();
        s.append(t.as_str());
        proof {
            let p = v.take(i as int + 1);
            assert(p.drop_last() =~= v.take(i as int));
            assert(p.last() == v[i as int]);
            if i == 0 {
                assert(v.take(0).len() == 0);
            }
        }
        i = i + 1;
    }
    assert(v.take(i as int) =~= v);
    s
}

/// Compatibility is symmetric: `types_compatible(a, b) == types_compatible(b, a)`.
pub proof fn lemma_compatible_symmetric(a: TyM, b: TyM)
    ensures
        compatible(a, b) == compatible(b, a),
{
}

/// Every type is compatible with itself.
pub proof fn lemma_compatible_reflexive(a: TyM)
    ensures
        compatible(a, a),
{
}

/// Resolving a literal type to its default keeps it compatible with the
/// literal.
pub proof fn lemma_default_compatible(a: TyM)
    ensures
        compatible(a, default_of(a)),
        default_of(default_of(a)) == default_of(a),
{
}

} // verus!
