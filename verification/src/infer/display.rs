//! How types, effects and type errors are written in messages.
use vstd::prelude::*;
use crate::check::error::{decimal_string, decimal_text};
use crate::infer::error::{var_display, Located, TypeError};
use crate::infer::types::{effects_view, types_view, Effect, EffectM, Type, TypeM};

verus! {

broadcast use crate::infer::types::group_type_views;

/// How an effect is written.
pub open spec fn effect_text(e: EffectM) -> Seq<char> {
    match e {
        EffectM::IO => "io"@,
        EffectM::Error => "error"@,
        EffectM::Net => "net"@,
        EffectM::Custom(n) => n,
    }
}

/// Reading an effect's written name gives the effect back, unless it is a
/// custom effect named like a built-in one.
pub proof fn lemma_parse_effect_text(e: EffectM)
    requires
        !(e matches EffectM::Custom(n) && (n == "io"@ || n == "error"@ || n == "net"@)),
    ensures
        crate::infer::types::parse_effect(effect_text(e)) == e,
{
    reveal_strlit("io");
    reveal_strlit("error");
    reveal_strlit("net");
    assert("io"@ != "error"@ && "io"@ != "net"@ && "error"@ != "net"@) by {
        assert("io"@.len() != "error"@.len());
        assert("error"@.len() != "net"@.len());
        assert("io"@.len() != "net"@.len());
    }
}

/// Effects written one after another, separated by `, `.
pub open spec fn effects_text(es: Seq<EffectM>) -> Seq<char>
    decreases es.len(),
{
    if es.len() == 0 {
        Seq::empty()
    } else if es.len() == 1 {
        effect_text(es.last())
    } else {
        effects_text(es.drop_last()) + ", "@ + effect_text(es.last())
    }
}

/// How a type is written.
pub open spec fn type_text(t: TypeM) -> Seq<char>
    decreases t,
{
    match t {
        TypeM::Int => "int"@,
        TypeM::Float => "float"@,
        TypeM::Bool => "bool"@,
        TypeM::Str => "str"@,
        TypeM::Char => "char"@,
        TypeM::NoneT => "none"@,
        TypeM::List(i) => "list["@ + type_text(*i) + "]"@,
        TypeM::Dict(k, v) => "dict["@ + type_text(*k) + ", "@ + type_text(*v) + "]"@,
        TypeM::Tuple(ts) => "("@ + types_text(ts) + ")"@,
        TypeM::Optional(i) => type_text(*i) + "?"@,
        TypeM::Result(o, e) => type_text(*o) + " or "@ + type_text(*e),
        TypeM::Function(ps, r, es) => "("@ + types_text(ps) + ") -> "@ + type_text(*r) + if es.len()
            == 0 {
            Seq::empty()
        } else {
            " ["@ + effects_text(es) + "]"@
        },
        TypeM::Struct(s) => s.name,
        TypeM::Enum(e) => e.name,
        TypeM::Named(n) => n,
        TypeM::Var(id) => var_display(id),
        TypeM::Never => "never"@,
        TypeM::Error => "<error>"@,
    }
}

/// Types written one after another, separated by `, `.
pub open spec fn types_text(ts: Seq<TypeM>) -> Seq<char>
    decreases ts,
{
    if ts.len() == 0 {
        Seq::empty()
    } else if ts.len() == 1 {
        type_text(ts.last())
    } else {
        types_text(ts.drop_last()) + ", "@ + type_text(ts.last())
    }
}

impl Effect {
    /// The effect as it is written in a signature.
    pub fn display(&self) -> (r: String)
        ensures
            r@ == effect_text(self@),
    {
        match self {
            Effect::IO => String::from_str("io"),
            Effect::Error => String::from_str("error"),
            Effect::Net => String::from_str("net"),
            Effect::Custom(name) => name.clone(),
        }
    }
}

/// Effects as written in a signature, separated by `, `.
pub fn effects_display(es: &Vec<Effect>) -> (r: String)
    ensures
        r@ == effects_text(effects_view(es@)),
{
    let ghost v = effects_view(es@);
    assert(v.len() == es@.len());
    let mut s = String::new();
    let mut i: usize = 0;
    while i < es.len()
        invariant
            i <= es@.len(),
            v == effects_view(es@),
            v.len() == es@.len(),
            forall|j: int| 0 <= j < es@.len() ==> #[trigger] v[j] == es@[j]@,
            s@ == effects_text(v.take(i as int)),
        decreases es@.len() - i,
    {
        if i > 0 {
            s.append(", ");
        }
        let e = es[i].display();
        s.append(e.as_str());
        proof {
            let p = v.take(i as int + 1);
            assert(p.drop_last() =~= v.take(i as int));
            assert(p.last() == v[i as int]);
        }
        i = i + 1;
    }
    assert(v.take(i as int) =~= v);
    s
}

/// Types as written in messages, separated by `, `.
pub fn types_display(ts: &Vec<Type>) -> (r: String)
    ensures
        r@ == types_text(types_view(ts@)),
    decreases ts,
{
    proof {
        crate::infer::types::lemma_types_view(ts@);
    }
    let ghost v = types_view(ts@);
    let mut s = String::new();
    let mut i: usize = 0;
    while i < ts.len()
        invariant
            i <= ts@.len(),
            v == types_view(ts@),
            v.len() == ts@.len(),
            forall|j: int| 0 <= j < ts@.len() ==> #[trigger] v[j] == ts@[j]@,
            s@ == types_text(v.take(i as int)),
        decreases ts@.len() - i,
    {
        assert(decreases_to!(ts => ts@[i as int]));
        if i > 0 {
            s.append(", ");
        }
        let t = ts[i].display();
        s.append(t.as_str());
        proof {
            let p = v.take(i as int + 1);
            assert(p.drop_last() =~= v.take(i as int));
            assert(p.last() == v[i as int]);
        }
        i = i + 1;
    }
    assert(v.take(i as int) =~= v);
    s
}

impl Type {
    /// The type as it is written in messages.
    pub fn display(&self) -> (r: String)
        ensures
            r@ == type_text(self@),
        decreases self,
    {
        match self {
            Type::Int => String::from_str("int"),
            Type::Float => String::from_str("float"),
            Type::Bool => String::from_str("bool"),
            Type::Str => String::from_str("str"),
            Type::Char => String::from_str("char"),
            Type::NoneType => String::from_str("none"),
            Type::List(t) => {
                let mut s = String::from_str("list[");
                s.append(t.display().as_str());
                s.append("]");
                s
            },
            Type::Dict(k, v) => {
                let mut s = String::from_str("dict[");
                s.append(k.display().as_str());
                s.append(", ");
                s.append(v.display().as_str());
                s.append("]");
                s
            },
            Type::Tuple(ts) => {
                let mut s = String::from_str("(");
                s.append(types_display(ts).as_str());
                s.append(")");
                s
            },
            Type::Optional(t) => {
                let mut s = t.display();
                s.append("?");
                s
            },
            Type::Result(t, e) => {
                let mut s = t.display();
                s.append(" or ");
                s.append(e.display().as_str());
                s
            },
            Type::Function { params, return_type, effects } => {
                let mut s = String::from_str("(");
                s.append(types_display(params).as_str());
                s.append(") -> ");
                s.append(return_type.display().as_str());
                if effects.len() > 0 {
                    s.append(" [");
                    s.append(effects_display(effects).as_str());
                    s.append("]");
                }
                s
            },
            Type::Struct(st) => st.name.clone(),
            Type::Enum(e) => e.name.clone(),
            Type::Named(n) => n.clone(),
            Type::Var(id) => crate::infer::error::var_name(*id),
            Type::Never => String::from_str("never"),
            Type::Error => String::from_str("<error>"),
        }
    }
}

/// `s` between backquotes.
pub open spec fn q(s: Seq<char>) -> Seq<char> {
    "`"@ + s + "`"@
}

/// The message of a type error.
pub open spec fn error_text(e: TypeError) -> Seq<char> {
    match e {
        TypeError::Mismatch { expected, found } => "type mismatch: expected "@ + q(type_text(expected@))
            + ", found "@ + q(type_text(found@)),
        TypeError::UndefinedVariable { name } => "undefined variable "@ + q(name@),
        TypeError::UndefinedFunction { name } => "undefined function "@ + q(name@),
        TypeError::UndefinedType { name } => "undefined type "@ + q(name@),
        TypeError::ImmutableAssignment { name } => "cannot assign to immutable variable "@ + q(name@),
        TypeError::AlreadyDefined { name } => q(name@) + " is already defined in this scope"@,
        TypeError::ArityMismatch { name, expected, found } => "function "@ + q(name@) + " expects "@
            + decimal_text(expected as nat) + " arguments, got "@ + decimal_text(found as nat),
        TypeError::NotCallable { ty } => "cannot call non-function type "@ + q(type_text(ty@)),
        TypeError::NoSuchField { ty, field } => "type "@ + q(type_text(ty@)) + " has no field "@ + q(
            field@,
        ),
        TypeError::NoSuchMethod { ty, method } => "type "@ + q(type_text(ty@)) + " has no method "@
            + q(method@),
        TypeError::NotIndexable { ty } => "cannot index into type "@ + q(type_text(ty@)),
        TypeError::NonBoolCondition { found } => "condition must be `bool`, found "@ + q(
            type_text(found@),
        ),
        TypeError::InvalidOperator { op, left, right } => "cannot use operator "@ + q(op@)
            + " with types "@ + q(type_text(left@)) + " and "@ + q(type_text(right@)),
        TypeError::InvalidNegation { ty } => "cannot negate type "@ + q(type_text(ty@)),
        TypeError::PurityViolation { name } => "pure function "@ + q(name@)
            + " cannot have side effects"@,
        TypeError::UndeclaredEffect { effect } => "effect "@ + q(effect_text(effect@))
            + " not declared \u{2014} add `["@ + effect_text(effect@) + "]` to function signature"@,
        TypeError::ReturnTypeMismatch { name, expected, found } => "return type mismatch in "@ + q(
            name@,
        ) + ": expected "@ + q(type_text(expected@)) + ", found "@ + q(type_text(found@)),
        TypeError::MissingReturn { expected } => "missing return value \u{2014} function expects "@
            + q(type_text(expected@)),
        TypeError::BreakOutsideLoop => "cannot use `break` outside of a loop"@,
        TypeError::ContinueOutsideLoop => "cannot use `continue` outside of a loop"@,
        TypeError::CannotInfer => "cannot infer type \u{2014} add a type annotation"@,
        TypeError::InfiniteType { var, ty } => "infinite type detected: "@ + q(var@) + " occurs in "@
            + q(type_text(ty@)),
        TypeError::DuplicateField { struct_name, field } => "duplicate field "@ + q(field@)
            + " in struct "@ + q(struct_name@),
        TypeError::MissingField { struct_name, field } => "missing field "@ + q(field@)
            + " in struct "@ + q(struct_name@),
        TypeError::NonExhaustiveMatch => "match is not exhaustive \u{2014} missing patterns"@,
    }
}

/// Append `s` between backquotes.
fn push_q(out: &mut String, s: &str)
    ensures
        final(out)@ == old(out)@ + q(s@),
{
    out.append("`");
    out.append(s);
    out.append("`");
}

impl TypeError {
    /// The one-line message of the error.
    pub fn message(&self) -> (r: String)
        ensures
            r@ == error_text(*self),
    {
        let mut s = String::new();
        match self {
            TypeError::Mismatch { expected, found } => {
                s.append("type mismatch: expected ");
                push_q(&mut s, expected.display().as_str());
                s.append(", found ");
                push_q(&mut s, found.display().as_str());
            },
            TypeError::UndefinedVariable { name } => {
                s.append("undefined variable ");
                push_q(&mut s, name.as_str());
            },
            TypeError::UndefinedFunction { name } => {
                s.append("undefined function ");
                push_q(&mut s, name.as_str());
            },
            TypeError::UndefinedType { name } => {
                s.append("undefined type ");
                push_q(&mut s, name.as_str());
            },
            TypeError::ImmutableAssignment { name } => {
                s.append("cannot assign to immutable variable ");
                push_q(&mut s, name.as_str());
            },
            TypeError::AlreadyDefined { name } => {
                push_q(&mut s, name.as_str());
                s.append(" is already defined in this scope");
            },
            TypeError::ArityMismatch { name, expected, found } => {
                s.append("function ");
                push_q(&mut s, name.as_str());
                s.append(" expects ");
                s.append(decimal_string(*expected).as_str());
                s.append(" arguments, got ");
                s.append(decimal_string(*found).as_str());
            },
            TypeError::NotCallable { ty } => {
                s.append("cannot call non-function type ");
                push_q(&mut s, ty.display().as_str());
            },
            TypeError::NoSuchField { ty, field } => {
                s.append("type ");
                push_q(&mut s, ty.display().as_str());
                s.append(" has no field ");
                push_q(&mut s, field.as_str());
            },
            TypeError::NoSuchMethod { ty, method } => {
                s.append("type ");
                push_q(&mut s, ty.display().as_str());
                s.append(" has no method ");
                push_q(&mut s, method.as_str());
            },
            TypeError::NotIndexable { ty } => {
                s.append("cannot index into type ");
                push_q(&mut s, ty.display().as_str());
            },
            TypeError::NonBoolCondition { found } => {
                s.append("condition must be `bool`, found ");
                push_q(&mut s, found.display().as_str());
            },
            TypeError::InvalidOperator { op, left, right } => {
                s.append("cannot use operator ");
                push_q(&mut s, op.as_str());
                s.append(" with types ");
                push_q(&mut s, left.display().as_str());
                s.append(" and ");
                push_q(&mut s, right.display().as_str());
            },
            TypeError::InvalidNegation { ty } => {
                s.append("cannot negate type ");
                push_q(&mut s, ty.display().as_str());
            },
            TypeError::PurityViolation { name } => {
                s.append("pure function ");
                push_q(&mut s, name.as_str());
                s.append(" cannot have side effects");
            },
            TypeError::UndeclaredEffect { effect } => {
                let e = effect.display();
                s.append("effect ");
                push_q(&mut s, e.as_str());
                s.append(" not declared \u{2014} add `[");
                s.append(e.as_str());
                s.append("]` to function signature");
            },
            TypeError::ReturnTypeMismatch { name, expected, found } => {
                s.append("return type mismatch in ");
                push_q(&mut s, name.as_str());
                s.append(": expected ");
                push_q(&mut s, expected.display().as_str());
                s.append(", found ");
                push_q(&mut s, found.display().as_str());
            },
            TypeError::MissingReturn { expected } => {
                s.append("missing return value \u{2014} function expects ");
                push_q(&mut s, expected.display().as_str());
            },
            TypeError::BreakOutsideLoop => {
                s.append("cannot use `break` outside of a loop");
            },
            TypeError::ContinueOutsideLoop => {
                s.append("cannot use `continue` outside of a loop");
            },
            TypeError::CannotInfer => {
                s.append("cannot infer type \u{2014} add a type annotation");
            },
            TypeError::InfiniteType { var, ty } => {
                s.append("infinite type detected: ");
                push_q(&mut s, var.as_str());
                s.append(" occurs in ");
                push_q(&mut s, ty.display().as_str());
            },
            TypeError::DuplicateField { struct_name, field } => {
                s.append("duplicate field ");
                push_q(&mut s, field.as_str());
                s.append(" in struct ");
                push_q(&mut s, struct_name.as_str());
            },
            TypeError::MissingField { struct_name, field } => {
                s.append("missing field ");
                push_q(&mut s, field.as_str());
                s.append(" in struct ");
                push_q(&mut s, struct_name.as_str());
            },
            TypeError::NonExhaustiveMatch => {
                s.append("match is not exhaustive \u{2014} missing patterns");
            },
        }
        assert(s@ =~= error_text(*self));
        s
    }
}

impl Located<TypeError> {
    /// `line N: message`, the line counted from one.
    pub fn message(&self) -> (r: String)
        requires
            self.line < usize::MAX,
        ensures
            r@ == "line "@ + decimal_text(self.line as nat + 1) + ": "@ + error_text(self.inner),
    {
        let mut s = String::from_str("line ");
        s.append(decimal_string(self.line + 1).as_str());
        s.append(": ");
        s.append(self.inner.message().as_str());
        s
    }
}

} // verus!
