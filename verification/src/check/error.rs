//! The errors that the checker reports, and their one-line messages.
use vstd::prelude::*;
use crate::check::types::{Type, TyM, ty_text};
use crate::syntax::span::Span;

verus! {

/// A type error produced by the checker.
#[derive(Debug)]
pub enum TypeError {
    /// A name was used but not defined in any visible scope.
    Undefined { name: String, span: Span },
    /// An expression had the wrong type for its context.
    Mismatch { expected: Type, found: Type, span: Span },
    /// A binary operator was applied to incompatible types.
    BinOpMismatch { op: &'static str, lty: Type, rty: Type, span: Span },
    /// A unary operator was applied to an incompatible type.
    InvalidUnary { op: &'static str, ty: Type, span: Span },
    /// A function was called with the wrong number of arguments.
    ArgCount { expected: usize, found: usize, span: Span },
    /// An expression that is not a function was called.
    NotCallable { ty: Type, span: Span },
    /// An expression that is not an array or string was indexed.
    NotIndexable { ty: Type, span: Span },
    /// A `for ... in` loop iterated over a non-iterable type.
    NotIterable { ty: Type, span: Span },
    /// An assignment to an immutable `let` binding.
    ImmutableAssign { name: String, span: Span },
}

/// A type error as a value.
pub enum TypeErrorM {
    Undefined(Seq<char>, Span),
    Mismatch(TyM, TyM, Span),
    BinOpMismatch(Seq<char>, TyM, TyM, Span),
    InvalidUnary(Seq<char>, TyM, Span),
    ArgCount(nat, nat, Span),
    NotCallable(TyM, Span),
    NotIndexable(TyM, Span),
    NotIterable(TyM, Span),
    ImmutableAssign(Seq<char>, Span),
}

impl View for TypeError {
    type V = TypeErrorM;

    open spec fn view(&self) -> TypeErrorM {
        match self {
            TypeError::Undefined { name, span } => TypeErrorM::Undefined(name@, *span),
            TypeError::Mismatch { expected, found, span } => TypeErrorM::Mismatch(expected@, found@, *span),
            TypeError::BinOpMismatch { op, lty, rty, span } => TypeErrorM::BinOpMismatch(
                op@,
                lty@,
                rty@,
                *span,
            ),
            TypeError::InvalidUnary { op, ty, span } => TypeErrorM::InvalidUnary(op@, ty@, *span),
            TypeError::ArgCount { expected, found, span } => TypeErrorM::ArgCount(
                *expected as nat,
                *found as nat,
                *span,
            ),
            TypeError::NotCallable { ty, span } => TypeErrorM::NotCallable(ty@, *span),
            TypeError::NotIndexable { ty, span } => TypeErrorM::NotIndexable(ty@, *span),
            TypeError::NotIterable { ty, span } => TypeErrorM::NotIterable(ty@, *span),
            TypeError::ImmutableAssign { name, span } => TypeErrorM::ImmutableAssign(name@, *span),
        }
    }
}

/// The values of a vector of errors.
pub open spec fn errors_view(es: Seq<TypeError>) -> Seq<TypeErrorM> {
    Seq::new(es.len(), |i: int| es[i]@)
}

/// The ten decimal digits.
pub open spec fn digits() -> Seq<char> {
    "0123456789"@
}

/// The decimal notation of `n`.
pub open spec fn decimal_text(n: nat) -> Seq<char>
    decreases n,
{
    if n < 10 {
        digits().subrange(n as int, n as int + 1)
    } else {
        decimal_text(n / 10) + digits().subrange((n % 10) as int, (n % 10) as int + 1)
    }
}

/// `s` in backquotes.
pub open spec fn quoted(s: Seq<char>) -> Seq<char> {
    "`"@ + s + "`"@
}

/// The one-line message of an error.
pub open spec fn message_text(e: TypeErrorM) -> Seq<char> {
    match e {
        TypeErrorM::Undefined(name, _) => "undefined name "@ + quoted(name),
        TypeErrorM::Mismatch(expected, found, _) => "type mismatch: expected "@ + quoted(
            ty_text(expected),
        ) + ", found "@ + quoted(ty_text(found)),
        TypeErrorM::BinOpMismatch(op, l, r, _) => "operator "@ + quoted(op) + " cannot be applied to "@
            + quoted(ty_text(l)) + " and "@ + quoted(ty_text(r)),
        TypeErrorM::InvalidUnary(op, t, _) => "operator "@ + quoted(op) + " cannot be applied to "@
            + quoted(ty_text(t)),
        TypeErrorM::ArgCount(expected, found, _) => "wrong number of arguments: expected "@
            + decimal_text(expected) + ", found "@ + decimal_text(found),
        TypeErrorM::NotCallable(t, _) => quoted(ty_text(t)) + " is not a function"@,
        TypeErrorM::NotIndexable(t, _) => quoted(ty_text(t)) + " cannot be indexed"@,
        TypeErrorM::NotIterable(t, _) => quoted(ty_text(t)) + " is not iterable"@,
        TypeErrorM::ImmutableAssign(name, _) => "cannot assign to "@ + quoted(name)
            + " \u{2014} it was declared with `let`"@,
    }
}

/// The source span of an error.
pub open spec fn span_of(e: TypeErrorM) -> Span {
    match e {
        TypeErrorM::Undefined(_, s) => s,
        TypeErrorM::Mismatch(_, _, s) => s,
        TypeErrorM::BinOpMismatch(_, _, _, s) => s,
        TypeErrorM::InvalidUnary(_, _, s) => s,
        TypeErrorM::ArgCount(_, _, s) => s,
        TypeErrorM::NotCallable(_, s) => s,
        TypeErrorM::NotIndexable(_, s) => s,
        TypeErrorM::NotIterable(_, s) => s,
        TypeErrorM::ImmutableAssign(_, s) => s,
    }
}

/// The decimal notation of `n`.
pub fn decimal_string(n: usize) -> (r: String)
    ensures
        r@ == decimal_text(n as nat),
    decreases n,
{
    let ds = "0123456789";
    proof {
        reveal_strlit("0123456789");
    }
    if n < 10 {
        String::from_str(ds.substring_char(n, n + 1))
    } else {
        let mut s = decimal_string(n / 10);
        let d = n % 10;
        s.append(ds.substring_char(d, d + 1));
        s
    }
}

/// `s` appended to `out` in backquotes.
fn push_quoted(out: &mut String, s: &str)
    ensures
        final(out)@ == old(out)@ + quoted(s@),
{
    proof {
        reveal_strlit("`");
    }
    out.append("`");
    out.append(s);
    out.append("`");
    assert(final(out)@ =~= old(out)@ + quoted(s@));
}

impl TypeError {
    /// One-line message for command-line output (no source context needed).
    pub fn message(&self) -> (r: String)
        ensures
            r@ == message_text(self@),
    {
        proof {
            reveal_strlit("undefined name ");
            reveal_strlit("type mismatch: expected ");
            reveal_strlit(", found ");
            reveal_strlit("operator ");
            reveal_strlit(" cannot be applied to ");
            reveal_strlit(" and ");
            reveal_strlit("wrong number of arguments: expected ");
            reveal_strlit(" is not a function");
            reveal_strlit(" cannot be indexed");
            reveal_strlit(" is not iterable");
            reveal_strlit("cannot assign to ");
            reveal_strlit(" \u{2014} it was declared with `let`");
        }
        match self {
            TypeError::Undefined { name, .. } => {
                let mut s = String::from_str("undefined name ");
                push_quoted(&mut s, name.as_str());
                s
            },
            TypeError::Mismatch { expected, found, .. } => {
                let mut s = String::from_str("type mismatch: expected ");
                push_quoted(&mut s, expected.display().as_str());
                s.append(", found ");
                push_quoted(&mut s, found.display().as_str());
                s
            },
            TypeError::BinOpMismatch { op, lty, rty, .. } => {
                let mut s = String::from_str("operator ");
                push_quoted(&mut s, op);
                s.append(" cannot be applied to ");
                push_quoted(&mut s, lty.display().as_str());
                s.append(" and ");
                push_quoted(&mut s, rty.display().as_str());
                s
            },
            TypeError::InvalidUnary { op, ty, .. } => {
                let mut s = String::from_str("operator ");
                push_quoted(&mut s, op);
                s.append(" cannot be applied to ");
                push_quoted(&mut s, ty.display().as_str());
                s
            },
            TypeError::ArgCount { expected, found, .. } => {
                let mut s = String::from_str("wrong number of arguments: expected ");
                s.append(decimal_string(*expected).as_str());
                s.append(", found ");
                s.append(decimal_string(*found).as_str());
                s
            },
            TypeError::NotCallable { ty, .. } => {
                let mut s = String::new();
                push_quoted(&mut s, ty.display().as_str());
                s.append(" is not a function");
                s
            },
            TypeError::NotIndexable { ty, .. } => {
                let mut s = String::new();
                push_quoted(&mut s, ty.display().as_str());
                s.append(" cannot be indexed");
                s
            },
            TypeError::NotIterable { ty, .. } => {
                let mut s = String::new();
                push_quoted(&mut s, ty.display().as_str());
                s.append(" is not iterable");
                s
            },
            TypeError::ImmutableAssign { name, .. } => {
                let mut s = String::from_str("cannot assign to ");
                push_quoted(&mut s, name.as_str());
                s.append(" \u{2014} it was declared with `let`");
                s
            },
        }
    }

    /// Source span where the error occurred.
    pub fn span(&self) -> (r: Span)
        ensures
            r == span_of(self@),
    {
        match self {
            TypeError::Undefined { span, .. } => *span,
            TypeError::Mismatch { span, .. } => *span,
            TypeError::BinOpMismatch { span, .. } => *span,
            TypeError::InvalidUnary { span, .. } => *span,
            TypeError::ArgCount { span, .. } => *span,
            TypeError::NotCallable { span, .. } => *span,
            TypeError::NotIndexable { span, .. } => *span,
            TypeError::NotIterable { span, .. } => *span,
            TypeError::ImmutableAssign { span, .. } => *span,
        }
    }
}

} // verus!
