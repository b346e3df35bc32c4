use nova::infer::display::{effects_display, types_display};
use nova::infer::error::{Located, TypeError};
use nova::infer::types::{Effect, EnumType, StructType, Type};

fn b(t: Type) -> Box<Type> {
    Box::new(t)
}

#[test]
fn types_are_written_as_in_source() {
    assert_eq!(Type::Int.display(), "int");
    assert_eq!(Type::NoneType.display(), "none");
    assert_eq!(Type::List(b(Type::Str)).display(), "list[str]");
    assert_eq!(Type::Dict(b(Type::Str), b(Type::Float)).display(), "dict[str, float]");
    assert_eq!(Type::Tuple(vec![Type::Int, Type::Bool, Type::Char]).display(), "(int, bool, char)");
    assert_eq!(Type::Tuple(vec![]).display(), "()");
    assert_eq!(Type::Optional(b(Type::Int)).display(), "int?");
    assert_eq!(Type::Result(b(Type::Int), b(Type::Named("IoError".to_string()))).display(), "int or IoError");
    assert_eq!(Type::Var(12).display(), "?T12");
    assert_eq!(Type::Never.display(), "never");
    assert_eq!(Type::Error.display(), "<error>");
    let s = StructType { name: "Point".to_string(), fields: vec![("x".to_string(), Type::Int)], is_pub: true };
    assert_eq!(Type::Struct(s).display(), "Point");
    let e = EnumType { name: "Color".to_string(), variants: vec![], is_pub: false };
    assert_eq!(Type::Enum(e).display(), "Color");
}

#[test]
fn function_types_show_their_effects() {
    let pure = Type::Function { params: vec![Type::Int, Type::Str], return_type: b(Type::Bool), effects: vec![] };
    assert_eq!(pure.display(), "(int, str) -> bool");
    let io = Type::Function {
        params: vec![],
        return_type: b(Type::NoneType),
        effects: vec![Effect::IO, Effect::Net, Effect::Custom("db".to_string())],
    };
    assert_eq!(io.display(), "() -> none [io, net, db]");
    assert_eq!(Effect::Error.display(), "error");
    assert_eq!(effects_display(&vec![]), "");
    assert_eq!(types_display(&vec![Type::Float]), "float");
}

#[test]
fn error_messages() {
    assert_eq!(
        TypeError::Mismatch { expected: Type::Int, found: Type::Str }.message(),
        "type mismatch: expected `int`, found `str`"
    );
    assert_eq!(TypeError::UndefinedVariable { name: "x".to_string() }.message(), "undefined variable `x`");
    assert_eq!(TypeError::AlreadyDefined { name: "f".to_string() }.message(), "`f` is already defined in this scope");
    assert_eq!(
        TypeError::ArityMismatch { name: "add".to_string(), expected: 2, found: 13 }.message(),
        "function `add` expects 2 arguments, got 13"
    );
    assert_eq!(
        TypeError::InvalidOperator { op: "+".to_string(), left: Type::Int, right: Type::Bool }.message(),
        "cannot use operator `+` with types `int` and `bool`"
    );
    assert_eq!(
        TypeError::UndeclaredEffect { effect: Effect::IO }.message(),
        "effect `io` not declared \u{2014} add `[io]` to function signature"
    );
    assert_eq!(
        TypeError::ReturnTypeMismatch { name: "f".to_string(), expected: Type::Int, found: Type::Float }.message(),
        "return type mismatch in `f`: expected `int`, found `float`"
    );
    assert_eq!(TypeError::BreakOutsideLoop.message(), "cannot use `break` outside of a loop");
    assert_eq!(TypeError::CannotInfer.message(), "cannot infer type \u{2014} add a type annotation");
    assert_eq!(
        TypeError::InfiniteType { var: "?T3".to_string(), ty: Type::List(b(Type::Var(3))) }.message(),
        "infinite type detected: `?T3` occurs in `list[?T3]`"
    );
    assert_eq!(
        TypeError::MissingField { struct_name: "P".to_string(), field: "y".to_string() }.message(),
        "missing field `y` in struct `P`"
    );
    assert_eq!(TypeError::NonExhaustiveMatch.message(), "match is not exhaustive \u{2014} missing patterns");
}

#[test]
fn located_errors_count_lines_from_one() {
    let e = Located { inner: TypeError::NotIndexable { ty: Type::Bool }, line: 4, col: 2 };
    assert_eq!(e.message(), "line 5: cannot index into type `bool`");
}
