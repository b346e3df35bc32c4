//! The text the formatter writes for each part of a program, as sequences
//! of characters: four spaces per indentation level, one statement per
//! line, blocks introduced by `:`.
use vstd::prelude::*;
use crate::check::error::decimal_text;
use crate::frontend::lexer::{lines_from, next_token};
use crate::frontend::grammar::binary_of;
use crate::frontend::token::{TokenKind, keyword_kind};
use crate::infer::ast::{
    BinaryOperator, Decorator, EnumVariant, Expression, FStringPart, Field, ImportItem, MatchArm,
    Parameter, Pattern, Statement, TraitMethod, TypeExpr, UnaryOperator,
};

verus! {

/// `items` separated by `sep`.
pub open spec fn join_m(items: Seq<Seq<char>>, sep: Seq<char>) -> Seq<char>
    decreases items.len(),
{
    if items.len() == 0 {
        Seq::empty()
    } else if items.len() == 1 {
        items[0]
    } else {
        join_m(items.drop_last(), sep) + sep + items.last()
    }
}

/// The indentation of level `k`: four spaces per level.
pub open spec fn indent_m(k: nat) -> Seq<char>
    decreases k,
{
    if k == 0 {
        Seq::empty()
    } else {
        indent_m((k - 1) as nat) + "    "@
    }
}

/// The decimal notation of an integer, with a minus sign when negative.
pub open spec fn int_text_m(n: i64) -> Seq<char> {
    if n < 0 {
        "-"@ + decimal_text((-n) as nat)
    } else {
        decimal_text(n as nat)
    }
}

/// How a binary operator is written.
pub open spec fn op_text(op: BinaryOperator) -> Seq<char> {
    match op {
        BinaryOperator::Add => "+"@,
        BinaryOperator::Sub => "-"@,
        BinaryOperator::Mul => "*"@,
        BinaryOperator::Div => "/"@,
        BinaryOperator::IntDiv => "//"@,
        BinaryOperator::Mod => "%"@,
        BinaryOperator::Power => "**"@,
        BinaryOperator::Eq => "=="@,
        BinaryOperator::NotEq => "!="@,
        BinaryOperator::Lt => "<"@,
        BinaryOperator::Gt => ">"@,
        BinaryOperator::LtEq => "<="@,
        BinaryOperator::GtEq => ">="@,
        BinaryOperator::And => "and"@,
        BinaryOperator::Or => "or"@,
        BinaryOperator::In => "in"@,
        BinaryOperator::Is => "is"@,
    }
}

/// The kind of the token that the lexer reads at the start of `cs`.
pub open spec fn kind_read(cs: Seq<char>) -> TokenKind {
    match next_token(cs, 0) {
        Some((k, _)) => k,
        None => TokenKind::Eof,
    }
}

/// Formatting keeps each binary operator: the text it is written as is read
/// by the lexer as one whole token, and that token is the one the parser
/// reads as the same operator (`**` is parsed on its own level, by its own
/// token kind).
pub proof fn lemma_op_text_reads_back(op: BinaryOperator)
    ensures
        match next_token(op_text(op), 0) {
            Some((k, e)) => {
                &&& e == op_text(op).len()
                &&& op is Power ==> k == TokenKind::Power
                &&& !(op is Power) ==> exists|level: int| binary_of(k, level) == Some(op)
            },
            None => false,
        },
{
    reveal_strlit("+");
    assert("+"@ =~= seq!['+']);
    reveal_strlit("-");
    assert("-"@ =~= seq!['-']);
    reveal_strlit("*");
    assert("*"@ =~= seq!['*']);
    reveal_strlit("/");
    assert("/"@ =~= seq!['/']);
    reveal_strlit("//");
    assert("//"@ =~= seq!['/', '/']);
    reveal_strlit("%");
    assert("%"@ =~= seq!['%']);
    reveal_strlit("**");
    assert("**"@ =~= seq!['*', '*']);
    reveal_strlit("==");
    assert("=="@ =~= seq!['=', '=']);
    reveal_strlit("!=");
    assert("!="@ =~= seq!['!', '=']);
    reveal_strlit("<");
    assert("<"@ =~= seq!['<']);
    reveal_strlit(">");
    assert(">"@ =~= seq!['>']);
    reveal_strlit("<=");
    assert("<="@ =~= seq!['<', '=']);
    reveal_strlit(">=");
    assert(">="@ =~= seq!['>', '=']);
    reveal_strlit("fn");
    assert("fn"@ =~= seq!['f', 'n']);
    reveal_strlit("let");
    assert("let"@ =~= seq!['l', 'e', 't']);
    reveal_strlit("mut");
    assert("mut"@ =~= seq!['m', 'u', 't']);
    reveal_strlit("const");
    assert("const"@ =~= seq!['c', 'o', 'n', 's', 't']);
    reveal_strlit("return");
    assert("return"@ =~= seq!['r', 'e', 't', 'u', 'r', 'n']);
    reveal_strlit("if");
    assert("if"@ =~= seq!['i', 'f']);
    reveal_strlit("elif");
    assert("elif"@ =~= seq!['e', 'l', 'i', 'f']);
    reveal_strlit("else");
    assert("else"@ =~= seq!['e', 'l', 's', 'e']);
    reveal_strlit("for");
    assert("for"@ =~= seq!['f', 'o', 'r']);
    reveal_strlit("while");
    assert("while"@ =~= seq!['w', 'h', 'i', 'l', 'e']);
    reveal_strlit("break");
    assert("break"@ =~= seq!['b', 'r', 'e', 'a', 'k']);
    reveal_strlit("continue");
    assert("continue"@ =~= seq!['c', 'o', 'n', 't', 'i', 'n', 'u', 'e']);
    reveal_strlit("match");
    assert("match"@ =~= seq!['m', 'a', 't', 'c', 'h']);
    reveal_strlit("case");
    assert("case"@ =~= seq!['c', 'a', 's', 'e']);
    reveal_strlit("import");
    assert("import"@ =~= seq!['i', 'm', 'p', 'o', 'r', 't']);
    reveal_strlit("from");
    assert("from"@ =~= seq!['f', 'r', 'o', 'm']);
    reveal_strlit("as");
    assert("as"@ =~= seq!['a', 's']);
    reveal_strlit("foreign");
    assert("foreign"@ =~= seq!['f', 'o', 'r', 'e', 'i', 'g', 'n']);
    reveal_strlit("struct");
    assert("struct"@ =~= seq!['s', 't', 'r', 'u', 'c', 't']);
    reveal_strlit("enum");
    assert("enum"@ =~= seq!['e', 'n', 'u', 'm']);
    reveal_strlit("trait");
    assert("trait"@ =~= seq!['t', 'r', 'a', 'i', 't']);
    reveal_strlit("impl");
    assert("impl"@ =~= seq!['i', 'm', 'p', 'l']);
    reveal_strlit("self");
    assert("self"@ =~= seq!['s', 'e', 'l', 'f']);
    reveal_strlit("true");
    assert("true"@ =~= seq!['t', 'r', 'u', 'e']);
    reveal_strlit("false");
    assert("false"@ =~= seq!['f', 'a', 'l', 's', 'e']);
    reveal_strlit("none");
    assert("none"@ =~= seq!['n', 'o', 'n', 'e']);
    reveal_strlit("and");
    assert("and"@ =~= seq!['a', 'n', 'd']);
    reveal_strlit("or");
    assert("or"@ =~= seq!['o', 'r']);
    reveal_strlit("not");
    assert("not"@ =~= seq!['n', 'o', 't']);
    reveal_strlit("in");
    assert("in"@ =~= seq!['i', 'n']);
    reveal_strlit("is");
    assert("is"@ =~= seq!['i', 's']);
    reveal_strlit("async");
    assert("async"@ =~= seq!['a', 's', 'y', 'n', 'c']);
    reveal_strlit("await");
    assert("await"@ =~= seq!['a', 'w', 'a', 'i', 't']);
    reveal_strlit("spawn");
    assert("spawn"@ =~= seq!['s', 'p', 'a', 'w', 'n']);
    reveal_strlit("yield");
    assert("yield"@ =~= seq!['y', 'i', 'e', 'l', 'd']);
    reveal_strlit("type");
    assert("type"@ =~= seq!['t', 'y', 'p', 'e']);
    reveal_strlit("pub");
    assert("pub"@ =~= seq!['p', 'u', 'b']);
    reveal_strlit("require");
    assert("require"@ =~= seq!['r', 'e', 'q', 'u', 'i', 'r', 'e']);
    reveal_strlit("ensure");
    assert("ensure"@ =~= seq!['e', 'n', 's', 'u', 'r', 'e']);
    reveal_strlit("pure");
    assert("pure"@ =~= seq!['p', 'u', 'r', 'e']);
    reveal_with_fuel(crate::syntax::lexer::ident_end, 4);
    match op {
        BinaryOperator::Add => {
            assert(binary_of(kind_read(op_text(op)), 3) == Some(op));
        },
        BinaryOperator::Sub => {
            assert(binary_of(kind_read(op_text(op)), 3) == Some(op));
        },
        BinaryOperator::Mul => {
            assert(binary_of(kind_read(op_text(op)), 2) == Some(op));
        },
        BinaryOperator::Div => {
            assert(binary_of(kind_read(op_text(op)), 2) == Some(op));
        },
        BinaryOperator::IntDiv => {
            assert(binary_of(kind_read(op_text(op)), 2) == Some(op));
        },
        BinaryOperator::Mod => {
            assert(binary_of(kind_read(op_text(op)), 2) == Some(op));
        },
        BinaryOperator::Eq => {
            assert(binary_of(kind_read(op_text(op)), 4) == Some(op));
        },
        BinaryOperator::NotEq => {
            assert(binary_of(kind_read(op_text(op)), 4) == Some(op));
        },
        BinaryOperator::Lt => {
            assert(binary_of(kind_read(op_text(op)), 4) == Some(op));
        },
        BinaryOperator::Gt => {
            assert(binary_of(kind_read(op_text(op)), 4) == Some(op));
        },
        BinaryOperator::LtEq => {
            assert(binary_of(kind_read(op_text(op)), 4) == Some(op));
        },
        BinaryOperator::GtEq => {
            assert(binary_of(kind_read(op_text(op)), 4) == Some(op));
        },
        BinaryOperator::And => {
            assert(crate::syntax::lexer::ident_end("and"@, 0) == 3);
            assert("and"@.subrange(0, 3) =~= "and"@);
            assert(keyword_kind("and"@) == Some(TokenKind::And));
            assert(next_token("and"@, 0) == Some((TokenKind::And, 3int)));
            assert(binary_of(kind_read(op_text(op)), 5) == Some(op));
        },
        BinaryOperator::Or => {
            assert(crate::syntax::lexer::ident_end("or"@, 0) == 2);
            assert("or"@.subrange(0, 2) =~= "or"@);
            assert(keyword_kind("or"@) == Some(TokenKind::Or));
            assert(next_token("or"@, 0) == Some((TokenKind::Or, 2int)));
            assert(binary_of(kind_read(op_text(op)), 6) == Some(op));
        },
        BinaryOperator::In => {
            assert(crate::syntax::lexer::ident_end("in"@, 0) == 2);
            assert("in"@.subrange(0, 2) =~= "in"@);
            assert(keyword_kind("in"@) == Some(TokenKind::In));
            assert(next_token("in"@, 0) == Some((TokenKind::In, 2int)));
            assert(binary_of(kind_read(op_text(op)), 4) == Some(op));
        },
        BinaryOperator::Is => {
            assert(crate::syntax::lexer::ident_end("is"@, 0) == 2);
            assert("is"@.subrange(0, 2) =~= "is"@);
            assert(keyword_kind("is"@) == Some(TokenKind::Is));
            assert(next_token("is"@, 0) == Some((TokenKind::Is, 2int)));
            assert(binary_of(kind_read(op_text(op)), 4) == Some(op));
        },
        BinaryOperator::Power => {},
    }
}

/// How a unary operator is written, with the space that `not` takes.
pub open spec fn unary_text(op: UnaryOperator) -> Seq<char> {
    match op {
        UnaryOperator::Neg => "-"@,
        UnaryOperator::Not => "not "@,
    }
}

/// Formatting keeps each prefix operator: the lexer reads the text of `-`
/// as the minus token and the text of `not` as the `not` keyword, the two
/// tokens that the parser reads as negation and logical not.
pub proof fn lemma_unary_text_reads_back(op: UnaryOperator)
    ensures
        op is Neg ==> kind_read(unary_text(op)) == TokenKind::Minus,
        op is Not ==> kind_read(unary_text(op)) == TokenKind::Not,
{
    reveal_strlit("-");
    assert("-"@ =~= seq!['-']);
    reveal_strlit("not ");
    assert("not "@ =~= seq!['n', 'o', 't', ' ']);
    reveal_with_fuel(crate::syntax::lexer::ident_end, 4);
    if op is Not {
        assert(crate::syntax::lexer::ident_end("not "@, 0) == 3);
        assert("not "@.subrange(0, 3) =~= seq!['n', 'o', 't']);
        reveal_strlit("not");
        assert("not"@ =~= seq!['n', 'o', 't']);
        reveal_strlit("fn");
        reveal_strlit("let");
        reveal_strlit("mut");
        reveal_strlit("const");
        reveal_strlit("return");
        reveal_strlit("if");
        reveal_strlit("elif");
        reveal_strlit("else");
        reveal_strlit("for");
        reveal_strlit("while");
        reveal_strlit("break");
        reveal_strlit("continue");
        reveal_strlit("match");
        reveal_strlit("case");
        reveal_strlit("import");
        reveal_strlit("from");
        reveal_strlit("as");
        reveal_strlit("foreign");
        reveal_strlit("struct");
        reveal_strlit("enum");
        reveal_strlit("trait");
        reveal_strlit("impl");
        reveal_strlit("self");
        reveal_strlit("true");
        reveal_strlit("false");
        reveal_strlit("none");
        reveal_strlit("and");
        reveal_strlit("or");
        assert(keyword_kind("not"@) == Some(TokenKind::Not));
    }
}

/// The views of strings.
pub open spec fn texts(ss: Seq<String>) -> Seq<Seq<char>> {
    Seq::new(ss.len(), |i: int| ss[i]@)
}

// ── Types ───────────────────────────────────────────────────

/// How a type annotation is written.
pub open spec fn type_text(t: TypeExpr) -> Seq<char>
    decreases t,
{
    match t {
        TypeExpr::Named(name) => name@,
        TypeExpr::Generic(name, args) => name@ + "["@ + join_m(type_texts(args@), ", "@) + "]"@,
        TypeExpr::Function(params, ret) => "("@ + join_m(type_texts(params@), ", "@) + ") -> "@
            + type_text(*ret),
        TypeExpr::Optional(inner) => type_text(*inner) + "?"@,
        TypeExpr::Result(ok, err) => type_text(*ok) + " or "@ + type_text(*err),
        TypeExpr::Tuple(es) => "("@ + join_m(type_texts(es@), ", "@) + ")"@,
    }
}

/// How each of `ts` is written.
pub open spec fn type_texts(ts: Seq<TypeExpr>) -> Seq<Seq<char>>
    decreases ts,
{
    if ts.len() == 0 {
        Seq::empty()
    } else {
        type_texts(ts.drop_last()).push(type_text(ts.last()))
    }
}

// ── Expressions ─────────────────────────────────────────────

/// How an expression is written. A float literal is written as it was in
/// the source.
pub open spec fn expr_text(e: Expression) -> Seq<char>
    decreases e,
{
    match e {
        Expression::IntLiteral(n) => int_text_m(n),
        Expression::FloatLiteral(t) => t@,
        Expression::StringLiteral(s) => "\""@ + s@ + "\""@,
        Expression::BoolLiteral(b) => if b {
            "true"@
        } else {
            "false"@
        },
        Expression::NoneLiteral => "none"@,
        Expression::Identifier(name) => name@,
        Expression::BinaryOp { left, op, right } => expr_text(*left) + " "@ + op_text(op) + " "@
            + expr_text(*right),
        Expression::UnaryOp { op, operand } => unary_text(op) + expr_text(*operand),
        Expression::Call { function, args } => expr_text(*function) + "("@ + join_m(
            expr_texts(args@),
            ", "@,
        ) + ")"@,
        Expression::MethodCall { object, method, args } => expr_text(*object) + "."@ + method@ + "("@
            + join_m(expr_texts(args@), ", "@) + ")"@,
        Expression::FieldAccess { object, field } => expr_text(*object) + "."@ + field@,
        Expression::Index { object, index } => expr_text(*object) + "["@ + expr_text(*index) + "]"@,
        Expression::Pipe { left, right } => expr_text(*left) + " |> "@ + expr_text(*right),
        Expression::Lambda { params, body } => (if params@.len() == 1 {
            params@[0]@
        } else {
            "("@ + join_m(texts(params@), ", "@) + ")"@
        }) + " => "@ + expr_text(*body),
        Expression::List(elements) => "["@ + join_m(expr_texts(elements@), ", "@) + "]"@,
        Expression::Dict(entries) => "{"@ + join_m(entry_texts(entries@), ", "@) + "}"@,
        Expression::StructInit { name, fields } => name@ + " { "@ + join_m(init_texts(fields@), ", "@)
            + " }"@,
        Expression::FString(parts) => "f\""@ + parts_text(parts@) + "\""@,
        Expression::Await(inner) => "await "@ + expr_text(*inner),
        Expression::ResultExpr { value, error_type } => expr_text(*value) + " or "@ + error_type@,
    }
}

/// How each of `es` is written.
pub open spec fn expr_texts(es: Seq<Expression>) -> Seq<Seq<char>>
    decreases es,
{
    if es.len() == 0 {
        Seq::empty()
    } else {
        expr_texts(es.drop_last()).push(expr_text(es.last()))
    }
}

/// How each dictionary entry of `ps` is written: `key: value`.
pub open spec fn entry_texts(ps: Seq<(Expression, Expression)>) -> Seq<Seq<char>>
    decreases ps,
{
    if ps.len() == 0 {
        Seq::empty()
    } else {
        entry_texts(ps.drop_last()).push(expr_text(ps.last().0) + ": "@ + expr_text(ps.last().1))
    }
}

/// How each field initializer of `fs` is written: `name: value`.
pub open spec fn init_texts(fs: Seq<(String, Expression)>) -> Seq<Seq<char>>
    decreases fs,
{
    if fs.len() == 0 {
        Seq::empty()
    } else {
        init_texts(fs.drop_last()).push(fs.last().0@ + ": "@ + expr_text(fs.last().1))
    }
}

/// The inside of an f-string: literal parts as they are, expressions in
/// braces.
pub open spec fn parts_text(ps: Seq<FStringPart>) -> Seq<char>
    decreases ps,
{
    if ps.len() == 0 {
        Seq::empty()
    } else {
        parts_text(ps.drop_last()) + match ps.last() {
            FStringPart::Literal(s) => s@,
            FStringPart::Expression(e) => "{"@ + expr_text(e) + "}"@,
        }
    }
}

// ── Patterns ────────────────────────────────────────────────

/// How a pattern is written.
pub open spec fn pattern_text(p: Pattern) -> Seq<char>
    decreases p,
{
    match p {
        Pattern::Literal(e) => expr_text(e),
        Pattern::Variable(name) => name@,
        Pattern::Variant(name, fields) => if fields@.len() == 0 {
            name@
        } else {
            name@ + "("@ + join_m(pattern_texts(fields@), ", "@) + ")"@
        },
        Pattern::Wildcard => "_"@,
    }
}

/// How each of `ps` is written.
pub open spec fn pattern_texts(ps: Seq<Pattern>) -> Seq<Seq<char>>
    decreases ps,
{
    if ps.len() == 0 {
        Seq::empty()
    } else {
        pattern_texts(ps.drop_last()).push(pattern_text(ps.last()))
    }
}

// ── Statements ──────────────────────────────────────────────

/// Doc comment lines at level `k`, each `## ` and a line of the comment.
pub open spec fn doc_lines_text(ls: Seq<Seq<char>>, k: nat) -> Seq<char>
    decreases ls.len(),
{
    if ls.len() == 0 {
        Seq::empty()
    } else {
        doc_lines_text(ls.drop_last(), k) + indent_m(k) + "## "@ + ls.last() + "\n"@
    }
}

/// The doc comment of a definition, one `## ` line per line, at level `k`.
pub open spec fn doc_text(doc: Option<String>, k: nat) -> Seq<char> {
    match doc {
        Some(d) => doc_lines_text(lines_from(d@, 0), k),
        None => Seq::empty(),
    }
}

/// `pub ` for a public item.
pub open spec fn pub_text(is_pub: bool) -> Seq<char> {
    if is_pub {
        "pub "@
    } else {
        Seq::empty()
    }
}

/// ` -> T` for a declared result type.
pub open spec fn ret_text(rt: Option<TypeExpr>) -> Seq<char> {
    match rt {
        Some(t) => " -> "@ + type_text(t),
        None => Seq::empty(),
    }
}

/// `: T` for a type annotation.
pub open spec fn annotation_text(ty: Option<TypeExpr>) -> Seq<char> {
    match ty {
        Some(t) => ": "@ + type_text(t),
        None => Seq::empty(),
    }
}

/// Each parameter written as `name: T`.
pub open spec fn param_texts(ps: Seq<Parameter>) -> Seq<Seq<char>> {
    Seq::new(ps.len(), |i: int| ps[i].name@ + ": "@ + type_text(ps[i].type_annotation))
}

/// The decorator lines of a function, at level `k`.
pub open spec fn decorators_text(ds: Seq<Decorator>, k: nat) -> Seq<char>
    decreases ds.len(),
{
    if ds.len() == 0 {
        Seq::empty()
    } else {
        let d = ds.last();
        decorators_text(ds.drop_last(), k) + indent_m(k) + "@"@ + d.name@ + if d.args@.len() == 0 {
            Seq::empty()
        } else {
            "("@ + join_m(expr_texts(d.args@), ", "@) + ")"@
        } + "\n"@
    }
}

/// The field lines of a struct, at level `k`.
pub open spec fn fields_text(fs: Seq<Field>, k: nat) -> Seq<char>
    decreases fs.len(),
{
    if fs.len() == 0 {
        Seq::empty()
    } else {
        let f = fs.last();
        fields_text(fs.drop_last(), k) + indent_m(k) + pub_text(f.is_pub) + "let "@ + f.name@ + ": "@
            + type_text(f.type_annotation) + match f.default {
            Some(d) => " = "@ + expr_text(d),
            None => Seq::empty(),
        } + "\n"@
    }
}

/// The variant lines of an enum, at level `k`.
pub open spec fn variants_text(vs: Seq<EnumVariant>, k: nat) -> Seq<char>
    decreases vs.len(),
{
    if vs.len() == 0 {
        Seq::empty()
    } else {
        let v = vs.last();
        variants_text(vs.drop_last(), k) + indent_m(k) + "case "@ + v.name@ + match v.fields {
            Some(ts) => "("@ + join_m(type_texts(ts@), ", "@) + ")"@,
            None => Seq::empty(),
        } + "\n"@
    }
}

/// The method lines of a trait, at level `k`.
pub open spec fn methods_text(ms: Seq<TraitMethod>, k: nat) -> Seq<char>
    decreases ms.len(),
{
    if ms.len() == 0 {
        Seq::empty()
    } else {
        let m = ms.last();
        methods_text(ms.drop_last(), k) + indent_m(k) + "fn "@ + m.name@ + "("@ + join_m(
            param_texts(m.params@),
            ", "@,
        ) + ")"@ + ret_text(m.return_type) + "\n"@
    }
}

/// An `import` line's content.
pub open spec fn import_text(path: Seq<String>, items: Option<Vec<ImportItem>>) -> Seq<char> {
    match items {
        Some(its) => "from "@ + join_m(texts(path), "."@) + " import "@ + join_m(
            Seq::new(its@.len(), |i: int| its@[i].name@),
            ", "@,
        ),
        None => "import "@ + join_m(texts(path), "."@),
    }
}

/// The header line of a function: `fn name(params) -> T [effects]:`.
pub open spec fn fn_head_text(
    name: Seq<char>,
    params: Seq<Parameter>,
    rt: Option<TypeExpr>,
    effects: Seq<String>,
    is_pub: bool,
    k: nat,
) -> Seq<char> {
    indent_m(k) + pub_text(is_pub) + "fn "@ + name + "("@ + join_m(param_texts(params), ", "@) + ")"@
        + ret_text(rt) + (if effects.len() == 0 {
        Seq::empty()
    } else {
        " ["@ + join_m(texts(effects), ", "@) + "]"@
    }) + ":\n"@
}

/// The header line of a struct, enum or trait: the keyword, the name, `:`.
pub open spec fn head_text(keyword: Seq<char>, name: Seq<char>, is_pub: bool, k: nat) -> Seq<char> {
    indent_m(k) + pub_text(is_pub) + keyword + name + ":\n"@
}

/// The text of statement `st` at indentation level `k`.
pub open spec fn stmt_text(st: Statement, k: nat) -> Seq<char>
    decreases st, 0nat,
{
    let ind = indent_m(k);
    match st {
        Statement::FunctionDef { name, params, return_type, effects, body, decorators, is_pub, doc_comment } => {
            doc_text(doc_comment, k) + decorators_text(decorators@, k) + fn_head_text(
                name@,
                params@,
                return_type,
                effects@,
                is_pub,
                k,
            ) + block_text(body@, k + 1)
        },
        Statement::StructDef { name, fields, is_pub, doc_comment } => doc_text(doc_comment, k) + head_text(
            "struct "@,
            name@,
            is_pub,
            k,
        ) + fields_text(fields@, k + 1),
        Statement::EnumDef { name, variants, is_pub, doc_comment } => doc_text(doc_comment, k) + head_text(
            "enum "@,
            name@,
            is_pub,
            k,
        ) + variants_text(variants@, k + 1),
        Statement::TraitDef { name, methods, is_pub, doc_comment } => doc_text(doc_comment, k) + head_text(
            "trait "@,
            name@,
            is_pub,
            k,
        ) + methods_text(methods@, k + 1),
        Statement::ImplBlock { trait_name, target_type, methods } => ind + match trait_name {
            Some(t) => "impl "@ + t@ + " for "@ + target_type@ + ":\n"@,
            None => "impl "@ + target_type@ + ":\n"@,
        } + stmts_text(methods@, k + 1),
        Statement::LetBinding { name, type_annotation, value, mutable } => ind + if mutable {
            "let mut "@
        } else {
            "let "@
        } + name@ + annotation_text(type_annotation) + " = "@ + expr_text(value) + "\n"@,
        Statement::ConstBinding { name, type_annotation, value } => ind + "const "@ + name@
            + annotation_text(type_annotation) + " = "@ + expr_text(value) + "\n"@,
        Statement::Assignment { target, value } => ind + expr_text(target) + " = "@ + expr_text(value)
            + "\n"@,
        Statement::If { condition, body, elif_clauses, else_body } => ind + "if "@ + expr_text(condition)
            + ":\n"@ + block_text(body@, k + 1) + elifs_text(elif_clauses@, k) + match else_body {
            Some(b) => ind + "else:"@ + "\n"@ + block_text(b@, k + 1),
            None => Seq::empty(),
        },
        Statement::ForLoop { variable, iterable, body } => ind + "for "@ + variable@ + " in "@
            + expr_text(iterable) + ":\n"@ + block_text(body@, k + 1),
        Statement::WhileLoop { condition, body } => ind + "while "@ + expr_text(condition) + ":\n"@
            + block_text(body@, k + 1),
        Statement::Return(e) => ind + match e {
            Some(x) => "return "@ + expr_text(x),
            None => "return"@,
        } + "\n"@,
        Statement::Break => ind + "break"@ + "\n"@,
        Statement::Continue => ind + "continue"@ + "\n"@,
        Statement::Expression(e) => ind + expr_text(e) + "\n"@,
        Statement::Import { path, items } => ind + import_text(path@, items) + "\n"@,
        Statement::ForeignImport { path, lang, .. } => ind + "import foreign(\""@ + path@ + "\", lang: \""@
            + lang@ + "\")"@ + "\n"@,
        Statement::Require(e) => ind + "require "@ + expr_text(e) + "\n"@,
        Statement::Ensure(e) => ind + "ensure "@ + expr_text(e) + "\n"@,
        Statement::Match { subject, arms } => ind + "match "@ + expr_text(subject) + ":\n"@ + arms_text(
            arms@,
            k + 1,
        ),
    }
}

/// Statements at level `k`, one after another.
pub open spec fn stmts_text(sts: Seq<Statement>, k: nat) -> Seq<char>
    decreases sts, 0nat,
{
    if sts.len() == 0 {
        Seq::empty()
    } else {
        stmts_text(sts.drop_last(), k) + stmt_text(sts.last(), k)
    }
}

/// A block at level `k`: its statements, or `pass` when it has none.
pub open spec fn block_text(sts: Seq<Statement>, k: nat) -> Seq<char>
    decreases sts, 1nat,
{
    if sts.len() == 0 {
        indent_m(k) + "pass"@ + "\n"@
    } else {
        stmts_text(sts, k)
    }
}

/// The `elif` clauses of an `if` at level `k`.
pub open spec fn elifs_text(cs: Seq<(Expression, Vec<Statement>)>, k: nat) -> Seq<char>
    decreases cs, 0nat,
{
    if cs.len() == 0 {
        Seq::empty()
    } else {
        elifs_text(cs.drop_last(), k) + indent_m(k) + "elif "@ + expr_text(cs.last().0) + ":\n"@
            + block_text(cs.last().1@, k + 1)
    }
}

/// The arms of a `match`, at level `k`, each body one level deeper.
pub open spec fn arms_text(arms: Seq<MatchArm>, k: nat) -> Seq<char>
    decreases arms, 0nat,
{
    if arms.len() == 0 {
        Seq::empty()
    } else {
        arms_text(arms.drop_last(), k) + indent_m(k) + "case "@ + pattern_text(arms.last().pattern)
            + ":\n"@ + block_text(arms.last().body@, k + 1)
    }
}

/// Definitions: functions, structs, enums, traits and impl blocks.
pub open spec fn is_definition(st: Statement) -> bool {
    st is FunctionDef || st is StructDef || st is EnumDef || st is TraitDef || st is ImplBlock
}

/// A whole program: top-level statements at level zero, with a blank line
/// before each definition but the first statement and after each run of
/// definitions.
pub open spec fn program_text(sts: Seq<Statement>) -> Seq<char>
    decreases sts.len(),
{
    if sts.len() == 0 {
        Seq::empty()
    } else {
        let i = sts.len() - 1;
        let st = sts.last();
        let blank = (is_definition(st) && i > 0) || (i > 0 && is_definition(sts[i - 1]) && !is_definition(
            st,
        ));
        program_text(sts.drop_last()) + if blank {
            "\n"@
        } else {
            Seq::empty()
        } + stmt_text(st, 0)
    }
}

// ── Nesting ─────────────────────────────────────────────────

/// The larger of two numbers.
pub open spec fn max_nat(a: nat, b: nat) -> nat {
    if a >= b {
        a
    } else {
        b
    }
}

/// How many indentation levels deeper than its own the text of `st` goes.
pub open spec fn stmt_depth(st: Statement) -> nat
    decreases st, 0nat,
{
    match st {
        Statement::FunctionDef { body, .. } => 1 + stmts_depth(body@),
        Statement::StructDef { .. } | Statement::EnumDef { .. } | Statement::TraitDef { .. } => 1,
        Statement::ImplBlock { methods, .. } => 1 + stmts_depth(methods@),
        Statement::If { body, elif_clauses, else_body, .. } => 1 + max_nat(
            max_nat(stmts_depth(body@), elifs_depth(elif_clauses@)),
            match else_body {
                Some(b) => stmts_depth(b@),
                None => 0,
            },
        ),
        Statement::ForLoop { body, .. } => 1 + stmts_depth(body@),
        Statement::WhileLoop { body, .. } => 1 + stmts_depth(body@),
        Statement::Match { arms, .. } => 2 + arms_depth(arms@),
        _ => 0,
    }
}

/// The deepest nesting among statements `sts`.
pub open spec fn stmts_depth(sts: Seq<Statement>) -> nat
    decreases sts, 0nat,
{
    if sts.len() == 0 {
        0
    } else {
        max_nat(stmts_depth(sts.drop_last()), stmt_depth(sts.last()))
    }
}

/// The deepest nesting among the bodies of `elif` clauses.
pub open spec fn elifs_depth(cs: Seq<(Expression, Vec<Statement>)>) -> nat
    decreases cs, 0nat,
{
    if cs.len() == 0 {
        0
    } else {
        max_nat(elifs_depth(cs.drop_last()), stmts_depth(cs.last().1@))
    }
}

/// The deepest nesting among the bodies of `match` arms.
pub open spec fn arms_depth(arms: Seq<MatchArm>) -> nat
    decreases arms, 0nat,
{
    if arms.len() == 0 {
        0
    } else {
        max_nat(arms_depth(arms.drop_last()), stmts_depth(arms.last().body@))
    }
}

} // verus!
