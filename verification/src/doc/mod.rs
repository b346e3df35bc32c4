//! Documentation pages: which definitions of a program are documented, the
//! signature each is shown with, and the HTML page that lists them.
pub mod html;

use vstd::prelude::*;
use crate::formatter::exprs::{lemma_join_push, write_texts, write_type};
use crate::formatter::layout::{join_m, param_texts, ret_text, texts, type_text};
use crate::frontend::lexer::trail_start;
use crate::infer::ast::{Field, Parameter, Statement, TypeExpr};

verus! {

/// The kind of a documented definition.
#[derive(Debug, Clone, Copy, PartialEq, Eq, Structural)]
pub enum ItemKind {
    Function,
    Struct,
    Enum,
    Trait,
}

/// The keyword a kind is labelled with.
pub open spec fn kind_label(k: ItemKind) -> Seq<char> {
    match k {
        ItemKind::Function => "fn"@,
        ItemKind::Struct => "struct"@,
        ItemKind::Enum => "enum"@,
        ItemKind::Trait => "trait"@,
    }
}

/// The style class a kind is drawn with.
pub open spec fn kind_class(k: ItemKind) -> Seq<char> {
    match k {
        ItemKind::Function => "kind-fn"@,
        ItemKind::Struct => "kind-struct"@,
        ItemKind::Enum => "kind-enum"@,
        ItemKind::Trait => "kind-trait"@,
    }
}

impl ItemKind {
    /// The keyword of the kind.
    pub fn as_str(&self) -> (r: &'static str)
        ensures
            r@ == kind_label(*self),
    {
        match self {
            ItemKind::Function => "fn",
            ItemKind::Struct => "struct",
            ItemKind::Enum => "enum",
            ItemKind::Trait => "trait",
        }
    }

    /// The style class of the kind.
    pub fn color_class(&self) -> (r: &'static str)
        ensures
            r@ == kind_class(*self),
    {
        match self {
            ItemKind::Function => "kind-fn",
            ItemKind::Struct => "kind-struct",
            ItemKind::Enum => "kind-enum",
            ItemKind::Trait => "kind-trait",
        }
    }
}

/// One documented definition.
#[derive(Debug)]
pub struct DocItem {
    pub kind: ItemKind,
    pub name: String,
    /// The file the definition comes from, without its extension.
    pub module: String,
    pub doc: String,
    pub signature: String,
    pub is_pub: bool,
}

/// A doc item as plain values: kind, name, doc text, signature, visibility.
pub open spec fn item_view(it: DocItem) -> (ItemKind, Seq<char>, Seq<char>, Seq<char>, bool) {
    (it.kind, it.name@, it.doc@, it.signature@, it.is_pub)
}

/// The text of a doc comment; none is the empty text.
pub open spec fn doc_of(d: Option<String>) -> Seq<char> {
    match d {
        Some(s) => s@,
        None => Seq::empty(),
    }
}

/// A definition is documented when it has a doc comment or is public.
pub open spec fn shown(d: Option<String>, is_pub: bool) -> bool {
    doc_of(d).len() > 0 || is_pub
}

/// ` [e1, e2]` for the effects a function declares, nothing for none.
pub open spec fn effects_text(effects: Seq<String>) -> Seq<char> {
    if effects.len() == 0 {
        Seq::empty()
    } else {
        " ["@ + join_m(texts(effects), ", "@) + "]"@
    }
}

/// The signature a function is documented with.
pub open spec fn fn_signature(
    name: Seq<char>,
    params: Seq<Parameter>,
    rt: Option<TypeExpr>,
    effects: Seq<String>,
) -> Seq<char> {
    "fn "@ + name + "("@ + join_m(param_texts(params), ", "@) + ")"@ + ret_text(rt) + effects_text(
        effects,
    )
}

/// One indented `name: T` line per field.
pub open spec fn field_lines(fs: Seq<Field>) -> Seq<char>
    decreases fs.len(),
{
    if fs.len() == 0 {
        Seq::empty()
    } else {
        field_lines(fs.drop_last()) + "    "@ + fs.last().name@ + ": "@ + type_text(
            fs.last().type_annotation,
        ) + "\n"@
    }
}

/// `cs` without white space at its end.
pub open spec fn trim_end_m(cs: Seq<char>) -> Seq<char> {
    cs.subrange(0, trail_start(cs, cs.len() as int))
}

/// The signature a struct is documented with: its head and field lines.
pub open spec fn struct_signature(name: Seq<char>, fields: Seq<Field>) -> Seq<char> {
    trim_end_m("struct "@ + name + ":\n"@ + field_lines(fields))
}

/// What a top-level statement contributes to the documentation, if anything:
/// functions, structs, enums and traits that are public or carry a doc
/// comment.
pub open spec fn doc_entry(st: Statement) -> Option<(ItemKind, Seq<char>, Seq<char>, Seq<char>, bool)> {
    match st {
        Statement::FunctionDef { name, params, return_type, effects, is_pub, doc_comment, .. } => {
            if shown(doc_comment, is_pub) {
                Some(
                    (
                        ItemKind::Function,
                        name@,
                        doc_of(doc_comment),
                        fn_signature(name@, params@, return_type, effects@),
                        is_pub,
                    ),
                )
            } else {
                None
            }
        },
        Statement::StructDef { name, fields, is_pub, doc_comment } => {
            if shown(doc_comment, is_pub) {
                Some(
                    (
                        ItemKind::Struct,
                        name@,
                        doc_of(doc_comment),
                        struct_signature(name@, fields@),
                        is_pub,
                    ),
                )
            } else {
                None
            }
        },
        Statement::EnumDef { name, is_pub, doc_comment, .. } => {
            if shown(doc_comment, is_pub) {
                Some((ItemKind::Enum, name@, doc_of(doc_comment), "enum "@ + name@, is_pub))
            } else {
                None
            }
        },
        Statement::TraitDef { name, is_pub, doc_comment, .. } => {
            if shown(doc_comment, is_pub) {
                Some((ItemKind::Trait, name@, doc_of(doc_comment), "trait "@ + name@, is_pub))
            } else {
                None
            }
        },
        _ => None,
    }
}

/// A type annotation as it is shown in a signature.
pub fn format_type(ty: &TypeExpr) -> (r: String)
    ensures
        r@ == type_text(*ty),
{
    let mut out = String::new();
    write_type(&mut out, ty);
    out
}

/// Parameters as they are shown in a signature: `name: T`, separated by
/// commas.
pub fn format_params(params: &Vec<Parameter>) -> (r: String)
    ensures
        r@ == join_m(param_texts(params@), ", "@),
{
    let mut out = String::new();
    let mut i: usize = 0;
    assert(param_texts(params@.take(0)) =~= Seq::<Seq<char>>::empty());
    while i < params.len()
        invariant
            i <= params@.len(),
            out@ == join_m(param_texts(params@.take(i as int)), ", "@),
        decreases params@.len() - i,
    {
        let ghost item = params@[i as int].name@ + ": "@ + type_text(params@[i as int].type_annotation);
        proof {
            lemma_join_push(param_texts(params@.take(i as int)), item, ", "@);
            assert(param_texts(params@.take(i + 1)) =~= param_texts(params@.take(i as int)).push(item));
        }
        if i > 0 {
            out.append(", ");
        }
        out.append(params[i].name.as_str());
        out.append(": ");
        write_type(&mut out, &params[i].type_annotation);
        assert(out@ =~= join_m(param_texts(params@.take(i + 1)), ", "@));
        i = i + 1;
    }
    assert(params@.take(params@.len() as int) =~= params@);
    out
}

/// The text of a doc comment, empty for none.
fn doc_text_of(d: &Option<String>) -> (r: String)
    ensures
        r@ == doc_of(*d),
{
    match d {
        Some(s) => s.clone(),
        None => String::new(),
    }
}

/// `s` without white space at its end.
fn trim_end(s: &String) -> (r: String)
    ensures
        r@ == trim_end_m(s@),
{
    let cs = crate::syntax::lexer::chars_of(s.as_str());
    let b = crate::frontend::lexer::trail_x(&cs, cs.len());
    proof {
        lemma_trail_bound(s@, s@.len() as int);
    }
    String::from_str(s.as_str().substring_char(0, b))
}

proof fn lemma_trail_bound(cs: Seq<char>, j: int)
    requires
        0 <= j <= cs.len(),
    ensures
        0 <= trail_start(cs, j) <= j,
    decreases j,
{
    if 0 < j && crate::frontend::lexer::is_space(cs[j - 1]) {
        lemma_trail_bound(cs, j - 1);
    }
}

/// The signature of a function definition.
fn function_signature(
    name: &String,
    params: &Vec<Parameter>,
    return_type: &Option<TypeExpr>,
    effects: &Vec<String>,
) -> (r: String)
    ensures
        r@ == fn_signature(name@, params@, *return_type, effects@),
{
    let mut sig = String::from_str("fn ");
    sig.append(name.as_str());
    sig.append("(");
    let ps = format_params(params);
    sig.append(ps.as_str());
    sig.append(")");
    match return_type {
        Some(t) => {
            sig.append(" -> ");
            write_type(&mut sig, t);
        },
        None => {},
    }
    if effects.len() > 0 {
        sig.append(" [");
        write_texts(&mut sig, effects, ", ");
        sig.append("]");
    }
    assert(sig@ =~= fn_signature(name@, params@, *return_type, effects@));
    sig
}

/// The signature of a struct definition.
fn struct_signature_text(name: &String, fields: &Vec<Field>) -> (r: String)
    ensures
        r@ == struct_signature(name@, fields@),
{
    let mut sig = String::from_str("struct ");
    sig.append(name.as_str());
    sig.append(":\n");
    let ghost head = sig@;
    let mut i: usize = 0;
    assert(field_lines(fields@.take(0)) =~= Seq::<char>::empty());
    while i < fields.len()
        invariant
            i <= fields@.len(),
            head == "struct "@ + name@ + ":\n"@,
            sig@ == head + field_lines(fields@.take(i as int)),
        decreases fields@.len() - i,
    {
        assert(fields@.take(i + 1).drop_last() =~= fields@.take(i as int));
        sig.append("    ");
        sig.append(fields[i].name.as_str());
        sig.append(": ");
        write_type(&mut sig, &fields[i].type_annotation);
        sig.append("\n");
        assert(sig@ =~= head + field_lines(fields@.take(i + 1)));
        i = i + 1;
    }
    assert(fields@.take(fields@.len() as int) =~= fields@);
    trim_end(&sig)
}

/// The documentation a top-level statement of file `module` contributes:
/// public definitions and those with a doc comment, each with its kind, name,
/// doc text and signature.
pub fn extract_doc_item(stmt: &Statement, module: &str) -> (r: Option<DocItem>)
    ensures
        match doc_entry(*stmt) {
            None => r is None,
            Some(e) => r matches Some(it) && item_view(it) == e && it.module@ == module@,
        },
{
    match stmt {
        Statement::FunctionDef { name, params, return_type, effects, is_pub, doc_comment, .. } => {
            let doc = doc_text_of(doc_comment);
            if doc.as_str().is_empty() && !*is_pub {
                return None;
            }
            let signature = function_signature(name, params, return_type, effects);
            Some(
                DocItem {
                    kind: ItemKind::Function,
                    name: name.clone(),
                    module: String::from_str(module),
                    doc,
                    signature,
                    is_pub: *is_pub,
                },
            )
        },
        Statement::StructDef { name, fields, is_pub, doc_comment } => {
            let doc = doc_text_of(doc_comment);
            if doc.as_str().is_empty() && !*is_pub {
                return None;
            }
            let signature = struct_signature_text(name, fields);
            Some(
                DocItem {
                    kind: ItemKind::Struct,
                    name: name.clone(),
                    module: String::from_str(module),
                    doc,
                    signature,
                    is_pub: *is_pub,
                },
            )
        },
        Statement::EnumDef { name, is_pub, doc_comment, .. } => {
            let doc = doc_text_of(doc_comment);
            if doc.as_str().is_empty() && !*is_pub {
                return None;
            }
            let mut signature = String::from_str("enum ");
            signature.append(name.as_str());
            Some(
                DocItem {
                    kind: ItemKind::Enum,
                    name: name.clone(),
                    module: String::from_str(module),
                    doc,
                    signature,
                    is_pub: *is_pub,
                },
            )
        },
        Statement::TraitDef { name, is_pub, doc_comment, .. } => {
            let doc = doc_text_of(doc_comment);
            if doc.as_str().is_empty() && !*is_pub {
                return None;
            }
            let mut signature = String::from_str("trait ");
            signature.append(name.as_str());
            Some(
                DocItem {
                    kind: ItemKind::Trait,
                    name: name.clone(),
                    module: String::from_str(module),
                    doc,
                    signature,
                    is_pub: *is_pub,
                },
            )
        },
        _ => None,
    }
}

} // verus!
