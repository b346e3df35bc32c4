use nova::doc::html::{html_escape, render_doc_body, render_index};
use nova::doc::{extract_doc_item, format_params, format_type, DocItem, ItemKind};
use nova::infer::ast::{EnumVariant, Field, Parameter, Statement, TraitMethod, TypeExpr};

fn named(s: &str) -> TypeExpr {
    TypeExpr::Named(s.to_string())
}

fn param(n: &str, t: TypeExpr) -> Parameter {
    Parameter { name: n.to_string(), type_annotation: t, default: None }
}

fn function(name: &str, is_pub: bool, doc: Option<&str>) -> Statement {
    Statement::FunctionDef {
        name: name.to_string(),
        params: vec![param("a", named("int")), param("xs", TypeExpr::Generic("list".to_string(), vec![named("str")]))],
        return_type: Some(TypeExpr::Optional(Box::new(named("int")))),
        effects: vec!["io".to_string(), "net".to_string()],
        body: vec![],
        decorators: vec![],
        is_pub,
        doc_comment: doc.map(|d| d.to_string()),
    }
}

fn item(kind: ItemKind, name: &str, module: &str, is_pub: bool) -> DocItem {
    DocItem {
        kind,
        name: name.to_string(),
        module: module.to_string(),
        doc: String::new(),
        signature: format!("{} {}", kind.as_str(), name),
        is_pub,
    }
}

#[test]
fn kinds_have_labels_and_classes() {
    assert_eq!(ItemKind::Function.as_str(), "fn");
    assert_eq!(ItemKind::Trait.as_str(), "trait");
    assert_eq!(ItemKind::Struct.color_class(), "kind-struct");
    assert_eq!(ItemKind::Enum.color_class(), "kind-enum");
}

#[test]
fn function_signature_shows_params_result_and_effects() {
    let it = extract_doc_item(&function("load", true, None), "main").unwrap();
    assert_eq!(it.kind, ItemKind::Function);
    assert_eq!(it.name, "load");
    assert_eq!(it.module, "main");
    assert_eq!(it.doc, "");
    assert!(it.is_pub);
    assert_eq!(it.signature, "fn load(a: int, xs: list[str]) -> int? [io, net]");
}

#[test]
fn private_undocumented_items_are_left_out() {
    assert!(extract_doc_item(&function("helper", false, None), "m").is_none());
    assert!(extract_doc_item(&function("helper", false, Some("")), "m").is_none());
    let documented = extract_doc_item(&function("helper", false, Some("Does things.")), "m").unwrap();
    assert_eq!(documented.doc, "Does things.");
    assert!(!documented.is_pub);
    assert!(extract_doc_item(&Statement::Break, "m").is_none());
}

#[test]
fn struct_signature_lists_fields() {
    let st = Statement::StructDef {
        name: "Point".to_string(),
        fields: vec![
            Field { name: "x".to_string(), type_annotation: named("float"), default: None, is_pub: true },
            Field { name: "y".to_string(), type_annotation: named("float"), default: None, is_pub: true },
        ],
        is_pub: true,
        doc_comment: None,
    };
    let it = extract_doc_item(&st, "geo").unwrap();
    assert_eq!(it.kind, ItemKind::Struct);
    assert_eq!(it.signature, "struct Point:\n    x: float\n    y: float");
    let empty = Statement::StructDef { name: "Unit".to_string(), fields: vec![], is_pub: true, doc_comment: None };
    assert_eq!(extract_doc_item(&empty, "geo").unwrap().signature, "struct Unit:");
}

#[test]
fn enum_and_trait_signatures() {
    let e = Statement::EnumDef {
        name: "Color".to_string(),
        variants: vec![EnumVariant { name: "Red".to_string(), fields: None }],
        is_pub: false,
        doc_comment: Some("Colors.".to_string()),
    };
    let it = extract_doc_item(&e, "paint").unwrap();
    assert_eq!((it.kind, it.signature.as_str(), it.doc.as_str()), (ItemKind::Enum, "enum Color", "Colors."));
    let t = Statement::TraitDef {
        name: "Show".to_string(),
        methods: Vec::<TraitMethod>::new(),
        is_pub: true,
        doc_comment: None,
    };
    let it = extract_doc_item(&t, "paint").unwrap();
    assert_eq!((it.kind, it.signature.as_str()), (ItemKind::Trait, "trait Show"));
}

#[test]
fn types_and_params_are_written_as_in_source() {
    let f = TypeExpr::Function(vec![named("int"), named("str")], Box::new(TypeExpr::Result(Box::new(named("int")), Box::new(named("Error")))));
    assert_eq!(format_type(&f), "(int, str) -> int or Error");
    assert_eq!(format_type(&TypeExpr::Tuple(vec![named("a"), named("b")])), "(a, b)");
    assert_eq!(format_params(&vec![]), "");
    assert_eq!(format_params(&vec![param("n", named("int"))]), "n: int");
}

#[test]
fn html_escape_replaces_markup_characters() {
    assert_eq!(html_escape("a < b && c > \"d\""), "a &lt; b &amp;&amp; c &gt; &quot;d&quot;");
    assert_eq!(html_escape("plain ✦ text"), "plain ✦ text");
    assert_eq!(html_escape(""), "");
}

#[test]
fn doc_body_paragraphs_and_code() {
    assert_eq!(render_doc_body(""), "<p class=\"no-doc\">No documentation.</p>");
    assert_eq!(render_doc_body("one\n  two  \n\nthree"), "<p>one two</p><p>three</p>");
    assert_eq!(
        render_doc_body("Example:\n```\nlet x = 1 < 2\n```\nafter"),
        "<p>Example:</p><pre class=\"code\"><code>let x = 1 &lt; 2\n</code></pre><p>after</p>"
    );
    // an unclosed code block is closed at the end
    assert_eq!(render_doc_body("```\n  a\n"), "<pre class=\"code\"><code>  a\n</code></pre>");
    // an empty unclosed code block is dropped
    assert_eq!(render_doc_body("text\n```"), "<p>text</p>");
}

#[test]
fn index_groups_items_by_module_in_order() {
    let items = vec![
        item(ItemKind::Function, "zeta", "web", true),
        item(ItemKind::Struct, "Alpha", "core", false),
        item(ItemKind::Enum, "Beta", "web", true),
    ];
    let html = render_index(&items);
    assert!(html.starts_with("<!DOCTYPE html>\n<html lang=\"en\">"));
    assert!(html.ends_with("</main></div>\n</body>\n</html>"));
    assert!(html.contains("<p class=\"meta\">3 item(s) across 2 module(s)</p>"));
    assert!(html.contains(
        "<ul><li><a href=\"#module-core\">core</a></li><li><a href=\"#module-web\">web</a></li></ul>"
    ));
    let core = html.find("id=\"module-core\"").unwrap();
    let web = html.find("id=\"module-web\"").unwrap();
    let zeta = html.find("id=\"web-zeta\"").unwrap();
    let beta = html.find("id=\"web-Beta\"").unwrap();
    assert!(core < web && web < zeta && zeta < beta);
    assert!(html.contains(
        "<article class=\"item kind-struct\" id=\"core-Alpha\">\n                    <header>\n                        <span class=\"kind\">struct</span>"
    ));
    assert!(html.contains("<span class=\"kind\"><span class=\"vis pub\">pub</span> fn</span>"));
    assert!(html.contains("<div class=\"doc-body\"><p class=\"no-doc\">No documentation.</p></div>"));
}

#[test]
fn index_of_nothing() {
    let html = render_index(&vec![]);
    assert!(html.contains("<ul></ul></aside><main class=\"content\"><h1>Nova Documentation</h1><p class=\"meta\">0 item(s) across 0 module(s)</p></main>"));
}

#[test]
fn index_escapes_signatures() {
    let mut it = item(ItemKind::Function, "cmp", "m", true);
    it.signature = "fn cmp(a: list[int]) -> bool".to_string();
    it.doc = "Is a < b?".to_string();
    let html = render_index(&vec![it]);
    assert!(html.contains("<code>fn cmp(a: list[int]) -&gt; bool</code>"));
    assert!(html.contains("<p>Is a &lt; b?</p>"));
}
