//! Rendering documentation as HTML.
use vstd::prelude::*;
use crate::check::error::{decimal_string, decimal_text};
use crate::doc::{kind_class, kind_label, DocItem};
use crate::frontend::lexer::{lines_from, ranges_view, trim_m};

verus! {

/// How a character is written in HTML text.
pub open spec fn escape_char(c: char) -> Seq<char> {
    if c == '&' {
        "&amp;"@
    } else if c == '<' {
        "&lt;"@
    } else if c == '>' {
        "&gt;"@
    } else if c == '"' {
        "&quot;"@
    } else {
        seq![c]
    }
}

/// `s` with `&`, `<`, `>` and `"` written as HTML entities.
pub open spec fn escape_m(s: Seq<char>) -> Seq<char>
    decreases s.len(),
{
    if s.len() == 0 {
        Seq::empty()
    } else {
        escape_m(s.drop_last()) + escape_char(s.last())
    }
}

/// Reading HTML text back: the entities `&amp;`, `&lt;`, `&gt;` and
/// `&quot;` become the characters they stand for, read from the left.
pub open spec fn unescape_m(t: Seq<char>) -> Seq<char>
    decreases t.len(),
{
    if t.len() == 0 {
        Seq::empty()
    } else if t.len() >= 5 && t.take(5) == "&amp;"@ {
        seq!['&'] + unescape_m(t.skip(5))
    } else if t.len() >= 4 && t.take(4) == "&lt;"@ {
        seq!['<'] + unescape_m(t.skip(4))
    } else if t.len() >= 4 && t.take(4) == "&gt;"@ {
        seq!['>'] + unescape_m(t.skip(4))
    } else if t.len() >= 6 && t.take(6) == "&quot;"@ {
        seq!['"'] + unescape_m(t.skip(6))
    } else {
        seq![t[0]] + unescape_m(t.skip(1))
    }
}

/// Escaping text piece by piece is escaping it whole.
proof fn lemma_escape_concat(a: Seq<char>, b: Seq<char>)
    ensures
        escape_m(a + b) == escape_m(a) + escape_m(b),
    decreases b.len(),
{
    if b.len() == 0 {
        assert(a + b =~= a);
        assert(escape_m(a) + escape_m(b) =~= escape_m(a));
    } else {
        lemma_escape_concat(a, b.drop_last());
        assert((a + b).drop_last() =~= a + b.drop_last());
        assert((a + b).last() == b.last());
        assert(escape_m(a) + escape_m(b) =~= escape_m(a) + escape_m(b.drop_last()) + escape_char(b.last()));
    }
}

/// Reading back one escaped character.
proof fn lemma_unescape_char(c: char, rest: Seq<char>)
    ensures
        unescape_m(escape_char(c) + rest) == seq![c] + unescape_m(rest),
{
    reveal_strlit("&amp;");
    reveal_strlit("&lt;");
    reveal_strlit("&gt;");
    reveal_strlit("&quot;");
    let t = escape_char(c) + rest;
    let n = escape_char(c).len() as int;
    assert(t.skip(n) =~= rest);
    assert(t.take(n) =~= escape_char(c));
    if c != '&' && c != '<' && c != '>' && c != '"' {
        assert(t[0] == c);
        assert(t.len() >= 4 ==> t.take(4)[0] == c);
        assert(t.len() >= 5 ==> t.take(5)[0] == c);
        assert(t.len() >= 6 ==> t.take(6)[0] == c);
    } else if c == '<' {
        assert(t.take(5)[1] == 'l' || t.len() < 5);
    } else if c == '>' {
        assert(t.take(5)[1] == 'g' || t.len() < 5);
        assert(t.take(4)[1] == 'g');
    } else if c == '"' {
        assert(t.take(5)[1] == 'q');
        assert(t.take(4)[1] == 'q');
    }
}

/// Escaped text reads back as the text it came from, and holds no `<`,
/// `>` or `"`: every `&` in it begins an entity.
pub proof fn lemma_escape_round_trip(s: Seq<char>)
    ensures
        unescape_m(escape_m(s)) == s,
        forall|i: int|
            0 <= i < escape_m(s).len() ==> #[trigger] escape_m(s)[i] != '<' && escape_m(s)[i] != '>'
                && escape_m(s)[i] != '"',
    decreases s.len(),
{
    reveal_strlit("&amp;");
    reveal_strlit("&lt;");
    reveal_strlit("&gt;");
    reveal_strlit("&quot;");
    if s.len() > 0 {
        let rest = s.skip(1);
        lemma_escape_round_trip(rest);
        assert(seq![s[0]] + rest =~= s);
        lemma_escape_concat(seq![s[0]], rest);
        assert(escape_m(seq![s[0]]) =~= escape_char(s[0])) by {
            let one = seq![s[0]];
            assert(one.drop_last() =~= Seq::<char>::empty());
            assert(one.last() == s[0]);
            assert(escape_m(one) == escape_m(one.drop_last()) + escape_char(one.last()));
            assert(escape_m(Seq::<char>::empty()) == Seq::<char>::empty());
            assert(Seq::<char>::empty() + escape_char(s[0]) =~= escape_char(s[0]));
        }
        lemma_unescape_char(s[0], escape_m(rest));
        let e = escape_m(s);
        let h = escape_char(s[0]);
        assert(e =~= h + escape_m(rest));
        assert forall|i: int| 0 <= i < e.len() implies #[trigger] e[i] != '<' && e[i] != '>' && e[i] != '"' by {
            if i >= h.len() {
                assert(e[i] == escape_m(rest)[i - h.len()]);
            }
        }
    } else {
        assert(escape_m(s) =~= Seq::<char>::empty());
    }
}

/// Escape `&`, `<`, `>` and `"` for HTML.
pub fn html_escape(s: &str) -> (r: String)
    ensures
        r@ == escape_m(s@),
{
    let cs = crate::syntax::lexer::chars_of(s);
    let mut out = String::new();
    let mut i: usize = 0;
    while i < cs.len()
        invariant
            i <= cs@.len(),
            cs@ == s@,
            out@ == escape_m(s@.take(i as int)),
        decreases cs@.len() - i,
    {
        assert(s@.take(i + 1).drop_last() =~= s@.take(i as int));
        let c = cs[i];
        if c == '&' {
            out.append("&amp;");
        } else if c == '<' {
            out.append("&lt;");
        } else if c == '>' {
            out.append("&gt;");
        } else if c == '"' {
            out.append("&quot;");
        } else {
            let one = s.substring_char(i, i + 1);
            assert(one@ =~= seq![c]);
            out.append(one);
        }
        i = i + 1;
    }
    assert(s@.take(cs@.len() as int) =~= s@);
    out
}

/// Where a doc body stands after some of its lines: the HTML so far,
/// whether a code block is open, the open code block's text and the open
/// paragraph's text.
pub type BodyState = (Seq<char>, bool, Seq<char>, Seq<char>);

/// A paragraph of a doc body.
pub open spec fn para_html(p: Seq<char>) -> Seq<char> {
    "<p>"@ + escape_m(trim_m(p)) + "</p>"@
}

/// A code block of a doc body.
pub open spec fn code_html(c: Seq<char>) -> Seq<char> {
    "<pre class=\"code\"><code>"@ + escape_m(c) + "</code></pre>"@
}

/// Whether `cs` begins with `p`.
pub open spec fn begins_with(cs: Seq<char>, p: Seq<char>) -> bool {
    p.len() <= cs.len() && cs.subrange(0, p.len() as int) == p
}

/// The state after one more line of a doc body. A line of three backticks
/// opens or closes a code block; within one, lines are kept as they are;
/// outside, a blank line ends a paragraph and other lines, trimmed, join the
/// paragraph with a space between them.
pub open spec fn body_step(st: BodyState, line: Seq<char>) -> BodyState {
    let (html, in_code, code, para) = st;
    let t = trim_m(line);
    if begins_with(t, "```"@) {
        if in_code {
            (html + code_html(code), false, Seq::empty(), para)
        } else if para.len() > 0 {
            (html + para_html(para), true, code, Seq::empty())
        } else {
            (html, true, code, para)
        }
    } else if in_code {
        (html, true, code + line + "\n"@, para)
    } else if t.len() == 0 {
        if para.len() > 0 {
            (html + para_html(para), false, code, Seq::empty())
        } else {
            st
        }
    } else if para.len() > 0 {
        (html, false, code, para + " "@ + t)
    } else {
        (html, false, code, para + t)
    }
}

/// The state after the lines `ls`.
pub open spec fn body_fold(ls: Seq<Seq<char>>) -> BodyState
    decreases ls.len(),
{
    if ls.len() == 0 {
        (Seq::empty(), false, Seq::empty(), Seq::empty())
    } else {
        body_step(body_fold(ls.drop_last()), ls.last())
    }
}

/// The HTML of a doc comment: its paragraphs and code blocks, a paragraph or
/// a code block left open at the end closed there, and a note where there
/// is no documentation.
pub open spec fn doc_body_m(doc: Seq<char>) -> Seq<char> {
    if doc.len() == 0 {
        "<p class=\"no-doc\">No documentation.</p>"@
    } else {
        let (html, in_code, code, para) = body_fold(lines_from(doc, 0));
        let h = if para.len() > 0 {
            html + para_html(para)
        } else {
            html
        };
        if in_code && code.len() > 0 {
            h + code_html(code)
        } else {
            h
        }
    }
}

/// Append a paragraph.
fn push_para(html: &mut String, para: &String)
    ensures
        final(html)@ == old(html)@ + para_html(para@),
{
    let cs = crate::syntax::lexer::chars_of(para.as_str());
    let (a, b) = crate::frontend::lexer::trim_bounds(&cs);
    let t = para.as_str().substring_char(a, b);
    html.append("<p>");
    let e = html_escape(t);
    html.append(e.as_str());
    html.append("</p>");
}

/// Append a code block.
fn push_code(html: &mut String, code: &String)
    ensures
        final(html)@ == old(html)@ + code_html(code@),
{
    html.append("<pre class=\"code\"><code>");
    let e = html_escape(code.as_str());
    html.append(e.as_str());
    html.append("</code></pre>");
}

/// Render a doc comment as HTML: paragraphs of its text and its fenced code
/// blocks, escaped.
pub fn render_doc_body(doc: &str) -> (r: String)
    ensures
        r@ == doc_body_m(doc@),
{
    let cs = crate::syntax::lexer::chars_of(doc);
    if cs.len() == 0 {
        return String::from_str("<p class=\"no-doc\">No documentation.</p>");
    }
    let ranges = crate::frontend::lexer::line_ranges(&cs);
    let ghost ls = lines_from(doc@, 0);
    let mut html = String::new();
    let mut in_code = false;
    let mut code = String::new();
    let mut para = String::new();
    let mut i: usize = 0;
    assert(ls.take(0) =~= Seq::<Seq<char>>::empty());
    while i < ranges.len()
        invariant
            cs@ == doc@,
            ranges_view(cs@, ranges@) == ls,
            forall|k: int| 0 <= k < ranges@.len() ==> #[trigger] ranges@[k].0 <= ranges@[k].1 <= cs@.len(),
            i <= ranges@.len(),
            (html@, in_code, code@, para@) == body_fold(ls.take(i as int)),
        decreases ranges@.len() - i,
    {
        assert(ls.take(i + 1).drop_last() =~= ls.take(i as int));
        let (a, b) = ranges[i];
        assert(ranges@[i as int].0 <= ranges@[i as int].1 <= cs@.len());
        let line_cs = crate::frontend::lexer::copy_range(&cs, a, b);
        assert(line_cs@ == ls[i as int]);
        let (x, y) = crate::frontend::lexer::trim_bounds(&line_cs);
        let ghost t = trim_m(line_cs@);
        let fence = y - x >= 3 && line_cs[x] == '`' && line_cs[x + 1] == '`' && line_cs[x + 2] == '`';
        proof {
            assert(t == line_cs@.subrange(x as int, y as int));
            if fence {
                assert(t.subrange(0, 3) =~= "```"@) by {
                    reveal_strlit("```");
                }
            } else {
                reveal_strlit("```");
                assert(!begins_with(t, "```"@)) by {
                    if begins_with(t, "```"@) {
                        assert(t.subrange(0, 3)[0] == t[0]);
                        assert(t.subrange(0, 3)[1] == t[1]);
                        assert(t.subrange(0, 3)[2] == t[2]);
                    }
                }
            }
        }
        if fence {
            if in_code {
                push_code(&mut html, &code);
                code = String::new();
                in_code = false;
            } else {
                if !para.as_str().is_empty() {
                    push_para(&mut html, &para);
                    para = String::new();
                }
                in_code = true;
            }
        } else if in_code {
            code.append(doc.substring_char(a, b));
            code.append("\n");
        } else if y == x {
            if !para.as_str().is_empty() {
                push_para(&mut html, &para);
                para = String::new();
            }
        } else {
            if !para.as_str().is_empty() {
                para.append(" ");
            }
            para.append(doc.substring_char(a + x, a + y));
            assert(doc@.subrange(a + x, a + y) =~= t);
        }
        assert((html@, in_code, code@, para@) == body_fold(ls.take(i + 1)));
        i = i + 1;
    }
    assert(ls.take(ranges@.len() as int) =~= ls);
    if !para.as_str().is_empty() {
        push_para(&mut html, &para);
    }
    if in_code && !code.as_str().is_empty() {
        push_code(&mut html, &code);
    }
    html
}

// ── The index page ──────────────────────────────────────────

/// Texts in code-point order, which is the order of their UTF-8 bytes.
pub open spec fn text_lt(a: Seq<char>, b: Seq<char>) -> bool
    decreases a.len(),
{
    if b.len() == 0 {
        false
    } else if a.len() == 0 {
        true
    } else if a[0] != b[0] {
        a[0] < b[0]
    } else {
        text_lt(a.drop_first(), b.drop_first())
    }
}

/// `m` added to the ordered module names `ms`, unless it is there.
pub open spec fn insert_module(ms: Seq<Seq<char>>, m: Seq<char>) -> Seq<Seq<char>>
    decreases ms.len(),
{
    if ms.len() == 0 {
        seq![m]
    } else if ms[0] == m {
        ms
    } else if text_lt(m, ms[0]) {
        seq![m] + ms
    } else {
        seq![ms[0]] + insert_module(ms.drop_first(), m)
    }
}

/// The modules of the items, in order, each once.
pub open spec fn modules_of(items: Seq<DocItem>) -> Seq<Seq<char>>
    decreases items.len(),
{
    if items.len() == 0 {
        Seq::empty()
    } else {
        insert_module(modules_of(items.drop_last()), items.last().module@)
    }
}

/// The items of module `m`, in their order.
pub open spec fn module_items(items: Seq<DocItem>, m: Seq<char>) -> Seq<DocItem>
    decreases items.len(),
{
    if items.len() == 0 {
        Seq::empty()
    } else if items.last().module@ == m {
        module_items(items.drop_last(), m).push(items.last())
    } else {
        module_items(items.drop_last(), m)
    }
}

/// The article that documents one item.
pub open spec fn article_m(it: DocItem) -> Seq<char> {
    "<article class=\"item "@ + kind_class(it.kind) + "\" id=\""@ + it.module@ + "-"@ + it.name@
        + "\">\n                    <header>\n                        <span class=\"kind\">"@ + (
    if it.is_pub {
        "<span class=\"vis pub\">pub</span> "@
    } else {
        Seq::empty()
    }) + kind_label(it.kind) + "</span>\n                        <h3>"@ + it.name@
        + "</h3>\n                    </header>\n                    <pre class=\"signature\"><code>"@
        + escape_m(it.signature@) + "</code></pre>\n                    <div class=\"doc-body\">"@
        + doc_body_m(it.doc@) + "</div>\n                </article>"@
}

/// The articles of the items, in order.
pub open spec fn articles_m(items: Seq<DocItem>) -> Seq<char>
    decreases items.len(),
{
    if items.len() == 0 {
        Seq::empty()
    } else {
        articles_m(items.drop_last()) + article_m(items.last())
    }
}

/// The links to the modules.
pub open spec fn sidebar_m(ms: Seq<Seq<char>>) -> Seq<char>
    decreases ms.len(),
{
    if ms.len() == 0 {
        Seq::empty()
    } else {
        sidebar_m(ms.drop_last()) + "<li><a href=\"#module-"@ + ms.last() + "\">"@ + ms.last()
            + "</a></li>"@
    }
}

/// The section of one module.
pub open spec fn section_m(items: Seq<DocItem>, m: Seq<char>) -> Seq<char> {
    "<section class=\"module\" id=\"module-"@ + m + "\"><h2>module <span class=\"module-name\">"@
        + m + "</span></h2>"@ + articles_m(module_items(items, m)) + "</section>"@
}

/// The sections of the modules `ms`.
pub open spec fn sections_m(items: Seq<DocItem>, ms: Seq<Seq<char>>) -> Seq<char>
    decreases ms.len(),
{
    if ms.len() == 0 {
        Seq::empty()
    } else {
        sections_m(items, ms.drop_last()) + section_m(items, ms.last())
    }
}

/// The index page: a sidebar of the modules, the count of items and
/// modules, and a section per module with an article per item.
pub open spec fn index_m(items: Seq<DocItem>) -> Seq<char> {
    let ms = modules_of(items);
    "<!DOCTYPE html>\n<html lang=\"en\">\n<head>\n<meta charset=\"UTF-8\">\n<title>Nova Documentation</title>\n<link rel=\"stylesheet\" href=\"style.css\">\n</head>\n<body>\n<header class=\"site-header\">\n    <span class=\"logo\">\u{2726} Nova</span>\n    <span class=\"tagline\">Documentation</span>\n</header>\n<div class=\"layout\">"@
        + "<aside class=\"sidebar\"><h2>Modules</h2><ul>"@ + sidebar_m(ms) + "</ul></aside>"@
        + "<main class=\"content\">"@ + "<h1>Nova Documentation</h1><p class=\"meta\">"@
        + decimal_text(items.len()) + " item(s) across "@ + decimal_text(ms.len())
        + " module(s)</p>"@ + sections_m(items, ms) + "</main>"@ + "</div>\n</body>\n</html>"@
}

/// Whether texts are in strictly increasing code-point order.
pub open spec fn ascending(ms: Seq<Seq<char>>) -> bool {
    forall|i: int, j: int| 0 <= i < j < ms.len() ==> text_lt(#[trigger] ms[i], #[trigger] ms[j])
}

proof fn lemma_lt_irreflexive(a: Seq<char>)
    ensures
        !text_lt(a, a),
    decreases a.len(),
{
    if a.len() > 0 {
        lemma_lt_irreflexive(a.drop_first());
    }
}

proof fn lemma_lt_transitive(a: Seq<char>, b: Seq<char>, c: Seq<char>)
    requires
        text_lt(a, b),
        text_lt(b, c),
    ensures
        text_lt(a, c),
    decreases a.len(),
{
    if a.len() > 0 && b.len() > 0 && c.len() > 0 && a[0] == b[0] && b[0] == c[0] {
        lemma_lt_transitive(a.drop_first(), b.drop_first(), c.drop_first());
    }
}

proof fn lemma_lt_total(a: Seq<char>, b: Seq<char>)
    requires
        a != b,
    ensures
        text_lt(a, b) || text_lt(b, a),
    decreases a.len(),
{
    if a.len() == 0 && b.len() == 0 {
        assert(a =~= b);
    }
    if a.len() > 0 && b.len() > 0 && a[0] == b[0] {
        if a.drop_first() == b.drop_first() {
            assert(a =~= seq![a[0]] + a.drop_first());
            assert(b =~= seq![b[0]] + b.drop_first());
        }
        lemma_lt_total(a.drop_first(), b.drop_first());
    }
}

proof fn lemma_insert_module(ms: Seq<Seq<char>>, m: Seq<char>)
    requires
        ascending(ms),
    ensures
        ascending(insert_module(ms, m)),
        forall|x: Seq<char>|
            #![trigger insert_module(ms, m).contains(x)]
            insert_module(ms, m).contains(x) <==> (ms.contains(x) || x == m),
    decreases ms.len(),
{
    let r = insert_module(ms, m);
    if ms.len() == 0 {
        assert(r =~= seq![m]);
        assert forall|x: Seq<char>| r.contains(x) <==> (ms.contains(x) || x == m) by {
            if r.contains(x) {
                assert(r[0] == x);
            }
            if x == m {
                assert(r[0] == m);
            }
        }
    } else if ms[0] == m {
        assert forall|x: Seq<char>| r.contains(x) <==> (ms.contains(x) || x == m) by {
            if x == m {
                assert(ms[0] == x);
            }
        }
    } else if text_lt(m, ms[0]) {
        assert forall|i: int, j: int| 0 <= i < j < r.len() implies text_lt(#[trigger] r[i], #[trigger] r[j]) by {
            if i == 0 {
                assert(r[j] == ms[j - 1]);
                if j - 1 > 0 {
                    assert(text_lt(ms[0], ms[j - 1]));
                    lemma_lt_transitive(m, ms[0], ms[j - 1]);
                }
            } else {
                assert(r[i] == ms[i - 1] && r[j] == ms[j - 1]);
            }
        }
        assert forall|x: Seq<char>| r.contains(x) <==> (ms.contains(x) || x == m) by {
            if r.contains(x) {
                let k = choose|k: int| 0 <= k < r.len() && r[k] == x;
                if k > 0 {
                    assert(ms[k - 1] == x);
                }
            }
            if ms.contains(x) {
                let k = choose|k: int| 0 <= k < ms.len() && ms[k] == x;
                assert(r[k + 1] == x);
            }
            if x == m {
                assert(r[0] == x);
            }
        }
    } else {
        lemma_lt_total(m, ms[0]);
        let rest = ms.drop_first();
        assert(ascending(rest)) by {
            assert forall|i: int, j: int| 0 <= i < j < rest.len() implies text_lt(#[trigger] rest[i], #[trigger] rest[j]) by {
                assert(rest[i] == ms[i + 1] && rest[j] == ms[j + 1]);
            }
        }
        lemma_insert_module(rest, m);
        let t = insert_module(rest, m);
        assert(r =~= seq![ms[0]] + t);
        assert forall|i: int, j: int| 0 <= i < j < r.len() implies text_lt(#[trigger] r[i], #[trigger] r[j]) by {
            if i == 0 {
                let y = t[j - 1];
                assert(r[j] == y);
                assert(t[j - 1] == y);
                assert(t.contains(y));
                assert(rest.contains(y) || y == m);
                if y != m {
                    let k = choose|k: int| 0 <= k < rest.len() && rest[k] == y;
                    assert(ms[k + 1] == y);
                    assert(text_lt(ms[0], ms[k + 1]));
                }
            } else {
                assert(r[i] == t[i - 1] && r[j] == t[j - 1]);
            }
        }
        assert forall|x: Seq<char>| r.contains(x) <==> (ms.contains(x) || x == m) by {
            if r.contains(x) {
                let k = choose|k: int| 0 <= k < r.len() && r[k] == x;
                if k > 0 {
                    assert(r.len() == t.len() + 1);
                    assert(t[k - 1] == x);
                    assert(0 <= k - 1 < t.len());
                    assert(t.contains(x));
                    if rest.contains(x) {
                        let q = choose|q: int| 0 <= q < rest.len() && rest[q] == x;
                        assert(ms[q + 1] == x);
                    }
                } else {
                    assert(ms[0] == x);
                }
            }
            if ms.contains(x) {
                let k = choose|k: int| 0 <= k < ms.len() && ms[k] == x;
                if k == 0 {
                    assert(r[0] == x);
                } else {
                    assert(rest[k - 1] == x);
                    assert(rest.contains(x));
                    assert(t.contains(x));
                    let q = choose|q: int| 0 <= q < t.len() && t[q] == x;
                    assert(r[q + 1] == x);
                }
            }
            if x == m {
                assert(t.contains(x));
                let q = choose|q: int| 0 <= q < t.len() && t[q] == x;
                assert(r[q + 1] == x);
            }
        }
    }
}

/// The index lists the module of every item, and no other, each once and in
/// code-point order.
pub proof fn lemma_modules_ordered(items: Seq<DocItem>)
    ensures
        ascending(modules_of(items)),
        forall|m: Seq<char>|
            #![trigger modules_of(items).contains(m)]
            modules_of(items).contains(m) <==> exists|k: int|
                0 <= k < items.len() && items[k].module@ == m,
    decreases items.len(),
{
    if items.len() > 0 {
        let init = items.drop_last();
        lemma_modules_ordered(init);
        lemma_insert_module(modules_of(init), items.last().module@);
        assert forall|m: Seq<char>|
            modules_of(items).contains(m) <== exists|k: int|
                0 <= k < items.len() && items[k].module@ == m by {
            if exists|k: int| 0 <= k < items.len() && items[k].module@ == m {
                let k = choose|k: int| 0 <= k < items.len() && items[k].module@ == m;
                if k < items.len() - 1 {
                    assert(init[k] == items[k]);
                    assert(modules_of(init).contains(m));
                } else {
                    assert(m == items.last().module@);
                }
                assert(modules_of(items) == insert_module(modules_of(init), items.last().module@));
            }
        }
        assert forall|m: Seq<char>|
            modules_of(items).contains(m) implies exists|k: int|
                0 <= k < items.len() && items[k].module@ == m by {
            assert(modules_of(items) == insert_module(modules_of(init), items.last().module@));
            if modules_of(init).contains(m) {
                let k = choose|k: int| 0 <= k < init.len() && init[k].module@ == m;
                assert(items[k] == init[k]);
            } else {
                assert(items[items.len() - 1].module@ == m);
            }
        }
    }
}

/// Two modules' sections never show the same item: an item is in the
/// section of its own module only.
pub proof fn lemma_module_items(items: Seq<DocItem>, m: Seq<char>)
    ensures
        forall|i: int| 0 <= i < module_items(items, m).len() ==> (#[trigger] module_items(items, m)[i]).module@ == m,
        module_items(items, m).len() <= items.len(),
    decreases items.len(),
{
    if items.len() > 0 {
        lemma_module_items(items.drop_last(), m);
    }
}

/// The texts of strings.
pub open spec fn names_view(v: Seq<String>) -> Seq<Seq<char>> {
    Seq::new(v.len(), |i: int| v[i]@)
}

/// Whether `a` comes before `b` in code-point order.
fn text_less(a: &String, b: &String) -> (r: bool)
    ensures
        r == text_lt(a@, b@),
{
    let xs = crate::syntax::lexer::chars_of(a.as_str());
    let ys = crate::syntax::lexer::chars_of(b.as_str());
    let mut i: usize = 0;
    assert(xs@.subrange(0, xs@.len() as int) =~= xs@);
    assert(ys@.subrange(0, ys@.len() as int) =~= ys@);
    while i < xs.len() && i < ys.len() && xs[i] == ys[i]
        invariant
            xs@ == a@,
            ys@ == b@,
            i <= xs@.len(),
            i <= ys@.len(),
            text_lt(a@, b@) == text_lt(
                xs@.subrange(i as int, xs@.len() as int),
                ys@.subrange(i as int, ys@.len() as int),
            ),
        decreases xs@.len() - i,
    {
        assert(xs@.subrange(i as int, xs@.len() as int).drop_first() =~= xs@.subrange(
            i + 1,
            xs@.len() as int,
        ));
        assert(ys@.subrange(i as int, ys@.len() as int).drop_first() =~= ys@.subrange(
            i + 1,
            ys@.len() as int,
        ));
        i = i + 1;
    }
    if i >= ys.len() {
        false
    } else if i >= xs.len() {
        true
    } else {
        xs[i] < ys[i]
    }
}

/// Add `m` to the ordered module names, unless it is there.
fn insert_name(ms: &mut Vec<String>, m: &String)
    ensures
        names_view(final(ms)@) == insert_module(names_view(old(ms)@), m@),
{
    let ghost v = names_view(ms@);
    let mut i: usize = 0;
    assert(v.subrange(0, v.len() as int) =~= v);
    while i < ms.len() && !(ms[i] == *m) && !text_less(m, &ms[i])
        invariant
            v == names_view(ms@),
            i <= ms@.len(),
            insert_module(v, m@) == v.take(i as int) + insert_module(
                v.subrange(i as int, v.len() as int),
                m@,
            ),
        decreases ms@.len() - i,
    {
        let ghost rest = v.subrange(i as int, v.len() as int);
        assert(rest[0] == ms@[i as int]@);
        assert(rest.drop_first() =~= v.subrange(i + 1, v.len() as int));
        assert(v.take(i as int) + (seq![rest[0]] + insert_module(rest.drop_first(), m@)) =~= v.take(
            i + 1,
        ) + insert_module(v.subrange(i + 1, v.len() as int), m@));
        i = i + 1;
    }
    if i == ms.len() {
        assert(v.subrange(i as int, v.len() as int) =~= Seq::<Seq<char>>::empty());
        ms.push(m.clone());
        assert(names_view(ms@) =~= v.take(i as int) + seq![m@]);
    } else if ms[i] == *m {
        assert(v.take(i as int) + v.subrange(i as int, v.len() as int) =~= v);
    } else {
        let ghost rest = v.subrange(i as int, v.len() as int);
        assert(rest[0] == ms@[i as int]@);
        ms.insert(i, m.clone());
        assert(names_view(ms@) =~= v.take(i as int) + (seq![m@] + rest));
    }
}

/// Append the article of one item.
fn push_article(out: &mut String, it: &DocItem)
    ensures
        final(out)@ == old(out)@ + article_m(*it),
{
    let ghost start = out@;
    out.append("<article class=\"item ");
    out.append(it.kind.color_class());
    out.append("\" id=\"");
    out.append(it.module.as_str());
    out.append("-");
    out.append(it.name.as_str());
    out.append("\">\n                    <header>\n                        <span class=\"kind\">");
    if it.is_pub {
        out.append("<span class=\"vis pub\">pub</span> ");
    }
    out.append(it.kind.as_str());
    out.append("</span>\n                        <h3>");
    out.append(it.name.as_str());
    out.append("</h3>\n                    </header>\n                    <pre class=\"signature\"><code>");
    let sig = html_escape(it.signature.as_str());
    out.append(sig.as_str());
    out.append("</code></pre>\n                    <div class=\"doc-body\">");
    let body = render_doc_body(it.doc.as_str());
    out.append(body.as_str());
    out.append("</div>\n                </article>");
    assert(out@ =~= start + article_m(*it));
}

/// Append the section of module `m`.
fn push_section(out: &mut String, items: &Vec<DocItem>, m: &String)
    ensures
        final(out)@ == old(out)@ + section_m(items@, m@),
{
    let ghost start = out@;
    out.append("<section class=\"module\" id=\"module-");
    out.append(m.as_str());
    out.append("\"><h2>module <span class=\"module-name\">");
    out.append(m.as_str());
    out.append("</span></h2>");
    let ghost base = out@;
    let mut j: usize = 0;
    assert(items@.take(0) =~= Seq::<DocItem>::empty());
    while j < items.len()
        invariant
            j <= items@.len(),
            out@ == base + articles_m(module_items(items@.take(j as int), m@)),
        decreases items@.len() - j,
    {
        let ghost prev = module_items(items@.take(j as int), m@);
        assert(items@.take(j + 1).drop_last() =~= items@.take(j as int));
        if items[j].module == *m {
            push_article(out, &items[j]);
            assert(prev.push(items@[j as int]).drop_last() =~= prev);
        }
        j = j + 1;
    }
    assert(items@.take(items@.len() as int) =~= items@);
    out.append("</section>");
    assert(out@ =~= start + section_m(items@, m@));
}

/// Render the index page of the documented items, grouped by module, the
/// modules in order.
pub fn render_index(items: &Vec<DocItem>) -> (r: String)
    ensures
        r@ == index_m(items@),
{
    let mut ms: Vec<String> = Vec::new();
    let mut k: usize = 0;
    assert(items@.take(0) =~= Seq::<DocItem>::empty());
    assert(names_view(ms@) =~= Seq::<Seq<char>>::empty());
    while k < items.len()
        invariant
            k <= items@.len(),
            names_view(ms@) == modules_of(items@.take(k as int)),
        decreases items@.len() - k,
    {
        assert(items@.take(k + 1).drop_last() =~= items@.take(k as int));
        insert_name(&mut ms, &items[k].module);
        k = k + 1;
    }
    assert(items@.take(items@.len() as int) =~= items@);
    let ghost mv = names_view(ms@);
    let mut out = String::from_str(
        "<!DOCTYPE html>\n<html lang=\"en\">\n<head>\n<meta charset=\"UTF-8\">\n<title>Nova Documentation</title>\n<link rel=\"stylesheet\" href=\"style.css\">\n</head>\n<body>\n<header class=\"site-header\">\n    <span class=\"logo\">\u{2726} Nova</span>\n    <span class=\"tagline\">Documentation</span>\n</header>\n<div class=\"layout\">",
    );
    out.append("<aside class=\"sidebar\"><h2>Modules</h2><ul>");
    let ghost side = out@;
    let mut s: usize = 0;
    assert(mv.take(0) =~= Seq::<Seq<char>>::empty());
    while s < ms.len()
        invariant
            mv == names_view(ms@),
            s <= ms@.len(),
            out@ == side + sidebar_m(mv.take(s as int)),
        decreases ms@.len() - s,
    {
        assert(mv.take(s + 1).drop_last() =~= mv.take(s as int));
        out.append("<li><a href=\"#module-");
        out.append(ms[s].as_str());
        out.append("\">");
        out.append(ms[s].as_str());
        out.append("</a></li>");
        s = s + 1;
    }
    assert(mv.take(ms@.len() as int) =~= mv);
    out.append("</ul></aside>");
    out.append("<main class=\"content\">");
    out.append("<h1>Nova Documentation</h1><p class=\"meta\">");
    let n_items = decimal_string(items.len());
    out.append(n_items.as_str());
    out.append(" item(s) across ");
    let n_modules = decimal_string(ms.len());
    out.append(n_modules.as_str());
    out.append(" module(s)</p>");
    let ghost body = out@;
    let mut s: usize = 0;
    while s < ms.len()
        invariant
            mv == names_view(ms@),
            s <= ms@.len(),
            out@ == body + sections_m(items@, mv.take(s as int)),
        decreases ms@.len() - s,
    {
        assert(mv.take(s + 1).drop_last() =~= mv.take(s as int));
        push_section(&mut out, items, &ms[s]);
        s = s + 1;
    }
    out.append("</main>");
    out.append("</div>\n</body>\n</html>");
    assert(out@ =~= index_m(items@));
    out
}

} // verus!
