//! Where a statement parse ends: for each statement form, the position
//! after the tokens it reads from a given position, or `None` where it
//! fails. Expressions end where `expression_end` says.
use vstd::prelude::*;
use crate::frontend::grammar::{expression_end, noise_end, args_end};
use crate::frontend::parser::{kind_at_m, blank_end};
use crate::frontend::token::{Token, TokenKind};

verus! {

/// Whether the token at `q` is of kind `k` (past the end: `Eof`).
pub open spec fn is_at(t: Seq<Token>, q: int, k: TokenKind) -> bool {
    kind_at_m(t, q) == k
}

/// Where an expression read from `p` ends, without whether it is a name.
pub open spec fn expr_stop(t: Seq<Token>, p: int) -> Option<int> {
    match expression_end(t, p) {
        Some((q, _)) => Some(q),
        None => None,
    }
}

// ── Types ───────────────────────────────────────────────────

/// Where a type at `p` ends: a name, `none` or `Self`, and type arguments
/// in brackets.
pub open spec fn type_end(t: Seq<Token>, p: int) -> Option<int>
    decreases t.len() - p, 1int,
{
    if !(0 <= p && (is_at(t, p, TokenKind::NoneKw) || is_at(t, p, TokenKind::SelfKw) || is_at(
        t,
        p,
        TokenKind::Identifier,
    ))) {
        None
    } else if is_at(t, p + 1, TokenKind::LBracket) {
        match type_end(t, p + 2) {
            Some(q) => if p + 2 < q <= t.len() {
                type_args_end(t, q)
            } else {
                None
            },
            None => None,
        }
    } else {
        Some(p + 1)
    }
}

/// Where the type arguments from `q`, after the first one, and the `]`
/// end.
pub open spec fn type_args_end(t: Seq<Token>, q: int) -> Option<int>
    decreases t.len() - q, 0int,
{
    if is_at(t, q, TokenKind::Comma) {
        match type_end(t, q + 1) {
            Some(k) => if q < k <= t.len() {
                type_args_end(t, k)
            } else {
                None
            },
            None => None,
        }
    } else if is_at(t, q, TokenKind::RBracket) {
        Some(q + 1)
    } else {
        None
    }
}

// ── Doc comments ────────────────────────────────────────────

/// Whether a line break comes at `i` before anything but comments.
pub open spec fn has_blank(t: Seq<Token>, i: int) -> bool
    decreases t.len() - i,
{
    if 0 <= i < t.len() {
        if t[i].kind == TokenKind::Newline {
            true
        } else if t[i].kind == TokenKind::Comment {
            has_blank(t, i + 1)
        } else {
            false
        }
    } else {
        false
    }
}

/// Where the doc comments from `q` end: doc comments and comments, and line
/// breaks while a doc comment follows them; the line break after the last
/// doc comment is taken.
pub open spec fn doc_end(t: Seq<Token>, q: int) -> int
    decreases t.len() - q,
{
    if q < 0 || q >= t.len() {
        q
    } else if t[q].kind == TokenKind::DocComment || t[q].kind == TokenKind::Comment {
        doc_end(t, q + 1)
    } else if t[q].kind == TokenKind::Newline {
        let n = noise_end(t, q + 1);
        if n < t.len() && t[n].kind == TokenKind::DocComment {
            let k = if has_blank(t, q + 1) {
                n
            } else {
                q + 1
            };
            if q < k <= t.len() {
                doc_end(t, k)
            } else {
                k
            }
        } else {
            q + 1
        }
    } else {
        q
    }
}

// ── Statements ──────────────────────────────────────────────

/// Where a statement read from `p` ends.
pub open spec fn stmt_end(t: Seq<Token>, p: int) -> Option<int>
    decreases t.len() - p, 50int,
{
    let q0 = noise_end(t, p);
    let q = if is_at(t, q0, TokenKind::DocComment) {
        doc_end(t, q0)
    } else {
        q0
    };
    if !(0 <= p <= q <= t.len()) {
        None
    } else {
        match kind_at_m(t, q) {
            TokenKind::At => decorators_end(t, q),
            TokenKind::Fn => fn_end(t, q),
            TokenKind::Pure => fn_end(t, q + 1),
            TokenKind::Pub => pub_end(t, q),
            TokenKind::Let => let_end(t, q, false),
            TokenKind::Const => const_end(t, q),
            TokenKind::If => if_end(t, q),
            TokenKind::For => for_end(t, q),
            TokenKind::While => while_end(t, q),
            TokenKind::Return => return_end(t, q),
            TokenKind::Require | TokenKind::Ensure => expr_stop(t, q + 1),
            TokenKind::Struct => struct_end(t, q),
            TokenKind::Trait => trait_end(t, q),
            TokenKind::Enum => enum_end(t, q),
            TokenKind::Impl => impl_end(t, q),
            TokenKind::Import => import_end(t, q),
            TokenKind::Match => match_end(t, q),
            TokenKind::Break | TokenKind::Continue => Some(q + 1),
            _ => exprstmt_end(t, q),
        }
    }
}

/// Where an expression statement or an assignment `target = value` at `p`
/// ends.
pub open spec fn exprstmt_end(t: Seq<Token>, p: int) -> Option<int> {
    match expr_stop(t, p) {
        Some(k) => if is_at(t, k, TokenKind::Assign) {
            expr_stop(t, k + 1)
        } else {
            Some(k)
        },
        None => None,
    }
}

/// Where `return` at `p` and its value, unless the line or block ends
/// there, end.
pub open spec fn return_end(t: Seq<Token>, p: int) -> Option<int> {
    if is_at(t, p + 1, TokenKind::Newline) || is_at(t, p + 1, TokenKind::Eof) || is_at(
        t,
        p + 1,
        TokenKind::Dedent,
    ) {
        Some(p + 1)
    } else {
        expr_stop(t, p + 1)
    }
}

/// Where `for x in iterable:` at `p` and its block end.
pub open spec fn for_end(t: Seq<Token>, p: int) -> Option<int>
    decreases t.len() - p, 46int,
{
    if 0 <= p && is_at(t, p, TokenKind::For) && is_at(t, p + 1, TokenKind::Identifier) && is_at(
        t,
        p + 2,
        TokenKind::In,
    ) {
        match expr_stop(t, p + 3) {
            Some(c) => if is_at(t, c, TokenKind::Colon) && p < c {
                block_end(t, c + 1)
            } else {
                None
            },
            None => None,
        }
    } else {
        None
    }
}

/// Where `while c:` at `p` and its block end.
pub open spec fn while_end(t: Seq<Token>, p: int) -> Option<int>
    decreases t.len() - p, 46int,
{
    if 0 <= p && is_at(t, p, TokenKind::While) {
        match expr_stop(t, p + 1) {
            Some(c) => if is_at(t, c, TokenKind::Colon) && p < c {
                block_end(t, c + 1)
            } else {
                None
            },
            None => None,
        }
    } else {
        None
    }
}

/// Where `trait Name:` at `p` and its block end.
pub open spec fn trait_end(t: Seq<Token>, p: int) -> Option<int>
    decreases t.len() - p, 46int,
{
    if 0 <= p && is_at(t, p, TokenKind::Trait) && is_at(t, p + 1, TokenKind::Identifier) && is_at(
        t,
        p + 2,
        TokenKind::Colon,
    ) {
        block_end(t, p + 3)
    } else {
        None
    }
}

/// Where decorators from `q`, each on its own line, and the function or
/// struct they decorate end.
pub open spec fn decorators_end(t: Seq<Token>, q: int) -> Option<int>
    decreases t.len() - q, 48int,
{
    if is_at(t, q, TokenKind::At) {
        if !is_at(t, q + 1, TokenKind::Identifier) {
            None
        } else {
            match (if is_at(t, q + 2, TokenKind::LParen) {
                args_end(t, q + 3, TokenKind::RParen)
            } else {
                Some(q + 2)
            }) {
                Some(k) => {
                    let k2 = blank_end(t, k);
                    if 0 <= q < k2 <= t.len() {
                        decorators_end(t, k2)
                    } else {
                        None
                    }
                },
                None => None,
            }
        }
    } else if !(0 <= q <= t.len()) {
        None
    } else {
        match kind_at_m(t, q) {
            TokenKind::Fn => fn_end(t, q),
            TokenKind::Pure => fn_end(t, q + 1),
            TokenKind::Struct => struct_end(t, q),
            TokenKind::Pub => match kind_at_m(t, q + 1) {
                TokenKind::Fn => fn_end(t, q + 1),
                TokenKind::Pure => fn_end(t, q + 2),
                TokenKind::Struct => struct_end(t, q + 1),
                _ => None,
            },
            _ => None,
        }
    }
}

/// Where `pub` at `p` and the function, struct, enum or trait after it
/// end.
pub open spec fn pub_end(t: Seq<Token>, p: int) -> Option<int>
    decreases t.len() - p, 48int,
{
    match kind_at_m(t, p + 1) {
        TokenKind::Fn => fn_end(t, p + 1),
        TokenKind::Pure => fn_end(t, p + 2),
        TokenKind::Struct => struct_end(t, p + 1),
        TokenKind::Enum => enum_end(t, p + 1),
        TokenKind::Trait => trait_end(t, p + 1),
        _ => None,
    }
}

/// Where `struct Name:` at `p` and its block end.
pub open spec fn struct_end(t: Seq<Token>, p: int) -> Option<int>
    decreases t.len() - p, 46int,
{
    if 0 <= p && is_at(t, p, TokenKind::Struct) && is_at(t, p + 1, TokenKind::Identifier) && is_at(
        t,
        p + 2,
        TokenKind::Colon,
    ) {
        block_end(t, p + 3)
    } else {
        None
    }
}

/// Where the parameters of a function from `q` and the `)` end.
pub open spec fn params_end(t: Seq<Token>, q: int) -> Option<int>
    decreases t.len() - q,
{
    if is_at(t, q, TokenKind::RParen) {
        Some(q + 1)
    } else if !(0 <= q && (is_at(t, q, TokenKind::SelfKw) || is_at(t, q, TokenKind::Identifier))) {
        None
    } else {
        match (if is_at(t, q + 1, TokenKind::Colon) {
            type_end(t, q + 2)
        } else {
            Some(q + 1)
        }) {
            Some(k) => if q < k <= t.len() {
                params_end(
                    t,
                    if is_at(t, k, TokenKind::Comma) {
                        k + 1
                    } else {
                        k
                    },
                )
            } else {
                None
            },
            None => None,
        }
    }
}

/// Where effect names from `q` and the `]` end.
pub open spec fn effects_end(t: Seq<Token>, q: int) -> Option<int>
    decreases t.len() - q,
{
    if is_at(t, q, TokenKind::RBracket) {
        Some(q + 1)
    } else if !(0 <= q && is_at(t, q, TokenKind::Identifier)) {
        None
    } else {
        effects_end(
            t,
            if is_at(t, q + 1, TokenKind::Comma) {
                q + 2
            } else {
                q + 1
            },
        )
    }
}

/// Where a function at `p` ends: `fn`, its name, parameters, an optional
/// return type, optional effects, and a body (none before a line break, a
/// dedent or the end).
pub open spec fn fn_end(t: Seq<Token>, p: int) -> Option<int>
    decreases t.len() - p, 46int,
{
    if !(0 <= p && is_at(t, p, TokenKind::Fn) && is_at(t, p + 1, TokenKind::Identifier) && is_at(
        t,
        p + 2,
        TokenKind::LParen,
    )) {
        None
    } else {
        match params_end(t, p + 3) {
            Some(a) => match (if is_at(t, a, TokenKind::Arrow) {
                type_end(t, a + 1)
            } else {
                Some(a)
            }) {
                Some(b) => match (if is_at(t, b, TokenKind::LBracket) {
                    effects_end(t, b + 1)
                } else {
                    Some(b)
                }) {
                    Some(c) => if !(p < c) {
                        None
                    } else if is_at(t, c, TokenKind::Colon) {
                        block_end(t, c + 1)
                    } else if is_at(t, c, TokenKind::LBrace) {
                        brace_end(t, c)
                    } else if is_at(t, c, TokenKind::Newline) || is_at(t, c, TokenKind::Dedent) || is_at(
                        t,
                        c,
                        TokenKind::Eof,
                    ) {
                        Some(c)
                    } else {
                        None
                    },
                    None => None,
                },
                None => None,
            },
            None => None,
        }
    }
}

/// Where `let [mut] name [: T] [= value]` at `p` ends; without `=` it
/// fails when `require_value`.
pub open spec fn let_end(t: Seq<Token>, p: int, require_value: bool) -> Option<int> {
    let q = if is_at(t, p + 1, TokenKind::Mut) {
        p + 2
    } else {
        p + 1
    };
    if !(0 <= p && is_at(t, p, TokenKind::Let) && is_at(t, q, TokenKind::Identifier)) {
        None
    } else {
        match (if is_at(t, q + 1, TokenKind::Colon) {
            type_end(t, q + 2)
        } else {
            Some(q + 1)
        }) {
            Some(k) => if is_at(t, k, TokenKind::Assign) {
                expr_stop(t, k + 1)
            } else if !require_value {
                Some(k)
            } else {
                None
            },
            None => None,
        }
    }
}

/// Where `const NAME [: T] = value` at `p` ends.
pub open spec fn const_end(t: Seq<Token>, p: int) -> Option<int> {
    if !(0 <= p && is_at(t, p, TokenKind::Const) && is_at(t, p + 1, TokenKind::Identifier)) {
        None
    } else {
        match (if is_at(t, p + 2, TokenKind::Colon) {
            type_end(t, p + 3)
        } else {
            Some(p + 2)
        }) {
            Some(k) => if is_at(t, k, TokenKind::Assign) {
                expr_stop(t, k + 1)
            } else {
                None
            },
            None => None,
        }
    }
}

/// Where `if c: block`, its `elif` clauses and an optional `else: block`
/// at `p` end.
pub open spec fn if_end(t: Seq<Token>, p: int) -> Option<int>
    decreases t.len() - p, 46int,
{
    match expr_stop(t, p + 1) {
        Some(c) => if 0 <= p < c && is_at(t, p, TokenKind::If) && is_at(t, c, TokenKind::Colon) {
            match block_end(t, c + 1) {
                Some(d) => {
                    let q = blank_end(t, d);
                    if p < q <= t.len() {
                        else_end(t, p, elifs_end(t, q))
                    } else {
                        None
                    }
                },
                None => None,
            }
        } else {
            None
        },
        None => None,
    }
}

/// Where an `if` statement at `p` ends, its `elif` clauses ending at `e`:
/// after an optional `else: block`.
pub open spec fn else_end(t: Seq<Token>, p: int, e: Option<int>) -> Option<int>
    decreases t.len() - p, 44int,
{
    match e {
        Some(e) => if is_at(t, e, TokenKind::Else) {
            if is_at(t, e + 1, TokenKind::Colon) && 0 <= p < e {
                block_end(t, e + 2)
            } else {
                None
            }
        } else {
            Some(e)
        },
        None => None,
    }
}

/// Where the `elif` clauses from `q` end.
pub open spec fn elifs_end(t: Seq<Token>, q: int) -> Option<int>
    decreases t.len() - q, 45int,
{
    if is_at(t, q, TokenKind::Elif) {
        match expr_stop(t, q + 1) {
            Some(c) => if 0 <= q < c && is_at(t, c, TokenKind::Colon) {
                match block_end(t, c + 1) {
                    Some(d) => {
                        let k = blank_end(t, d);
                        if q < k <= t.len() {
                            elifs_end(t, k)
                        } else {
                            None
                        }
                    },
                    None => None,
                }
            } else {
                None
            },
            None => None,
        }
    } else {
        Some(q)
    }
}

/// Where the payload types of a variant from `q` and the `)` end.
pub open spec fn variant_fields_end(t: Seq<Token>, q: int) -> Option<int>
    decreases t.len() - q,
{
    if is_at(t, q, TokenKind::RParen) {
        Some(q + 1)
    } else {
        match (if is_at(t, q, TokenKind::Identifier) && is_at(t, q + 1, TokenKind::Colon) {
            type_end(t, q + 2)
        } else {
            type_end(t, q)
        }) {
            Some(k) => if 0 <= q < k <= t.len() {
                variant_fields_end(
                    t,
                    if is_at(t, k, TokenKind::Comma) {
                        k + 1
                    } else {
                        k
                    },
                )
            } else {
                None
            },
            None => None,
        }
    }
}

/// Where the type parameters of an enum from `q` and the `]` end.
pub open spec fn type_params_end(t: Seq<Token>, q: int) -> Option<int>
    decreases t.len() - q,
{
    if is_at(t, q, TokenKind::RBracket) {
        Some(q + 1)
    } else if !(0 <= q && is_at(t, q, TokenKind::Identifier)) {
        None
    } else {
        type_params_end(
            t,
            if is_at(t, q + 1, TokenKind::Comma) {
                q + 2
            } else {
                q + 1
            },
        )
    }
}

/// Where the variants of an enum from `q` and its `Dedent` (or the end)
/// end.
pub open spec fn cases_end(t: Seq<Token>, q: int) -> Option<int>
    decreases t.len() - q,
{
    if is_at(t, q, TokenKind::Dedent) {
        Some(q + 1)
    } else if is_at(t, q, TokenKind::Eof) {
        Some(q)
    } else {
        match (if is_at(t, q, TokenKind::Case) {
            if !is_at(t, q + 1, TokenKind::Identifier) {
                None
            } else if is_at(t, q + 2, TokenKind::LParen) {
                variant_fields_end(t, q + 3)
            } else {
                Some(q + 2)
            }
        } else {
            Some(q)
        }) {
            Some(k) => {
                let k2 = blank_end(t, k);
                if 0 <= q < k2 <= t.len() {
                    cases_end(t, k2)
                } else {
                    None
                }
            },
            None => None,
        }
    }
}

/// Where an enum at `p` ends: `enum Name`, optional type parameters, `:`
/// and an indented run of variants.
pub open spec fn enum_end(t: Seq<Token>, p: int) -> Option<int> {
    if !(0 <= p && is_at(t, p, TokenKind::Enum) && is_at(t, p + 1, TokenKind::Identifier)) {
        None
    } else {
        match (if is_at(t, p + 2, TokenKind::LBracket) {
            type_params_end(t, p + 3)
        } else {
            Some(p + 2)
        }) {
            Some(c) => if is_at(t, c, TokenKind::Colon) {
                let i = blank_end(t, c + 1);
                if is_at(t, i, TokenKind::Indent) {
                    cases_end(t, blank_end(t, i + 1))
                } else {
                    None
                }
            } else {
                None
            },
            None => None,
        }
    }
}

/// Where `impl [Trait for] Type:` at `p` and its block end.
pub open spec fn impl_end(t: Seq<Token>, p: int) -> Option<int>
    decreases t.len() - p, 46int,
{
    if !(0 <= p && is_at(t, p, TokenKind::Impl) && is_at(t, p + 1, TokenKind::Identifier)) {
        None
    } else {
        let c = if is_at(t, p + 2, TokenKind::For) {
            p + 4
        } else {
            p + 2
        };
        if (is_at(t, p + 2, TokenKind::For) ==> is_at(t, p + 3, TokenKind::Identifier)) && is_at(
            t,
            c,
            TokenKind::Colon,
        ) {
            block_end(t, c + 1)
        } else {
            None
        }
    }
}

/// Where the dotted rest of an import path from `q` ends.
pub open spec fn dotted_end(t: Seq<Token>, q: int) -> Option<int>
    decreases t.len() - q,
{
    if 0 <= q && is_at(t, q, TokenKind::Dot) {
        if is_at(t, q + 1, TokenKind::Identifier) {
            dotted_end(t, q + 2)
        } else {
            None
        }
    } else {
        Some(q)
    }
}

/// Where string items from `k` and the `]` end.
pub open spec fn str_items_end(t: Seq<Token>, k: int) -> Option<int>
    decreases t.len() - k,
{
    if is_at(t, k, TokenKind::RBracket) {
        Some(k + 1)
    } else if !(0 <= k && is_at(t, k, TokenKind::StringLiteral)) {
        None
    } else {
        str_items_end(
            t,
            if is_at(t, k + 1, TokenKind::Comma) {
                k + 2
            } else {
                k + 1
            },
        )
    }
}

/// Where the named arguments of a foreign import from `q` and the `)` end:
/// `lang:` takes a string, `items:` a list of strings, any other name an
/// expression.
pub open spec fn foreign_args_end(t: Seq<Token>, q: int) -> Option<int>
    decreases t.len() - q,
{
    if 0 <= q && is_at(t, q, TokenKind::Comma) {
        if !(is_at(t, q + 1, TokenKind::Identifier) && is_at(t, q + 2, TokenKind::Colon)) {
            None
        } else {
            match (if t[q + 1].text@ == "lang"@ {
                if is_at(t, q + 3, TokenKind::StringLiteral) {
                    Some(q + 4)
                } else {
                    None
                }
            } else if t[q + 1].text@ == "items"@ {
                if is_at(t, q + 3, TokenKind::LBracket) {
                    str_items_end(t, q + 4)
                } else {
                    None
                }
            } else {
                expr_stop(t, q + 3)
            }) {
                Some(k) => if q < k <= t.len() {
                    foreign_args_end(t, k)
                } else {
                    None
                },
                None => None,
            }
        }
    } else if is_at(t, q, TokenKind::RParen) {
        Some(q + 1)
    } else {
        None
    }
}

/// Where an import at `p` ends: a dotted path, or `foreign(` a string and
/// named arguments `)`.
pub open spec fn import_end(t: Seq<Token>, p: int) -> Option<int> {
    if !(0 <= p && is_at(t, p, TokenKind::Import)) {
        None
    } else if is_at(t, p + 1, TokenKind::Foreign) {
        if is_at(t, p + 2, TokenKind::LParen) && is_at(t, p + 3, TokenKind::StringLiteral) {
            foreign_args_end(t, p + 4)
        } else {
            None
        }
    } else if is_at(t, p + 1, TokenKind::Identifier) {
        dotted_end(t, p + 2)
    } else {
        None
    }
}

/// Where the arms of a match from `q` and its `Dedent` (or the end) end.
pub open spec fn arms_end(t: Seq<Token>, q: int) -> Option<int>
    decreases t.len() - q, 45int,
{
    if is_at(t, q, TokenKind::Dedent) {
        Some(q + 1)
    } else if is_at(t, q, TokenKind::Eof) {
        Some(q)
    } else if !(0 <= q <= t.len()) {
        None
    } else {
        match (if is_at(t, q, TokenKind::Case) {
            match (if is_at(t, q + 1, TokenKind::Identifier) && t[q + 1].text@ == "_"@ {
                Some(q + 2)
            } else {
                expr_stop(t, q + 1)
            }) {
                Some(c) => if q < c && is_at(t, c, TokenKind::Colon) {
                    block_end(t, c + 1)
                } else {
                    None
                },
                None => None,
            }
        } else {
            Some(q)
        }) {
            Some(k) => {
                let k2 = blank_end(t, k);
                if q < k2 <= t.len() {
                    arms_end(t, k2)
                } else {
                    None
                }
            },
            None => None,
        }
    }
}

/// Where `match subject:` at `p` and its indented arms end.
pub open spec fn match_end(t: Seq<Token>, p: int) -> Option<int>
    decreases t.len() - p, 46int,
{
    match expr_stop(t, p + 1) {
        Some(c) => if 0 <= p < c && is_at(t, p, TokenKind::Match) && is_at(t, c, TokenKind::Colon) {
            let i = blank_end(t, c + 1);
            let j = blank_end(t, i + 1);
            if is_at(t, i, TokenKind::Indent) && p < i < j <= t.len() {
                arms_end(t, j)
            } else {
                None
            }
        } else {
            None
        },
        None => None,
    }
}

// ── Blocks and programs ─────────────────────────────────────

/// Where an indented block at `p` ends: an `Indent` after line breaks and
/// comments, statements, and the `Dedent` (or the end of the stream).
pub open spec fn block_end(t: Seq<Token>, p: int) -> Option<int>
    decreases t.len() - p, 59int,
{
    let i = noise_end(t, p);
    let j = blank_end(t, i + 1);
    if 0 <= p <= i < j <= t.len() && is_at(t, i, TokenKind::Indent) {
        block_stmts_end(t, j)
    } else {
        None
    }
}

/// Where the statements of an indented block from `q` end.
pub open spec fn block_stmts_end(t: Seq<Token>, q: int) -> Option<int>
    decreases t.len() - q, 60int,
{
    if is_at(t, q, TokenKind::Dedent) {
        Some(q + 1)
    } else if is_at(t, q, TokenKind::Eof) {
        Some(q)
    } else {
        match stmt_end(t, q) {
            Some(k) => {
                let k2 = blank_end(t, k);
                if 0 <= q < k2 <= t.len() {
                    block_stmts_end(t, k2)
                } else {
                    None
                }
            },
            None => None,
        }
    }
}

/// Where a block in braces at `p` ends.
pub open spec fn brace_end(t: Seq<Token>, p: int) -> Option<int>
    decreases t.len() - p, 59int,
{
    let j = noise_end(t, p + 1);
    if 0 <= p < j <= t.len() && is_at(t, p, TokenKind::LBrace) {
        brace_stmts_end(t, j)
    } else {
        None
    }
}

/// Where the statements of a block in braces from `q` and its `}` end.
pub open spec fn brace_stmts_end(t: Seq<Token>, q: int) -> Option<int>
    decreases t.len() - q, 60int,
{
    if is_at(t, q, TokenKind::RBrace) {
        Some(q + 1)
    } else if is_at(t, q, TokenKind::Eof) {
        None
    } else {
        match stmt_end(t, q) {
            Some(k) => {
                let k2 = blank_end(
                    t,
                    if is_at(t, k, TokenKind::Semicolon) {
                        k + 1
                    } else {
                        k
                    },
                );
                if 0 <= q < k2 <= t.len() {
                    brace_stmts_end(t, k2)
                } else {
                    None
                }
            },
            None => None,
        }
    }
}

/// How many statements a program from `q` holds, or `None` where one of
/// them fails to parse.
pub open spec fn program_count(t: Seq<Token>, q: int) -> Option<nat>
    decreases t.len() - q,
{
    if is_at(t, q, TokenKind::Eof) {
        Some(0)
    } else {
        match stmt_end(t, q) {
            Some(k) => {
                let k2 = noise_end(t, k);
                if 0 <= q < k2 <= t.len() {
                    match program_count(t, k2) {
                        Some(n) => Some(n + 1),
                        None => None,
                    }
                } else {
                    None
                }
            },
            None => None,
        }
    }
}

} // verus!
