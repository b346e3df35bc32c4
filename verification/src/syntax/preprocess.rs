//! Significant indentation turned into explicit block markers.
use vstd::prelude::*;
use crate::syntax::span::Span;
use crate::syntax::token::Token;

verus! {

broadcast use vstd::std_specs::vec::group_vec_axioms;

/// Tokens that carry layout rather than content.
pub open spec fn is_layout(t: Token) -> bool {
    t is Newline || t is Indent || t is BlockStart || t is BlockEnd
}

/// The content tokens of `ts`, in order, with their spans.
pub open spec fn content(ts: Seq<(Token, Span)>) -> Seq<(Token, Span)>
    decreases ts.len(),
{
    if ts.len() == 0 {
        Seq::empty()
    } else if is_layout(ts.last().0) {
        content(ts.drop_last())
    } else {
        content(ts.drop_last()).push(ts.last())
    }
}

/// Blocks opened minus blocks closed in `ts`.
pub open spec fn depth(ts: Seq<(Token, Span)>) -> int
    decreases ts.len(),
{
    if ts.len() == 0 {
        0
    } else if ts.last().0 is BlockStart {
        depth(ts.drop_last()) + 1
    } else if ts.last().0 is BlockEnd {
        depth(ts.drop_last()) - 1
    } else {
        depth(ts.drop_last())
    }
}

/// No prefix of `ts` closes more blocks than it opened.
pub open spec fn nested(ts: Seq<(Token, Span)>) -> bool
    decreases ts.len(),
{
    ts.len() == 0 || (nested(ts.drop_last()) && depth(ts) >= 0)
}

/// Whether the lexer could have produced `ts`: no synthetic block marker.
pub open spec fn lexed(ts: Seq<(Token, Span)>) -> bool {
    forall|i: int| 0 <= i < ts.len() ==> !(#[trigger] ts[i].0 is BlockStart) && !(ts[i].0 is BlockEnd)
}

/// `n` block ends, each with span `sp`.
pub open spec fn ends(n: nat, sp: Span) -> Seq<(Token, Span)> {
    Seq::new(n, |k: int| (Token::BlockEnd, sp))
}

/// How many levels on top of the indentation stack are deeper than
/// `level`.
pub open spec fn deeper(stack: Seq<usize>, level: usize) -> nat
    decreases stack.len(),
{
    if stack.len() == 0 || stack.last() <= level {
        0
    } else {
        deeper(stack.drop_last(), level) + 1
    }
}

/// The position of the first token at or after `j` that is not a bare
/// `Newline`.
pub open spec fn past_newlines(ts: Seq<(Token, Span)>, j: int) -> int
    decreases ts.len() - j,
{
    if 0 <= j < ts.len() && ts[j].0 is Newline {
        past_newlines(ts, j + 1)
    } else {
        j
    }
}

/// The output for the tokens of `ts` from `i` on, with the indentation
/// levels of the open blocks on `stack` (level 0 at the bottom).
pub open spec fn layout_from(ts: Seq<(Token, Span)>, i: int, stack: Seq<usize>) -> Seq<(Token, Span)>
    decreases ts.len() - i,
{
    if i < 0 || i >= ts.len() {
        ends((stack.len() - 1) as nat, Span { start: 0, end: 0 })
    } else {
        let sp = ts[i].1;
        match ts[i].0 {
            Token::Indent(level) => if level > stack.last() {
                seq![(Token::BlockStart, sp)] + layout_from(ts, i + 1, stack.push(level))
            } else {
                let k = deeper(stack, level);
                ends(k, sp).push((Token::Newline, sp)) + layout_from(ts, i + 1, stack.take(stack.len() - k))
            },
            Token::Newline => {
                let j = past_newlines(ts, i + 1);
                if j < ts.len() && !(ts[j].0 is Indent) {
                    let k = deeper(stack, 0);
                    seq![(Token::Newline, sp)] + ends(k, sp) + layout_from(ts, i + 1, stack.take(stack.len() - k))
                } else {
                    seq![(Token::Newline, sp)] + layout_from(ts, i + 1, stack)
                }
            },
            _ => seq![ts[i]] + layout_from(ts, i + 1, stack),
        }
    }
}

/// The indentation stack: starts at level 0 and grows strictly.
spec fn stack_ok(st: Seq<usize>) -> bool {
    &&& st.len() >= 1
    &&& st[0] == 0
    &&& forall|a: int, b: int| 0 <= a < b < st.len() ==> st[a] < st[b]
}

proof fn lemma_push_tok(out: Seq<(Token, Span)>, x: (Token, Span))
    ensures
        out.push(x).drop_last() == out,
        depth(out.push(x)) == depth(out) + if x.0 is BlockStart {
            1int
        } else if x.0 is BlockEnd {
            -1int
        } else {
            0int
        },
        nested(out.push(x)) == (nested(out) && depth(out.push(x)) >= 0),
        content(out.push(x)) == if is_layout(x.0) {
            content(out)
        } else {
            content(out).push(x)
        },
{
    assert(out.push(x).drop_last() =~= out);
}

proof fn lemma_content_step(ts: Seq<(Token, Span)>, i: int)
    requires
        0 <= i < ts.len(),
    ensures
        content(ts.take(i + 1)) == if is_layout(ts[i].0) {
            content(ts.take(i))
        } else {
            content(ts.take(i)).push(ts[i])
        },
{
    assert(ts.take(i + 1).drop_last() =~= ts.take(i));
}

/// Convert the raw lexer output, which marks significant whitespace with
/// `Indent(n)` and `Newline` tokens, into a stream with explicit
/// `BlockStart` and `BlockEnd` markers.
///
/// An `Indent(n)` deeper than the current level opens a block; a shallower
/// one closes blocks down to its level and separates statements; an equal
/// one separates statements. A bare `Newline` whose next non-blank line
/// starts at column 0 closes every open block. Blocks still open at the end
/// are closed.
pub fn preprocess(tokens: Vec<(Token, Span)>) -> (out: Vec<(Token, Span)>)
    ensures
        out@ == layout_from(tokens@, 0, seq![0usize]),
        forall|k: int| 0 <= k < out@.len() ==> !(#[trigger] out@[k].0 is Indent),
        content(out@) == content(tokens@),
        lexed(tokens@) ==> depth(out@) == 0 && nested(out@),
        (forall|i: int| 0 <= i < tokens@.len() ==> !is_layout(#[trigger] tokens@[i].0)) ==> out@
            == tokens@,
{
    let ghost flat = forall|i: int| 0 <= i < tokens@.len() ==> !is_layout(#[trigger] tokens@[i].0);
    let mut out: Vec<(Token, Span)> = Vec::new();
    let mut stack: Vec<usize> = vec![0];
    let ghost lx = lexed(tokens@);
    proof {
        assert(tokens@.take(0) =~= Seq::<(Token, Span)>::empty());
    }
    let ghost total = layout_from(tokens@, 0, seq![0usize]);
    assert(stack@ == seq![0usize]);
    assert(out@ + total =~= total);
    let mut i: usize = 0;
    while i < tokens.len()
        invariant
            i <= tokens@.len(),
            stack_ok(stack@),
            total == layout_from(tokens@, 0, seq![0usize]),
            out@ + layout_from(tokens@, i as int, stack@) == total,
            forall|k: int| 0 <= k < out@.len() ==> !(#[trigger] out@[k].0 is Indent),
            content(out@) == content(tokens@.take(i as int)),
            lx == lexed(tokens@),
            lx ==> depth(out@) == stack@.len() - 1 && nested(out@),
            flat == (forall|k: int| 0 <= k < tokens@.len() ==> !is_layout(#[trigger] tokens@[k].0)),
            flat ==> out@ == tokens@.take(i as int) && stack@.len() == 1,
        decreases tokens@.len() - i,
    {
        proof {
            if flat {
                assert(!is_layout(tokens@[i as int].0));
            }
        }
        let span = tokens[i].1;
        proof {
            lemma_content_step(tokens@, i as int);
        }
        let ghost out0 = out@;
        let ghost st0 = stack@;
        let ghost i0 = i as int;
        let ghost ts = tokens@;
        match &tokens[i].0 {
            // ── Explicit indentation ──
            Token::Indent(level) => {
                let level = *level;
                let current = stack[stack.len() - 1];
                if level > current {
                    stack.push(level);
                    proof {
                        lemma_push_tok(out@, (Token::BlockStart, span));
                    }
                    out.push((Token::BlockStart, span));
                    proof {
                        assert(layout_from(ts, i0, st0) == seq![(Token::BlockStart, span)] + layout_from(
                            ts,
                            i0 + 1,
                            stack@,
                        ));
                        assert(out@ + layout_from(ts, i0 + 1, stack@) =~= out0 + layout_from(ts, i0, st0));
                    }
                } else {
                    if level < current {
                        while stack[stack.len() - 1] > level
                            invariant
                                stack_ok(stack@),
                                content(out@) == content(tokens@.take(i as int)),
                                lx ==> depth(out@) == stack@.len() - 1 && nested(out@),
                                stack@.len() <= st0.len(),
                                stack@ == st0.take(stack@.len() as int),
                                out@ == out0 + ends((st0.len() - stack@.len()) as nat, span),
                                deeper(st0, level) == deeper(stack@, level) + (st0.len() - stack@.len()),
                                forall|k: int| 0 <= k < out@.len() ==> !(#[trigger] out@[k].0 is Indent),
                            decreases stack@.len(),
                        {
                            let ghost sb = stack@;
                            let ghost ob = out@;
                            stack.pop();
                            proof {
                                lemma_push_tok(out@, (Token::BlockEnd, span));
                            }
                            out.push((Token::BlockEnd, span));
                            proof {
                                assert(stack@ =~= sb.drop_last());
                                assert(stack@ =~= st0.take(stack@.len() as int));
                                assert(ends((st0.len() - stack@.len()) as nat, span) =~= ends(
                                    (st0.len() - sb.len()) as nat,
                                    span,
                                ).push((Token::BlockEnd, span)));
                                assert(out@ =~= out0 + ends((st0.len() - stack@.len()) as nat, span));
                            }
                        }
                    }
                    proof {
                        assert(deeper(stack@, level) == 0);
                        assert(stack@ =~= st0.take(st0.len() - deeper(st0, level)));
                        assert(ends(0, span) =~= Seq::<(Token, Span)>::empty());
                    }
                    // same level: statement separator
                    proof {
                        lemma_push_tok(out@, (Token::Newline, span));
                    }
                    out.push((Token::Newline, span));
                    proof {
                        let k = deeper(st0, level);
                        assert(layout_from(ts, i0, st0) == ends(k, span).push((Token::Newline, span)) + layout_from(
                            ts,
                            i0 + 1,
                            stack@,
                        ));
                        assert(out@ + layout_from(ts, i0 + 1, stack@) =~= out0 + layout_from(ts, i0, st0));
                    }
                }
                i = i + 1;
            },
            // ── Bare newline (column-0 lines or blank lines) ──
            Token::Newline => {
                proof {
                    lemma_push_tok(out@, (Token::Newline, span));
                }
                out.push((Token::Newline, span));
                i = i + 1;
                let ghost out1 = out@;
                // Skip ahead over consecutive blank Newlines.
                let mut j = i;
                while j < tokens.len() && matches!(tokens[j].0, Token::Newline)
                    invariant
                        i <= j <= tokens@.len(),
                        past_newlines(tokens@, j as int) == past_newlines(tokens@, i as int),
                    decreases tokens@.len() - j,
                {
                    j = j + 1;
                }
                // The next logical line starts at column 0: close any open blocks.
                if j < tokens.len() && !matches!(tokens[j].0, Token::Indent(_)) {
                    while stack[stack.len() - 1] > 0
                        invariant
                            stack_ok(stack@),
                            content(out@) == content(tokens@.take(i as int)),
                            lx ==> depth(out@) == stack@.len() - 1 && nested(out@),
                            stack@.len() <= st0.len(),
                            stack@ == st0.take(stack@.len() as int),
                            out@ == out1 + ends((st0.len() - stack@.len()) as nat, span),
                            deeper(st0, 0) == deeper(stack@, 0) + (st0.len() - stack@.len()),
                            forall|k: int| 0 <= k < out@.len() ==> !(#[trigger] out@[k].0 is Indent),
                        decreases stack@.len(),
                    {
                        let ghost sb = stack@;
                        stack.pop();
                        proof {
                            lemma_push_tok(out@, (Token::BlockEnd, span));
                        }
                        out.push((Token::BlockEnd, span));
                        proof {
                            assert(stack@ =~= sb.drop_last());
                            assert(stack@ =~= st0.take(stack@.len() as int));
                            assert(ends((st0.len() - stack@.len()) as nat, span) =~= ends(
                                (st0.len() - sb.len()) as nat,
                                span,
                            ).push((Token::BlockEnd, span)));
                            assert(out@ =~= out1 + ends((st0.len() - stack@.len()) as nat, span));
                        }
                    }
                    proof {
                        assert(deeper(stack@, 0) == 0);
                        assert(stack@ =~= st0.take(st0.len() - deeper(st0, 0)));
                        let k = deeper(st0, 0);
                        assert(layout_from(ts, i0, st0) == seq![(Token::Newline, span)] + ends(k, span) + layout_from(
                            ts,
                            i0 + 1,
                            stack@,
                        ));
                        assert(out@ + layout_from(ts, i0 + 1, stack@) =~= out0 + layout_from(ts, i0, st0));
                    }
                } else {
                    proof {
                        assert(layout_from(ts, i0, st0) == seq![(Token::Newline, span)] + layout_from(
                            ts,
                            i0 + 1,
                            stack@,
                        ));
                        assert(out@ + layout_from(ts, i0 + 1, stack@) =~= out0 + layout_from(ts, i0, st0));
                    }
                }
            },
            other => {
                let t = other.duplicate();
                proof {
                    if lx {
                        assert(!(tokens@[i as int].0 is BlockStart) && !(tokens@[i as int].0 is BlockEnd));
                    }
                    lemma_push_tok(out@, (t, span));
                }
                out.push((t, span));
                i = i + 1;
                proof {
                    if flat {
                        assert(out@ =~= tokens@.take(i as int));
                    }
                    assert((t, span) == ts[i0]);
                    assert(layout_from(ts, i0, st0) == seq![ts[i0]] + layout_from(ts, i0 + 1, stack@));
                    assert(out@ + layout_from(ts, i0 + 1, stack@) =~= out0 + layout_from(ts, i0, st0));
                }
            },
        }
    }
    // Close any blocks still open at the end.
    proof {
        assert(tokens@.take(tokens@.len() as int) =~= tokens@);
    }
    let dummy = Span::default();
    proof {
        assert(layout_from(tokens@, i as int, stack@) == ends((stack@.len() - 1) as nat, dummy));
    }
    while stack.len() > 1
        invariant
            stack_ok(stack@),
            dummy == (Span { start: 0, end: 0 }),
            out@ + ends((stack@.len() - 1) as nat, dummy) == total,
            total == layout_from(tokens@, 0, seq![0usize]),
            forall|k: int| 0 <= k < out@.len() ==> !(#[trigger] out@[k].0 is Indent),
            content(out@) == content(tokens@),
            flat ==> out@ == tokens@ && stack@.len() == 1,
            lx ==> depth(out@) == stack@.len() - 1 && nested(out@),
        decreases stack@.len(),
    {
        let ghost sb = stack@;
        let ghost ob = out@;
        stack.pop();
        proof {
            lemma_push_tok(out@, (Token::BlockEnd, dummy));
        }
        out.push((Token::BlockEnd, dummy));
        proof {
            assert(ends((sb.len() - 1) as nat, dummy) =~= seq![(Token::BlockEnd, dummy)] + ends(
                (stack@.len() - 1) as nat,
                dummy,
            ));
            assert(out@ + ends((stack@.len() - 1) as nat, dummy) =~= ob + ends((sb.len() - 1) as nat, dummy));
        }
    }
    proof {
        assert(ends(0, dummy) =~= Seq::<(Token, Span)>::empty());
        assert(out@ =~= total);
    }
    out
}

} // verus!
