//! The decisions of the interactive prompt: which input lines are commands,
//! how lines ending in `:` open a block that an empty line closes, and when
//! collected input is handed over for evaluation.
use vstd::prelude::*;
use crate::frontend::lexer::{trim_m, trim_bounds};
use crate::syntax::lexer::chars_of;

verus! {

/// What the prompt does after a line of input.
#[derive(Debug, PartialEq, Eq)]
pub enum ReplAction {
    /// Leave the prompt.
    Quit,
    /// Show the list of commands.
    Help,
    /// Clear the screen.
    Clear,
    /// Read another line.
    Wait,
    /// Evaluate the collected source text.
    Evaluate(String),
}

/// An action as a plain value.
pub enum ReplActionM {
    Quit,
    Help,
    Clear,
    Wait,
    Evaluate(Seq<char>),
}

impl View for ReplAction {
    type V = ReplActionM;

    open spec fn view(&self) -> ReplActionM {
        match self {
            ReplAction::Quit => ReplActionM::Quit,
            ReplAction::Help => ReplActionM::Help,
            ReplAction::Clear => ReplActionM::Clear,
            ReplAction::Wait => ReplActionM::Wait,
            ReplAction::Evaluate(s) => ReplActionM::Evaluate(s@),
        }
    }
}

/// The prompt between lines: whether a block is open, and the input
/// collected so far.
#[derive(Debug)]
pub struct ReplState {
    pub in_block: bool,
    pub buffer: String,
}

/// A line without its line feeds at the end, then without its carriage
/// returns at the end.
pub open spec fn strip_line_end(l: Seq<char>) -> Seq<char>
    decreases l.len(),
{
    if l.len() > 0 && l.last() == '\n' {
        strip_line_end(l.drop_last())
    } else {
        strip_returns(l)
    }
}

/// A line without its carriage returns at the end.
pub open spec fn strip_returns(l: Seq<char>) -> Seq<char>
    decreases l.len(),
{
    if l.len() > 0 && l.last() == '\r' {
        strip_returns(l.drop_last())
    } else {
        l
    }
}

/// The command a trimmed line names outside a block, if any; an empty line
/// asks for nothing but another line.
pub open spec fn command_of(t: Seq<char>) -> Option<ReplActionM> {
    if t == ":quit"@ || t == ":q"@ || t == ":exit"@ {
        Some(ReplActionM::Quit)
    } else if t == ":help"@ || t == ":h"@ {
        Some(ReplActionM::Help)
    } else if t == ":clear"@ || t == ":c"@ {
        Some(ReplActionM::Clear)
    } else if t.len() == 0 {
        Some(ReplActionM::Wait)
    } else {
        None
    }
}

/// The next state and the action after the input line `raw`, from state
/// `(in_block, buffer)`.
pub open spec fn repl_step(in_block: bool, buffer: Seq<char>, raw: Seq<char>) -> (bool, Seq<char>, ReplActionM) {
    let l = strip_line_end(raw);
    let t = trim_m(l);
    if !in_block && command_of(t) is Some {
        (in_block, buffer, command_of(t)->0)
    } else if !in_block && t.len() > 0 && t.last() == ':' {
        (true, l + "\n"@, ReplActionM::Wait)
    } else if in_block && t.len() > 0 {
        (true, buffer + l + "\n"@, ReplActionM::Wait)
    } else {
        let text = if in_block {
            buffer
        } else {
            l
        };
        if trim_m(text).len() == 0 {
            (false, Seq::empty(), ReplActionM::Wait)
        } else {
            (false, Seq::empty(), ReplActionM::Evaluate(text))
        }
    }
}

/// Whether `cs` is the text of `lit`.
fn is_text(cs: &Vec<char>, a: usize, b: usize, lit: &str) -> (r: bool)
    requires
        a <= b <= cs@.len(),
    ensures
        r == (cs@.subrange(a as int, b as int) == lit@),
{
    let ls = chars_of(lit);
    if b - a != ls.len() {
        return false;
    }
    let mut k: usize = 0;
    while k < ls.len()
        invariant
            a <= b <= cs@.len(),
            b - a == ls@.len(),
            ls@ == lit@,
            k <= ls@.len(),
            forall|j: int| 0 <= j < k ==> cs@[a + j] == ls@[j],
        decreases ls@.len() - k,
    {
        if cs[a + k] != ls[k] {
            assert(cs@.subrange(a as int, b as int)[k as int] != lit@[k as int]);
            return false;
        }
        k = k + 1;
    }
    assert(cs@.subrange(a as int, b as int) =~= lit@);
    true
}

/// Where the line of `cs` ends once line feeds and then carriage returns at
/// its end are dropped.
fn line_end_of(cs: &Vec<char>) -> (e: usize)
    ensures
        e <= cs@.len(),
        cs@.subrange(0, e as int) == strip_line_end(cs@),
{
    let mut e = cs.len();
    assert(cs@.subrange(0, e as int) =~= cs@);
    while e > 0 && cs[e - 1] == '\n'
        invariant
            e <= cs@.len(),
            strip_line_end(cs@) == strip_line_end(cs@.subrange(0, e as int)),
        decreases e,
    {
        assert(cs@.subrange(0, e as int).drop_last() =~= cs@.subrange(0, e - 1));
        e = e - 1;
    }
    while e > 0 && cs[e - 1] == '\r'
        invariant
            e <= cs@.len(),
            strip_line_end(cs@) == strip_returns(cs@.subrange(0, e as int)),
        decreases e,
    {
        assert(cs@.subrange(0, e as int).drop_last() =~= cs@.subrange(0, e - 1));
        e = e - 1;
    }
    e
}

impl ReplState {
    /// A prompt with no block open and nothing collected.
    pub fn new() -> (r: ReplState)
        ensures
            !r.in_block,
            r.buffer@ == Seq::<char>::empty(),
    {
        ReplState { in_block: false, buffer: String::new() }
    }

    /// Take one line of input, as read with its line end: run a command, open
    /// or extend a block, or hand over what was collected for evaluation.
    pub fn step(&mut self, raw: &str) -> (r: ReplAction)
        ensures
            (final(self).in_block, final(self).buffer@, r@) == repl_step(
                old(self).in_block,
                old(self).buffer@,
                raw@,
            ),
    {
        let cs = chars_of(raw);
        let e = line_end_of(&cs);
        let line = raw.substring_char(0, e);
        let ghost l = strip_line_end(raw@);
        let lcs = crate::frontend::lexer::copy_range(&cs, 0, e);
        let (x, y) = trim_bounds(&lcs);
        let ghost t = trim_m(l);
        assert(lcs@ == l);
        assert(t == lcs@.subrange(x as int, y as int));
        if !self.in_block {
            proof {
                reveal_strlit(":quit");
                reveal_strlit(":q");
                reveal_strlit(":exit");
                reveal_strlit(":help");
                reveal_strlit(":h");
                reveal_strlit(":clear");
                reveal_strlit(":c");
            }
            if is_text(&lcs, x, y, ":quit") || is_text(&lcs, x, y, ":q") || is_text(&lcs, x, y, ":exit") {
                return ReplAction::Quit;
            }
            if is_text(&lcs, x, y, ":help") || is_text(&lcs, x, y, ":h") {
                return ReplAction::Help;
            }
            if is_text(&lcs, x, y, ":clear") || is_text(&lcs, x, y, ":c") {
                return ReplAction::Clear;
            }
            if x == y {
                return ReplAction::Wait;
            }
            if lcs[y - 1] == ':' {
                let mut b = String::from_str(line);
                b.append("\n");
                self.in_block = true;
                self.buffer = b;
                return ReplAction::Wait;
            }
            let text = String::from_str(line);
            self.buffer = String::new();
            return ReplAction::Evaluate(text);
        }
        if x < y {
            self.buffer.append(line);
            self.buffer.append("\n");
            return ReplAction::Wait;
        }
        self.in_block = false;
        let mut text = String::new();
        std::mem::swap(&mut text, &mut self.buffer);
        let tcs = chars_of(text.as_str());
        let (p, q) = trim_bounds(&tcs);
        if p == q {
            return ReplAction::Wait;
        }
        ReplAction::Evaluate(text)
    }
}

/// The state after the lines `ls`, from state `st`.
pub open spec fn after_lines(st: (bool, Seq<char>), ls: Seq<Seq<char>>) -> (bool, Seq<char>)
    decreases ls.len(),
{
    if ls.len() == 0 {
        st
    } else {
        let s = after_lines(st, ls.drop_last());
        let r = repl_step(s.0, s.1, ls.last());
        (r.0, r.1)
    }
}

/// The lines `ls`, each followed by a line feed.
pub open spec fn lines_text(ls: Seq<Seq<char>>) -> Seq<char>
    decreases ls.len(),
{
    if ls.len() == 0 {
        Seq::empty()
    } else {
        lines_text(ls.drop_last()) + ls.last() + "\n"@
    }
}

/// Whether a line, as read, has no line end left to drop.
pub open spec fn bare_line(l: Seq<char>) -> bool {
    l.len() == 0 || (l.last() != '\n' && l.last() != '\r')
}

/// A text is blank exactly when every character of it is white space.
proof fn lemma_blank(cs: Seq<char>)
    ensures
        trim_m(cs).len() == 0 <==> (forall|k: int| 0 <= k < cs.len() ==> crate::frontend::lexer::is_space(#[trigger] cs[k])),
{
    crate::frontend::lexer::lemma_runs(cs, 0);
    let a = crate::frontend::lexer::lead_end(cs, 0);
    if a < cs.len() {
        crate::frontend::lexer::lemma_trail_past(cs, a, cs.len() as int);
    }
}

proof fn lemma_bare(l: Seq<char>)
    requires
        bare_line(l),
    ensures
        strip_line_end(l) == l,
{
}

/// Text that is not blank stays not blank when more text follows it.
proof fn lemma_not_blank_prefix(x: Seq<char>, y: Seq<char>)
    requires
        trim_m(x).len() > 0,
    ensures
        trim_m(x + y).len() > 0,
{
    lemma_blank(x);
    lemma_blank(x + y);
    let k = choose|k: int| 0 <= k < x.len() && !crate::frontend::lexer::is_space(#[trigger] x[k]);
    assert((x + y)[k] == x[k]);
}

/// Within a block, lines that are not blank are collected, each followed
/// by a line feed.
proof fn lemma_block_lines(head: Seq<Seq<char>>, body: Seq<Seq<char>>, st: (bool, Seq<char>))
    requires
        after_lines(st, head) == (true, lines_text(head)),
        forall|i: int| 0 <= i < body.len() ==> bare_line(#[trigger] body[i]) && trim_m(body[i]).len() > 0,
    ensures
        after_lines(st, head + body) == (true, lines_text(head + body)),
    decreases body.len(),
{
    if body.len() > 0 {
        let init = body.drop_last();
        assert forall|i: int| 0 <= i < init.len() implies bare_line(#[trigger] init[i]) && trim_m(init[i]).len() > 0 by {
            assert(init[i] == body[i]);
        }
        lemma_block_lines(head, init, st);
        assert((head + body).drop_last() =~= head + init);
        let l = body.last();
        assert(bare_line(body[body.len() - 1]) && trim_m(body[body.len() - 1]).len() > 0);
        lemma_bare(l);
    }
}

/// A block: outside a block, a line whose text ends in `:`, then lines that
/// are not blank, then a blank line, hands over the block's lines together,
/// each followed by a line feed, and leaves no block open and nothing
/// collected.
pub proof fn lemma_block_evaluated(
    st: Seq<char>,
    header: Seq<char>,
    body: Seq<Seq<char>>,
    blank: Seq<char>,
)
    requires
        bare_line(header),
        trim_m(header).len() > 0,
        trim_m(header).last() == ':',
        forall|i: int| 0 <= i < body.len() ==> bare_line(#[trigger] body[i]) && trim_m(body[i]).len() > 0,
        trim_m(strip_line_end(blank)).len() == 0,
    ensures
        after_lines((false, st), seq![header] + body) == (true, lines_text(seq![header] + body)),
        repl_step(true, lines_text(seq![header] + body), blank) == (
            false,
            Seq::<char>::empty(),
            ReplActionM::Evaluate(lines_text(seq![header] + body)),
        ),
{
    let h = seq![header];
    lemma_bare(header);
    assert(h.drop_last() =~= Seq::<Seq<char>>::empty());
    assert(command_of(trim_m(header)) is None) by {
        reveal_strlit(":quit");
        reveal_strlit(":q");
        reveal_strlit(":exit");
        reveal_strlit(":help");
        reveal_strlit(":h");
        reveal_strlit(":clear");
        reveal_strlit(":c");
    }
    assert(h.last() == header);
    assert(lines_text(h.drop_last()) == Seq::<char>::empty());
    assert(lines_text(h) =~= header + "\n"@);
    assert(after_lines((false, st), h.drop_last()) == (false, st));
    assert(after_lines((false, st), h) == (true, lines_text(h)));
    lemma_block_lines(h, body, (false, st));
    let text = lines_text(h + body);
    let n = header.len() as int;
    lemma_lines_text_start(header, body);
    let rest = text.subrange(n, text.len() as int);
    assert(header + rest =~= text) by {
        assert(text.subrange(0, n + 1).subrange(0, n) =~= header);
    }
    lemma_not_blank_prefix(header, rest);
}

proof fn lemma_lines_text_start(header: Seq<char>, body: Seq<Seq<char>>)
    ensures
        lines_text(seq![header] + body).len() >= header.len() as int + 1,
        lines_text(seq![header] + body).subrange(0, header.len() as int + 1) == header + "\n"@,
    decreases body.len(),
{
    reveal_strlit("\n");
    let ls = seq![header] + body;
    if body.len() == 0 {
        assert(ls =~= seq![header]);
        assert(ls.drop_last() =~= Seq::<Seq<char>>::empty());
        assert(ls.last() == header);
        assert(lines_text(ls.drop_last()) == Seq::<char>::empty());
        assert(lines_text(ls) =~= header + "\n"@);
        assert(lines_text(ls).subrange(0, header.len() as int + 1) =~= header + "\n"@);
    } else {
        lemma_lines_text_start(header, body.drop_last());
        assert(ls.drop_last() =~= seq![header] + body.drop_last());
        let prev = lines_text(seq![header] + body.drop_last());
        assert(lines_text(ls) == prev + body.last() + "\n"@);
        assert(lines_text(ls).subrange(0, header.len() as int + 1) =~= prev.subrange(0, header.len() as int + 1));
    }
}

} // verus!
