//! Source-aware diagnostics for type errors, drawn by `ariadne`.
use vstd::prelude::*;
use ariadne::{Color, Config, Label, Report, ReportKind, Source};
use crate::check::error::{message_text, span_of, TypeError, TypeErrorM};
use crate::check::types::ty_text;
use crate::check::TypeCheckResult;

verus! {

/// The bytes of the report `ariadne` draws, with colour switched off, for
/// an error headed by `message` in the file `filename` holding `source`,
/// located at `start`, with one label over `start..end` carrying `label`.
pub uninterp spec fn report_bytes(
    filename: Seq<char>,
    source: Seq<char>,
    start: nat,
    end: nat,
    message: Seq<char>,
    label: Seq<char>,
) -> Seq<u8>;

/// Draws an error report with `ariadne::Report` (kind `Error`, located at
/// `start` in `filename`, message `message`, one `Label` over `start..end`
/// with message `label`) and writes it, as `Report::print` would, into bytes
/// rather than to standard output. The report's `Config` switches colour
/// off, so no escape codes depend on the terminal the process runs in, and
/// the bytes are named by `report_bytes` of the arguments. `Label::new`
/// panics on a backwards span, hence `start <= end`. Writing to memory
/// cannot fail, so the write's result is dropped.
#[verifier::external_body]
fn draw_report(filename: &str, source: &str, start: usize, end: usize, message: &str, label: &str) -> (r: Vec<u8>)
    requires
        start <= end,
    ensures
        r@ == report_bytes(filename@, source@, start as nat, end as nat, message@, label@),
{
    let mut out: Vec<u8> = Vec::new();
    let _ = Report::build(ReportKind::Error, filename, start)
        .with_config(Config::default().with_color(false))
        .with_message(message)
        .with_label(Label::new((filename, start..end)).with_message(label).with_color(Color::Red))
        .finish()
        .write_for_stdout((filename, Source::from(source)), &mut out);
    out
}

/// The label of an error's report: what was expected for a mismatch, the
/// operand types for an operator mismatch, the message otherwise.
pub open spec fn label_text(e: TypeErrorM) -> Seq<char> {
    match e {
        TypeErrorM::Mismatch(expected, _, _) => "expected `"@ + ty_text(expected) + "` here"@,
        TypeErrorM::BinOpMismatch(_, l, r, _) => "left is `"@ + ty_text(l) + "`, right is `"@
            + ty_text(r) + "`"@,
        _ => message_text(e),
    }
}

/// The report of one error.
pub open spec fn error_report(e: TypeErrorM, filename: Seq<char>, source: Seq<char>) -> Seq<u8> {
    report_bytes(
        filename,
        source,
        span_of(e).start as nat,
        span_of(e).end as nat,
        message_text(e),
        label_text(e),
    )
}

/// The reports of the errors, one after another.
pub open spec fn errors_report(es: Seq<TypeErrorM>, filename: Seq<char>, source: Seq<char>) -> Seq<u8>
    decreases es.len(),
{
    if es.len() == 0 {
        Seq::empty()
    } else {
        errors_report(es.drop_last(), filename, source) + error_report(es.last(), filename, source)
    }
}

impl TypeError {
    /// The label text of this error's report.
    fn label(&self) -> (r: String)
        ensures
            r@ == label_text(self@),
    {
        match self {
            TypeError::Mismatch { expected, .. } => {
                let mut s = String::from_str("expected `");
                s.append(expected.display().as_str());
                s.append("` here");
                s
            },
            TypeError::BinOpMismatch { lty, rty, .. } => {
                let mut s = String::from_str("left is `");
                s.append(lty.display().as_str());
                s.append("`, right is `");
                s.append(rty.display().as_str());
                s.append("`");
                s
            },
            _ => self.message(),
        }
    }

    /// Draw a rich diagnostic for this error, pointing into `source`;
    /// `filename` should be the name the source was parsed under.
    pub fn render(&self, filename: &str, source: &str) -> (r: Vec<u8>)
        requires
            span_of(self@).start <= span_of(self@).end,
        ensures
            r@ == error_report(self@, filename@, source@),
    {
        let span = self.span();
        let message = self.message();
        let label = self.label();
        draw_report(filename, source, span.start, span.end, message.as_str(), label.as_str())
    }
}

impl TypeCheckResult {
    /// Draw the diagnostics of all errors, in order.
    pub fn render_errors(&self, filename: &str, source: &str) -> (r: Vec<u8>)
        requires
            forall|i: int|
                0 <= i < self.errors@.len() ==> span_of(#[trigger] self.errors@[i]@).start <= span_of(
                    self.errors@[i]@,
                ).end,
        ensures
            r@ == errors_report(crate::check::error::errors_view(self.errors@), filename@, source@),
    {
        let ghost es = crate::check::error::errors_view(self.errors@);
        let mut out: Vec<u8> = Vec::new();
        let mut i: usize = 0;
        assert(es.take(0) =~= Seq::<TypeErrorM>::empty());
        while i < self.errors.len()
            invariant
                es == crate::check::error::errors_view(self.errors@),
                i <= self.errors@.len(),
                out@ == errors_report(es.take(i as int), filename@, source@),
                forall|j: int|
                    0 <= j < self.errors@.len() ==> span_of(#[trigger] self.errors@[j]@).start <= span_of(
                        self.errors@[j]@,
                    ).end,
            decreases self.errors@.len() - i,
        {
            assert(es.take(i + 1).drop_last() =~= es.take(i as int));
            let mut one = self.errors[i].render(filename, source);
            out.append(&mut one);
            i = i + 1;
        }
        assert(es.take(es.len() as int) =~= es);
        out
    }
}

} // verus!
