//! Parser diagnostics: what went wrong, where, and a hint.
use vstd::prelude::*;

use crate::parser::span::Span;
use crate::text::{owned, push_str};

verus! {

/// A diagnostic for a source that could not be lexed or parsed.
#[derive(Debug, Clone)]
pub struct ParserDiagnostic {
    pub title: String,
    pub label: String,
    pub span: Span,
    pub help: Option<String>,
}

/// Why parsing failed: where, what was found (its description, `None` at
/// the end of the input), what would have been accepted, or a message of
/// its own.
#[derive(Debug)]
pub struct ParseError {
    pub span: Span,
    pub found: Option<String>,
    pub expected: Vec<String>,
    pub custom: Option<String>,
}

/// The label of a diagnostic for `found`.
pub open spec fn unexpected_label(found: Option<Seq<char>>) -> Seq<char> {
    match found {
        Some(f) => "Unexpected token `"@ + f + "`"@,
        None => "Unexpected end of incantation"@,
    }
}

/// The first `n` expected tokens, separated by `, `.
pub open spec fn expected_list(es: Seq<String>, n: int) -> Seq<char>
    decreases n,
{
    if n <= 0 {
        Seq::empty()
    } else if n == 1 {
        es[0]@
    } else {
        expected_list(es, n - 1) + ", "@ + es[n - 1]@
    }
}

/// `d` is the diagnostic titled `title` for `error`: the label carries the
/// error's own message, or names what was found; the help, given where the
/// error has no message of its own and some tokens would have been
/// accepted, lists them.
pub open spec fn diagnostic_of(d: ParserDiagnostic, error: ParseError, title: Seq<char>) -> bool {
    &&& d.title@ == title
    &&& d.span == error.span
    &&& match error.custom {
        Some(m) => d.label@ == m@,
        None => d.label@ == unexpected_label(
            match error.found {
                Some(f) => Some(f@),
                None => None,
            },
        ),
    }
    &&& if error.custom is None && error.expected@.len() > 0 {
        d.help matches Some(h) && h@ == "Perhaps you meant one of: "@ + expected_list(error.expected@, error.expected@.len() as int)
    } else {
        d.help is None
    }
}

/// Turns a parse error into a diagnostic titled `title` (see
/// [`diagnostic_of`]).
pub fn convert_simple_error(error: ParseError, title: &str) -> (d: ParserDiagnostic)
    ensures
        diagnostic_of(d, error, title@),
{
    let label = match &error.custom {
        Some(m) => m.clone(),
        None => match &error.found {
            Some(f) => {
                let mut l = owned("Unexpected token `");
                push_str(&mut l, f.as_str());
                push_str(&mut l, "`");
                l
            },
            None => owned("Unexpected end of incantation"),
        },
    };
    let help = if error.custom.is_none() && error.expected.len() > 0 {
        let mut h = owned("Perhaps you meant one of: ");
        let ghost prefix = h@;
        let mut i: usize = 0;
        while i < error.expected.len()
            invariant
                i <= error.expected@.len(),
                prefix == "Perhaps you meant one of: "@,
                h@ == prefix + expected_list(error.expected@, i as int),
            decreases error.expected.len() - i,
        {
            let ghost before = h@;
            if i > 0 {
                push_str(&mut h, ", ");
            }
            push_str(&mut h, error.expected[i].as_str());
            proof {
                if i == 0 {
                    assert(h@ =~= prefix + expected_list(error.expected@, 1));
                } else {
                    assert(h@ =~= prefix + expected_list(error.expected@, i + 1));
                }
            }
            i = i + 1;
        }
        Some(h)
    } else {
        None
    };
    ParserDiagnostic { title: owned(title), label, span: error.span, help }
}

/// Whether `text` holds the header line of a report titled `title`: a
/// space, the title and a newline, one after the other.
pub open spec fn holds_header(text: Seq<char>, title: Seq<char>) -> bool {
    exists|k: int| 0 <= k && k + title.len() + 2 <= text.len() && #[trigger] text.subrange(k, k + title.len() + 2) == " "@ + title + "\n"@
}

/// Renders one error report with ariadne (`Report::build`, a red
/// `Label`, `with_helps`, `write` into a byte buffer, then
/// `String::from_utf8`). `Label::new` panics on a span that ends before it
/// starts; the span is also required to lie within the source, where
/// ariadne can place it. The contract claims only what holds of every
/// rendering that succeeds: `write` first writes the header line, the
/// coloured kind, a space and the message, so a rendered report holds a
/// space, the title and a newline one after the other. The rest of the text
/// is not stated: it depends on yansi's process-wide colour switch (and, on
/// Windows, on the console). Whether the writing succeeds is not stated.
#[verifier::external_body]
fn render_report(
    source_id: &str,
    source: &str,
    title: &str,
    label: &str,
    start: usize,
    end: usize,
    help: Option<&str>,
) -> (r: Result<String, String>)
    requires
        start <= end <= source@.len(),
    ensures
        r matches Ok(t) ==> holds_header(t@, title@),
{
    let mut buffer: Vec<u8> = Vec::new();
    let mut report = ariadne::Report::build(ariadne::ReportKind::Error, (source_id, start..end))
        .with_message(title)
        .with_label(ariadne::Label::new((source_id, start..end)).with_message(label).with_color(ariadne::Color::Red));
    report.with_helps(help);
    report.finish().write((source_id, ariadne::Source::from(source)), &mut buffer).map_err(|e| e.to_string())?;
    String::from_utf8(buffer).map_err(|e| e.to_string())
}

/// What the report of a diagnostic is rendered from: its title, label,
/// span and help.
pub fn report_args<'a>(d: &'a ParserDiagnostic) -> (a: (&'a str, &'a str, usize, usize, Option<&'a str>))
    ensures
        a.0@ == d.title@,
        a.1@ == d.label@,
        a.2 == d.span.start,
        a.3 == d.span.end,
        match d.help {
            Some(h) => a.4 matches Some(x) && x@ == h@,
            None => a.4 is None,
        },
{
    let help: Option<&str> = match &d.help {
        Some(h) => Some(h.as_str()),
        None => None,
    };
    (d.title.as_str(), d.label.as_str(), d.span.start, d.span.end, help)
}

/// Whether every span starts no later than it ends and lies within a
/// source of `len` characters.
pub open spec fn spans_fit(diagnostics: Seq<ParserDiagnostic>, len: nat) -> bool {
    forall|i: int| 0 <= i < diagnostics.len() ==> #[trigger] diagnostics[i].span.start <= diagnostics[i].span.end <= len
}

/// Renders the diagnostics as one text, the report of each diagnostic (see
/// [`report_args`]) after the other, as the command line prints them. No
/// diagnostics give no text; the first report that cannot be rendered
/// gives its error.
pub fn render_diagnostics(source_id: &str, source: &str, diagnostics: &[ParserDiagnostic]) -> (r: Result<String, String>)
    requires
        spans_fit(diagnostics@, source@.len()),
    ensures
        diagnostics@.len() == 0 ==> (r matches Ok(text) && text@.len() == 0),
        r matches Ok(text) ==> exists|parts: Seq<Seq<char>>| parts.len() == diagnostics@.len() && text@ == #[trigger] parts.flatten()
            && forall|k: int| 0 <= k < parts.len() ==> holds_header(#[trigger] parts[k], diagnostics@[k].title@),
{
    let mut out = String::new();
    let ghost mut parts: Seq<Seq<char>> = Seq::empty();
    let mut i: usize = 0;
    while i < diagnostics.len()
        invariant
            i <= diagnostics@.len(),
            spans_fit(diagnostics@, source@.len()),
            parts.len() == i,
            out@ == parts.flatten(),
            forall|k: int| 0 <= k < parts.len() ==> holds_header(#[trigger] parts[k], diagnostics@[k].title@),
        decreases diagnostics@.len() - i,
    {
        let (title, label, start, end, help) = report_args(&diagnostics[i]);
        let text = render_report(source_id, source, title, label, start, end, help)?;
        push_str(&mut out, text.as_str());
        proof {
            parts.lemma_flatten_push(text@);
            parts = parts.push(text@);
        }
        i = i + 1;
    }
    proof {
        if diagnostics@.len() == 0 {
            assert(parts =~= Seq::<Seq<char>>::empty());
        }
    }
    Ok(out)
}

} // verus!
