//! The `sie validate` report: one line per diagnostic, and whether any of
//! them is an error.

use vstd::prelude::*;
use crate::document::{Diagnostic, Severity};
use crate::lines::newline_count;
use crate::lsp::{line_col, offset_to_line_col};
use crate::text::{decimal, decimal_string};
use crate::parsing::{parse, parsed};

verus! {

/// The name of a severity as the report prints it.
pub open spec fn severity_name(s: Severity) -> Seq<char> {
    match s {
        Severity::Error => "error"@,
        Severity::Warning => "warning"@,
        Severity::Info => "info"@,
        Severity::Hint => "hint"@,
    }
}

/// The name of a severity as the report prints it.
pub fn severity_str(s: Severity) -> (r: &'static str)
    ensures
        r@ == severity_name(s),
{
    match s {
        Severity::Error => "error",
        Severity::Warning => "warning",
        Severity::Info => "info",
        Severity::Hint => "hint",
    }
}

/// `display:line:column: severity: code: message`, with line and column
/// counted from 1.
pub open spec fn report_line(display: Seq<char>, text: Seq<char>, d: Diagnostic) -> Seq<char> {
    let lc = line_col(text, d.span.byte_offset);
    display + ":"@ + decimal((lc.0 + 1) as nat) + ":"@ + decimal((lc.1 + 1) as nat) + ": "@ + severity_name(d.severity)
        + ": "@ + d.code@ + ": "@ + d.message@
}

/// The report line of one diagnostic.
pub fn diagnostic_line(display: &str, text: &str, d: &Diagnostic) -> (r: String)
    requires
        newline_count(text@) <= u32::MAX,
    ensures
        r@ == report_line(display@, text@, *d),
{
    let (line, col) = offset_to_line_col(text, d.span.byte_offset);
    let mut s = String::from_str(display);
    s.append(":");
    s.append(decimal_string(line as u64 + 1).as_str());
    s.append(":");
    s.append(decimal_string(col as u64 + 1).as_str());
    s.append(": ");
    s.append(severity_str(d.severity));
    s.append(": ");
    s.append(d.code.as_str());
    s.append(": ");
    s.append(d.message.as_str());
    s
}

/// The report: one line per diagnostic, in order.
pub fn validation_lines(display: &str, text: &str, diagnostics: &[Diagnostic]) -> (r: Vec<String>)
    requires
        newline_count(text@) <= u32::MAX,
    ensures
        r@.len() == diagnostics@.len(),
        forall|i: int| 0 <= i < r@.len() ==> (#[trigger] r@[i])@ == report_line(display@, text@, diagnostics@[i]),
{
    let mut r: Vec<String> = Vec::new();
    let mut i: usize = 0;
    while i < diagnostics.len()
        invariant
            i <= diagnostics.len(),
            r@.len() == i,
            newline_count(text@) <= u32::MAX,
            forall|j: int| 0 <= j < i ==> (#[trigger] r@[j])@ == report_line(display@, text@, diagnostics@[j]),
        decreases diagnostics.len() - i,
    {
        r.push(diagnostic_line(display, text, &diagnostics[i]));
        i += 1;
    }
    r
}

/// The number of diagnostics of error severity among `ds`.
pub open spec fn errors_in(ds: Seq<Diagnostic>) -> nat
    decreases ds.len(),
{
    if ds.len() == 0 {
        0
    } else {
        errors_in(ds.drop_last()) + if ds.last().severity == Severity::Error { 1nat } else { 0nat }
    }
}

/// Law: the error count is the number of diagnostics whose severity is
/// `Error`: warnings, infos and hints never count, so a list without an
/// error counts 0 (and `sie validate` succeeds), and a list of errors counts
/// them all.
pub proof fn law_error_count(ds: Seq<Diagnostic>)
    ensures
        errors_in(ds) == ds.filter(|d: Diagnostic| d.severity == Severity::Error).len(),
        errors_in(ds) <= ds.len(),
        (forall|i: int| 0 <= i < ds.len() ==> ds[i].severity != Severity::Error) ==> errors_in(ds) == 0,
        (forall|i: int| 0 <= i < ds.len() ==> ds[i].severity == Severity::Error) ==> errors_in(ds) == ds.len(),
    decreases ds.len(),
{
    reveal_with_fuel(Seq::filter, 2);
    if ds.len() > 0 {
        let front = ds.drop_last();
        law_error_count(front);
        assert forall|i: int| 0 <= i < front.len() implies front[i] == ds[i] by {}
        if forall|i: int| 0 <= i < ds.len() ==> ds[i].severity != Severity::Error {
            assert(ds.last() == ds[ds.len() - 1]);
        }
        if forall|i: int| 0 <= i < ds.len() ==> ds[i].severity == Severity::Error {
            assert(ds.last() == ds[ds.len() - 1]);
        }
    }
}

/// How many diagnostics are errors; validation fails when any is.
pub fn error_count(diagnostics: &[Diagnostic]) -> (r: usize)
    ensures
        r == errors_in(diagnostics@),
{
    let mut n: usize = 0;
    let mut i: usize = 0;
    assert(diagnostics@.take(0) =~= Seq::<Diagnostic>::empty());
    while i < diagnostics.len()
        invariant
            i <= diagnostics.len(),
            n == errors_in(diagnostics@.take(i as int)),
            n <= i,
        decreases diagnostics.len() - i,
    {
        assert(diagnostics@.take(i + 1).drop_last() =~= diagnostics@.take(i as int));
        if diagnostics[i].severity == Severity::Error {
            n += 1;
        }
        i += 1;
    }
    assert(diagnostics@.take(i as int) =~= diagnostics@);
    n
}

/// The `sie validate` report of a document's text: a line per diagnostic
/// of its parse, in order, and how many of them are errors (validation fails
/// when any is).
pub fn validation_report(display: &str, text: &str) -> (r: (Vec<String>, usize))
    requires
        newline_count(text@) <= u32::MAX,
    ensures
        ({
            let ds = parsed(text@).diagnostics@;
            &&& r.0@.len() == ds.len()
            &&& forall|i: int| 0 <= i < r.0@.len() ==> (#[trigger] r.0@[i])@ == report_line(display@, text@, ds[i])
            &&& r.1 == errors_in(ds)
        }),
{
    let out = parse(text);
    let lines = validation_lines(display, text, out.diagnostics.as_slice());
    let errors = error_count(out.diagnostics.as_slice());
    (lines, errors)
}

} // verus!
