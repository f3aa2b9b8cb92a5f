//! The parser crate's entry points, in the library's document model.

use vstd::prelude::*;
use crate::document::{Diagnostic, DocItem, Field, FieldValue, ParseOutput, Severity, Span};
use sie_parser::{FieldValue as PValue, Item, Severity as PSev};

verus! {

#[verifier::external_type_specification]
#[verifier::external_body]
pub struct ExItem(Item);

/// What `sie_parser::parse` makes of `text`, in the library's model.
pub uninterp spec fn parsed(text: Seq<char>) -> ParseOutput;

/// One item of the parser's tree, converted field for field, with its
/// children.
#[verifier::external_body]
fn convert_item(i: &Item) -> DocItem {
    let sp = |s: sie_parser::Span| Span { byte_offset: s.byte_offset, byte_len: s.byte_len };
    let fd = |f: &sie_parser::Field| Field { span: sp(f.span), value: match &f.value {
        PValue::Bare { text } => FieldValue::Bare { text: text.clone() },
        PValue::Quoted { text } => FieldValue::Quoted { text: text.clone() },
        PValue::ObjectList { tokens } => FieldValue::ObjectList { tokens: tokens.clone() },
    } };
    DocItem { label: i.label.clone(), label_span: sp(i.label_span), fields: i.fields.iter().map(fd).collect(),
        children: i.children.iter().map(convert_item).collect(), span: sp(i.span) }
}

/// `sie_parser::parse`: the items and diagnostics of an SIE text. Trusted:
/// the result is the named parse of `text`, its items and diagnostics
/// converted field for field.
#[verifier::external_body]
pub fn parse(text: &str) -> (r: ParseOutput)
    ensures
        r == parsed(text@),
{
    let o = sie_parser::parse(text);
    let sp = |s: sie_parser::Span| Span { byte_offset: s.byte_offset, byte_len: s.byte_len };
    let sev = |s| match s { PSev::Error => Severity::Error, PSev::Warning => Severity::Warning,
        PSev::Info => Severity::Info, PSev::Hint => Severity::Hint };
    let diagnostics = o.diagnostics.iter().map(|d| Diagnostic { code: d.code.to_string(),
        message: d.message.clone(), severity: sev(d.severity), span: sp(d.span) });
    ParseOutput { items: o.items.iter().map(convert_item).collect(), diagnostics: diagnostics.collect() }
}

/// The pretty-printed JSON that `serde_json::to_string_pretty` makes of the
/// parser's output for `text`, or `None` where serialisation fails.
pub uninterp spec fn dump_of(text: Seq<char>) -> Option<Seq<char>>;

/// `serde_json::to_string_pretty` of `sie_parser::parse(text)`. Trusted: the
/// result is the named rendering of `text`.
#[verifier::external_body]
fn dump_json(text: &str) -> (r: Option<String>)
    ensures
        match r {
            Some(s) => dump_of(text@) == Some(s@),
            None => dump_of(text@) is None,
        },
{
    serde_json::to_string_pretty(&sie_parser::parse(text)).ok()
}

/// The parse tree of `text` as pretty-printed JSON, for `sie dump`; `None`
/// where it cannot be serialised.
pub fn dump(text: &str) -> (r: Option<String>)
    ensures
        match r {
            Some(s) => dump_of(text@) == Some(s@),
            None => dump_of(text@) is None,
        },
{
    dump_json(text)
}

} // verus!
