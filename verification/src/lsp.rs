//! What the language server answers: ranges, diagnostics, hovers and the
//! delta-encoded semantic tokens, computed from the text of a document and
//! its parse.

use vstd::prelude::*;
use baskontoplan::Kontoplan;
use crate::document::{
    field_at, label_at, law_found_under_offset, span_fits, find_field_at_offset,
    find_label_at_offset, Diagnostic, DocItem, ParseOutput, Severity, Span,
};
use crate::lines::{byte_len, byte_offset_of, char_position, line_chars, line_text, newline_count, position_offset, position_to_offset};
use crate::labels::{account_field, field_is_account_no, hover_markdown, label_entry, label_hover};
use crate::accounts::{account_hover_markdown, account_hover_text, plan_accounts, plan_groups};
use crate::semtok::{legend_position, stably_sorted, items_tokens, tokens_for, SemanticToken};
use crate::text::{parse_u32, parse_u32_spec};
use crate::parsing::{parse, parsed};

verus! {

/// The `(line, column)` that `sie_parser::offset_to_line_col` gives for
/// byte `offset` of `text`.
pub uninterp spec fn line_col(text: Seq<char>, offset: usize) -> (u32, u32);

/// `sie_parser::offset_to_line_col`: the line and column (counted in
/// characters) of a byte offset. Trusted: at the start of a character, or at
/// the end of the text, the line is the number of newlines before the offset
/// and the column the number of characters since the last of them, as
/// documented (the column as a `u32` cast). Of any offset, the line is at
/// most the number of newlines of the text, and the column at most its
/// length in bytes when that fits a `u32` (the crate counts newlines before
/// the offset, and characters, or failing that bytes, since the last one).
#[verifier::external_body]
pub(crate) fn offset_to_line_col(text: &str, offset: usize) -> (r: (u32, u32))
    requires
        newline_count(text@) <= u32::MAX,
    ensures
        r == line_col(text@, offset),
        r.0 <= newline_count(text@),
        byte_len(text@) <= u32::MAX ==> r.1 <= byte_len(text@),
        forall|k: int|
            0 <= k <= text@.len() && byte_offset_of(text@, k) == offset ==> r == (
                #[trigger] char_position(text@, k).0 as u32,
                char_position(text@, k).1 as u32,
            ),
{
    sie_parser::offset_to_line_col(text, offset)
}

/// A position in LSP terms: line and character, counted from 0.
#[derive(Debug, Clone, Copy, PartialEq, Eq, Structural)]
pub struct Position {
    pub line: u32,
    pub character: u32,
}

/// A range of positions, end exclusive.
#[derive(Debug, Clone, Copy, PartialEq, Eq, Structural)]
pub struct Range {
    pub start: Position,
    pub end: Position,
}

/// The position of byte `offset` of `text`.
pub open spec fn position_of(text: Seq<char>, offset: usize) -> Position {
    Position { line: line_col(text, offset).0, character: line_col(text, offset).1 }
}

/// The range that bytes `[offset, offset + len)` of `text` cover.
pub open spec fn range_of(text: Seq<char>, offset: usize, len: usize) -> Range {
    Range {
        start: position_of(text, offset),
        end: position_of(text, (offset + len) as usize),
    }
}

/// The LSP range of a byte span.
pub fn span_to_range(text: &str, byte_offset: usize, byte_len: usize) -> (r: Range)
    requires
        byte_offset + byte_len <= usize::MAX,
        newline_count(text@) <= u32::MAX,
    ensures
        r == range_of(text@, byte_offset, byte_len),
{
    let (l0, c0) = offset_to_line_col(text, byte_offset);
    let (l1, c1) = offset_to_line_col(text, byte_offset + byte_len);
    Range { start: Position { line: l0, character: c0 }, end: Position { line: l1, character: c1 } }
}

/// Severities as LSP has them.
#[derive(Debug, Clone, Copy, PartialEq, Eq, Structural)]
pub enum LspSeverity {
    Error,
    Warning,
    Information,
    Hint,
}

/// The LSP severity of a parser severity.
pub open spec fn lsp_severity(s: Severity) -> LspSeverity {
    match s {
        Severity::Error => LspSeverity::Error,
        Severity::Warning => LspSeverity::Warning,
        Severity::Info => LspSeverity::Information,
        Severity::Hint => LspSeverity::Hint,
    }
}

/// Map a parser severity to the LSP one.
pub fn map_severity(s: Severity) -> (r: LspSeverity)
    ensures
        r == lsp_severity(s),
{
    match s {
        Severity::Error => LspSeverity::Error,
        Severity::Warning => LspSeverity::Warning,
        Severity::Info => LspSeverity::Information,
        Severity::Hint => LspSeverity::Hint,
    }
}

/// A diagnostic as published to the editor, from source `sie`.
#[derive(Debug)]
pub struct LspDiagnostic {
    pub range: Range,
    pub severity: LspSeverity,
    pub code: String,
    pub source: String,
    pub message: String,
}

/// `d` publishes parser diagnostic `p` of `text`.
pub open spec fn publishes(d: LspDiagnostic, p: Diagnostic, text: Seq<char>) -> bool {
    &&& d.range == range_of(text, p.span.byte_offset, p.span.byte_len)
    &&& d.severity == lsp_severity(p.severity)
    &&& d.code@ == p.code@
    &&& d.source@ == "sie"@
    &&& d.message@ == p.message@
}

/// The diagnostics to publish for a document: one per parser diagnostic,
/// in order.
pub fn lsp_diagnostics(text: &str, diagnostics: &[Diagnostic]) -> (r: Vec<LspDiagnostic>)
    requires
        forall|i: int| 0 <= i < diagnostics@.len() ==> span_fits(#[trigger] diagnostics@[i].span),
        newline_count(text@) <= u32::MAX,
    ensures
        r@.len() == diagnostics@.len(),
        forall|i: int| 0 <= i < r@.len() ==> publishes(#[trigger] r@[i], diagnostics@[i], text@),
{
    let mut r: Vec<LspDiagnostic> = Vec::new();
    let mut i: usize = 0;
    while i < diagnostics.len()
        invariant
            i <= diagnostics.len(),
            r@.len() == i,
            forall|j: int| 0 <= j < diagnostics@.len() ==> span_fits(#[trigger] diagnostics@[j].span),
            newline_count(text@) <= u32::MAX,
            forall|j: int| 0 <= j < i ==> publishes(#[trigger] r@[j], diagnostics@[j], text@),
        decreases diagnostics.len() - i,
    {
        let d = &diagnostics[i];
        assert(span_fits(diagnostics@[i as int].span));
        r.push(LspDiagnostic {
            range: span_to_range(text, d.span.byte_offset, d.span.byte_len),
            severity: map_severity(d.severity),
            code: String::from_str(d.code.as_str()),
            source: String::from_str("sie"),
            message: String::from_str(d.message.as_str()),
        });
        i += 1;
    }
    r
}

/// A hover: markdown shown over a range of the text.
#[derive(Debug)]
pub struct Hover {
    pub markdown: String,
    pub range: Range,
}

/// The account field under `offset`, if the field found there is an
/// account-number field whose text parses as a `u32`: its span and the number.
pub open spec fn account_target(items: Seq<DocItem>, offset: int) -> Option<(Span, u32)> {
    match field_at(items, offset) {
        Some((item, i)) => if account_field(item.label@, i) {
            match item.fields@[i].value.text() {
                Some(t) => match parse_u32_spec(t) {
                    Some(no) => Some((item.fields@[i].span, no)),
                    None => None,
                },
                None => None,
            }
        } else {
            None
        },
        None => None,
    }
}

/// What the hover at LSP position (`line`, `character`) of `text`, whose
/// parsed items are `items`, is: over an account-number field, the
/// account's description against the BAS 2026 chart and the field's range;
/// otherwise, over a label the schema knows, its hover text and the label's
/// range; otherwise nothing, and nothing either where the span found ends
/// past `usize`.
pub open spec fn hover_answer(
    text: Seq<char>,
    items: Seq<DocItem>,
    line: nat,
    character: nat,
    r: Option<Hover>,
) -> bool {
    let offset = position_offset(text, line, character) as int;
    match account_target(items, offset) {
        Some((span, no)) => if span_fits(span) {
            r matches Some(h) && h.range == range_of(
                text,
                span.byte_offset,
                span.byte_len,
            ) && exists|plan: Kontoplan|
                h.markdown@ == account_hover_text(
                    items,
                    no,
                    plan_accounts(plan),
                    plan_groups(plan),
                )
        } else {
            r is None
        },
        None => match label_at(items, offset) {
            Some(item) => match label_entry(item.label@) {
                Some(s) => if span_fits(item.label_span) {
                    r matches Some(h) && h.markdown@ == label_hover(s) && h.range
                        == range_of(text, item.label_span.byte_offset, item.label_span.byte_len)
                } else {
                    r is None
                },
                None => r is None,
            },
            None => r is None,
        },
    }
}

/// The hover at LSP position (`line`, `character`) of a document: over an
/// account-number field, the account's description against the BAS 2026
/// chart and the field's range; otherwise, over a label the schema knows,
/// its hover text and the label's range; otherwise nothing.
pub fn hover_at(text: &str, out: &ParseOutput, line: u32, character: u32) -> (r: Option<Hover>)
    requires
        newline_count(text@) <= u32::MAX,
    ensures
        hover_answer(text@, out.items@, line as nat, character as nat, r),
{
    let offset = position_to_offset(text, line, character);
    proof {
        law_found_under_offset(out.items@, offset as int);
    }
    if let Some((item, field_index)) = find_field_at_offset(out.items.as_slice(), offset) {
        if field_is_account_no(item.label.as_str(), field_index) {
            if let Some(value) = item.fields[field_index].value.as_str() {
                if let Some(no) = parse_u32(value) {
                    let md = account_hover_markdown(out.items.as_slice(), no);
                    let span = item.fields[field_index].span;
                    if span.byte_offset > usize::MAX - span.byte_len {
                        return None;
                    }
                    return Some(Hover {
                        markdown: md,
                        range: span_to_range(text, span.byte_offset, span.byte_len),
                    });
                }
            }
        }
    }
    let item = match find_label_at_offset(out.items.as_slice(), offset) {
        Some(item) => item,
        None => return None,
    };
    let md = match hover_markdown(item.label.as_str()) {
        Some(md) => md,
        None => return None,
    };
    if item.label_span.byte_offset > usize::MAX - item.label_span.byte_len {
        return None;
    }
    Some(Hover {
        markdown: md,
        range: span_to_range(text, item.label_span.byte_offset, item.label_span.byte_len),
    })
}

/// A semantic token as LSP sends it: relative to the previous token's start
/// (the line delta, and the column delta on the same line or the column on a
/// new line), with its length in characters and its legend index.
#[derive(Debug, Clone, Copy, PartialEq, Eq, Structural)]
pub struct EncodedToken {
    pub delta_line: u32,
    pub delta_start: u32,
    pub length: u32,
    pub token_type: u32,
    pub token_modifiers_bitset: u32,
}

/// The length of token `t` in characters: on one line, the column distance
/// from start to end (0 if negative); across lines, what is left of its
/// first line after its start. `None` where that would be negative, or where
/// the token's end is not a `usize`.
pub open spec fn token_length(text: Seq<char>, t: SemanticToken) -> Option<u32> {
    if !span_fits(t.span) {
        None
    } else {
        let start = line_col(text, t.span.byte_offset);
        let end = line_col(text, (t.span.byte_offset + t.span.byte_len) as usize);
        if start.0 == end.0 {
            Some(if end.1 >= start.1 { (end.1 - start.1) as u32 } else { 0u32 })
        } else {
            let n = line_chars(text, start.0 as nat).len() as u32;
            if n >= start.1 { Some((n - start.1) as u32) } else { None }
        }
    }
}

/// The position of token `t` relative to the token before it, if any;
/// `None` where the token starts before the one before it.
pub open spec fn token_delta(text: Seq<char>, t: SemanticToken, prev: Option<SemanticToken>) -> Option<(u32, u32)> {
    let here = line_col(text, t.span.byte_offset);
    match prev {
        None => Some(here),
        Some(p) => {
            let there = line_col(text, p.span.byte_offset);
            if here.0 == there.0 {
                if here.1 >= there.1 { Some((0u32, (here.1 - there.1) as u32)) } else { None }
            } else if here.0 > there.0 {
                Some(((here.0 - there.0) as u32, here.1))
            } else {
                None
            }
        },
    }
}

/// The encoding of token `t` after `prev`.
pub open spec fn encode_token(text: Seq<char>, t: SemanticToken, prev: Option<SemanticToken>) -> Option<EncodedToken> {
    match token_length(text, t) {
        None => None,
        Some(length) => match token_delta(text, t, prev) {
            None => None,
            Some(d) => Some(EncodedToken {
                delta_line: d.0,
                delta_start: d.1,
                length,
                token_type: legend_position(t.kind),
                token_modifiers_bitset: 0,
            }),
        },
    }
}

/// The token before the last one of `toks`, if there is one.
pub open spec fn before_last(toks: Seq<SemanticToken>) -> Option<SemanticToken> {
    if toks.len() > 1 { Some(toks[toks.len() - 2]) } else { None }
}

/// The encoding of `toks` in order; `None` if some token cannot be encoded.
pub open spec fn encoded_tokens(text: Seq<char>, toks: Seq<SemanticToken>) -> Option<Seq<EncodedToken>>
    decreases toks.len(),
{
    if toks.len() == 0 {
        Some(Seq::empty())
    } else {
        match encoded_tokens(text, toks.drop_last()) {
            None => None,
            Some(a) => match encode_token(text, toks.last(), before_last(toks)) {
                None => None,
                Some(e) => Some(a.push(e)),
            },
        }
    }
}

proof fn lemma_encoded_none_extends(text: Seq<char>, toks: Seq<SemanticToken>, i: int)
    requires
        0 <= i <= toks.len(),
        encoded_tokens(text, toks.take(i)) is None,
    ensures
        encoded_tokens(text, toks) is None,
    decreases toks.len() - i,
{
    if i < toks.len() {
        assert(toks.take(i + 1).drop_last() =~= toks.take(i));
        lemma_encoded_none_extends(text, toks, i + 1);
    } else {
        assert(toks.take(i) =~= toks);
    }
}

/// How an editor reads delta-encoded tokens: the absolute line and column of
/// each. The first token's deltas are absolute; a later token on the same
/// line (line delta 0) adds its start delta to the previous column, and one
/// on a later line adds the line delta and takes the start delta as column.
pub open spec fn decode_positions(e: Seq<EncodedToken>) -> Seq<(int, int)>
    decreases e.len(),
{
    if e.len() == 0 {
        Seq::empty()
    } else {
        let prev = decode_positions(e.drop_last());
        let d = e.last();
        if prev.len() == 0 {
            prev.push((d.delta_line as int, d.delta_start as int))
        } else if d.delta_line == 0 {
            prev.push((prev.last().0, prev.last().1 + d.delta_start))
        } else {
            prev.push((prev.last().0 + d.delta_line, d.delta_start as int))
        }
    }
}

proof fn lemma_encoded_len(text: Seq<char>, toks: Seq<SemanticToken>, e: Seq<EncodedToken>)
    requires
        encoded_tokens(text, toks) == Some(e),
    ensures
        e.len() == toks.len(),
        decode_positions(e).len() == toks.len(),
    decreases toks.len(),
{
    if toks.len() > 0 {
        let a = encoded_tokens(text, toks.drop_last())->0;
        lemma_encoded_len(text, toks.drop_last(), a);
        let enc = encode_token(text, toks.last(), before_last(toks))->0;
        assert(e == a.push(enc));
        assert(e.drop_last() =~= a);
    }
}

/// The decoded position of token `i` is where `line_col` puts its start,
/// and its type is its kind's legend index.
pub open spec fn decodes_at(text: Seq<char>, toks: Seq<SemanticToken>, e: Seq<EncodedToken>, i: int) -> bool {
    &&& decode_positions(e)[i].0 == line_col(text, toks[i].span.byte_offset).0 as int
    &&& decode_positions(e)[i].1 == line_col(text, toks[i].span.byte_offset).1 as int
    &&& e[i].token_type == legend_position(toks[i].kind)
}

proof fn lemma_decode_one(text: Seq<char>, toks: Seq<SemanticToken>, e: Seq<EncodedToken>, i: int)
    requires
        encoded_tokens(text, toks) == Some(e),
        0 <= i < toks.len(),
    ensures
        decodes_at(text, toks, e, i),
    decreases toks.len(),
{
    let n = toks.len() - 1;
    let front = toks.drop_last();
    let a = encoded_tokens(text, front)->0;
    lemma_encoded_len(text, front, a);
    let enc = encode_token(text, toks.last(), before_last(toks))->0;
    assert(e == a.push(enc));
    assert(e.drop_last() =~= a);
    let prev = decode_positions(a);
    if i < n {
        lemma_decode_one(text, front, a, i);
        assert(front[i] == toks[i]);
        assert(decode_positions(e)[i] == prev[i]);
    } else {
        if n > 0 {
            lemma_decode_one(text, front, a, n - 1);
            assert(front[n - 1] == toks[n - 1]);
            assert(before_last(toks) == Some(toks[n - 1]));
            assert(prev.last() == prev[n - 1]);
        }
    }
}

/// Law: decoding the encoded tokens gives back where each token starts, and
/// each token's type is its kind's legend index.
pub proof fn law_decode_encoded_tokens(text: Seq<char>, toks: Seq<SemanticToken>, e: Seq<EncodedToken>)
    requires
        encoded_tokens(text, toks) == Some(e),
    ensures
        e.len() == toks.len(),
        decode_positions(e).len() == toks.len(),
        forall|i: int| 0 <= i < toks.len() ==> #[trigger] decodes_at(text, toks, e, i),
{
    lemma_encoded_len(text, toks, e);
    assert forall|i: int| 0 <= i < toks.len() implies #[trigger] decodes_at(text, toks, e, i) by {
        lemma_decode_one(text, toks, e, i);
    }
}

proof fn lemma_length_one(text: Seq<char>, toks: Seq<SemanticToken>, e: Seq<EncodedToken>, i: int)
    requires
        encoded_tokens(text, toks) == Some(e),
        0 <= i < toks.len(),
    ensures
        token_length(text, toks[i]) == Some(e[i].length),
    decreases toks.len(),
{
    let n = toks.len() - 1;
    let front = toks.drop_last();
    let a = encoded_tokens(text, front)->0;
    lemma_encoded_len(text, front, a);
    let enc = encode_token(text, toks.last(), before_last(toks))->0;
    assert(e == a.push(enc));
    if i < n {
        lemma_length_one(text, front, a, i);
        assert(front[i] == toks[i]);
    }
}

/// The end column of token `i` of `toks`, on a line of its own start, is
/// where the decoded start plus the encoded length reach: the length counts
/// the token's characters, from its start column to its end column (0 if the
/// end comes first). A token running onto a later line is cut at the end of
/// its first line: its length is what is left of that line after its start.
pub open spec fn length_reaches_end(text: Seq<char>, toks: Seq<SemanticToken>, e: Seq<EncodedToken>, i: int) -> bool {
    let start = line_col(text, toks[i].span.byte_offset);
    let end = line_col(text, (toks[i].span.byte_offset + toks[i].span.byte_len) as usize);
    &&& start.0 == end.0 && start.1 <= end.1 ==> {
        &&& e[i].length == end.1 - start.1
        &&& decode_positions(e)[i].1 + e[i].length == end.1
    }
    &&& start.0 == end.0 && start.1 > end.1 ==> e[i].length == 0
    &&& start.0 != end.0 && line_chars(text, start.0 as nat).len() <= u32::MAX ==> e[i].length
        == line_chars(text, start.0 as nat).len() - start.1
}

/// Law: for a token that starts and ends on one line, the encoded length is
/// its end column minus its start column (as `offset_to_line_col` gives
/// them, in characters), so decoding its start and adding its length gives
/// its end.
pub proof fn law_encoded_length(text: Seq<char>, toks: Seq<SemanticToken>, e: Seq<EncodedToken>)
    requires
        encoded_tokens(text, toks) == Some(e),
    ensures
        forall|i: int| 0 <= i < toks.len() ==> #[trigger] length_reaches_end(text, toks, e, i),
{
    assert forall|i: int| 0 <= i < toks.len() implies #[trigger] length_reaches_end(text, toks, e, i) by {
        lemma_length_one(text, toks, e, i);
        lemma_decode_one(text, toks, e, i);
    }
}

/// Delta-encode sorted tokens for LSP; `None` where a token cannot be
/// encoded (it would need a negative delta or length, or its end is not a
/// `usize`).
pub fn encode_semantic_tokens(text: &str, tokens: &Vec<SemanticToken>) -> (r: Option<Vec<EncodedToken>>)
    requires
        newline_count(text@) <= u32::MAX,
    ensures
        match r {
            Some(v) => encoded_tokens(text@, tokens@) == Some(v@),
            None => encoded_tokens(text@, tokens@) is None,
        },
{
    let mut result: Vec<EncodedToken> = Vec::new();
    let mut prev_line: u32 = 0;
    let mut prev_col: u32 = 0;
    let mut i: usize = 0;
    assert(tokens@.take(0) =~= Seq::<SemanticToken>::empty());
    while i < tokens.len()
        invariant
            i <= tokens.len(),
            newline_count(text@) <= u32::MAX,
            encoded_tokens(text@, tokens@.take(i as int)) == Some(result@),
            i > 0 ==> (prev_line, prev_col) == line_col(text@, tokens@[i - 1].span.byte_offset),
        decreases tokens.len() - i,
    {
        let t = tokens[i];
        let ghost pre = tokens@.take(i + 1);
        assert(pre.drop_last() =~= tokens@.take(i as int));
        assert(pre.last() == t);
        assert(i > 0 ==> before_last(pre) == Some(tokens@[i - 1]));
        if t.span.byte_offset > usize::MAX - t.span.byte_len {
            proof { lemma_encoded_none_extends(text@, tokens@, i + 1); }
            return None;
        }
        let (line, col) = offset_to_line_col(text, t.span.byte_offset);
        let (end_line, end_col) = offset_to_line_col(text, t.span.byte_offset + t.span.byte_len);
        let length: u32 = if line == end_line {
            if end_col >= col { end_col - col } else { 0 }
        } else {
            let line_str = line_text(text, line);
            let n = line_str.unicode_len() as u32;
            if n >= col {
                n - col
            } else {
                proof { lemma_encoded_none_extends(text@, tokens@, i + 1); }
                return None;
            }
        };
        let (dl, dc): (u32, u32) = if i == 0 {
            (line, col)
        } else if line == prev_line {
            if col >= prev_col {
                (0, col - prev_col)
            } else {
                proof { lemma_encoded_none_extends(text@, tokens@, i + 1); }
                return None;
            }
        } else if line > prev_line {
            (line - prev_line, col)
        } else {
            proof { lemma_encoded_none_extends(text@, tokens@, i + 1); }
            return None;
        };
        result.push(EncodedToken {
            delta_line: dl,
            delta_start: dc,
            length,
            token_type: t.kind.legend_index(),
            token_modifiers_bitset: 0,
        });
        prev_line = line;
        prev_col = col;
        i = i + 1;
    }
    assert(tokens@.take(i as int) =~= tokens@);
    Some(result)
}

/// The semantic tokens of a document, sorted by offset and delta-encoded;
/// `None` where the sorted tokens cannot all be encoded (a delta or length
/// would be negative, or a span's end is not a `usize`).
pub fn build_semantic_tokens(text: &str, out: &ParseOutput) -> (r: Option<Vec<EncodedToken>>)
    requires
        newline_count(text@) <= u32::MAX,
    ensures
        exists|toks: Seq<SemanticToken>| {
            &&& stably_sorted(toks, items_tokens(out.items@))
            &&& match r {
                Some(v) => encoded_tokens(text@, toks) == Some(v@),
                None => encoded_tokens(text@, toks) is None,
            }
        },
{
    let tokens = tokens_for(out);
    encode_semantic_tokens(text, &tokens)
}

/// The hover at LSP position (`line`, `character`) of a document's text:
/// the hover of its parse.
pub fn hover(text: &str, line: u32, character: u32) -> (r: Option<Hover>)
    requires
        newline_count(text@) <= u32::MAX,
    ensures
        hover_answer(text@, parsed(text@).items@, line as nat, character as nat, r),
{
    let out = parse(text);
    hover_at(text, &out, line, character)
}

/// The diagnostics to publish for a document's text: one per diagnostic of
/// its parse, in order; `None` where a diagnostic's span ends past `usize`.
pub fn diagnostics(text: &str) -> (r: Option<Vec<LspDiagnostic>>)
    requires
        newline_count(text@) <= u32::MAX,
    ensures
        ({
            let ds = parsed(text@).diagnostics@;
            match r {
                Some(v) => v@.len() == ds.len() && forall|i: int|
                    0 <= i < v@.len() ==> publishes(#[trigger] v@[i], ds[i], text@),
                None => exists|i: int| 0 <= i < ds.len() && !span_fits(#[trigger] ds[i].span),
            }
        }),
{
    let out = parse(text);
    let mut i: usize = 0;
    while i < out.diagnostics.len()
        invariant
            i <= out.diagnostics.len(),
            out.diagnostics@ == parsed(text@).diagnostics@,
            forall|j: int| 0 <= j < i ==> span_fits(#[trigger] out.diagnostics@[j].span),
        decreases out.diagnostics.len() - i,
    {
        let span = out.diagnostics[i].span;
        if span.byte_offset > usize::MAX - span.byte_len {
            assert(!span_fits(out.diagnostics@[i as int].span));
            return None;
        }
        i += 1;
    }
    Some(lsp_diagnostics(text, out.diagnostics.as_slice()))
}

/// The semantic tokens of a document's text, sorted by offset and
/// delta-encoded; `None` where they cannot all be encoded.
pub fn semantic_tokens(text: &str) -> (r: Option<Vec<EncodedToken>>)
    requires
        newline_count(text@) <= u32::MAX,
    ensures
        exists|toks: Seq<SemanticToken>| {
            &&& stably_sorted(toks, items_tokens(parsed(text@).items@))
            &&& match r {
                Some(v) => encoded_tokens(text@, toks) == Some(v@),
                None => encoded_tokens(text@, toks) is None,
            }
        },
{
    let out = parse(text);
    build_semantic_tokens(text, &out)
}

} // verus!
