use sie_lsp::accounts::{
    account_hover_markdown_in, is_balance_sheet, is_income_statement, konto_class, konto_group,
    local_account_name,
};
use sie_lsp::cli::{diagnostic_line, error_count, severity_str, validation_lines, validation_report};
use sie_lsp::parsing::{dump, parse};
use sie_lsp::completion::{
    completion_items_for_cursor, count_leading_ws, field_position_in_prefix, is_label_prefix,
    label_completion_items, label_items_for, CompletionKind,
};
use sie_lsp::document::{
    find_label_at_offset, Diagnostic, Field, FieldValue, DocItem, ParseOutput,
    Severity, Span,
};
use sie_lsp::labels::{field_is_account_no, hover_markdown, FieldKind, FieldSpec, LabelSpec};
use sie_lsp::lines::{char_width, line_text, position_to_offset};
use sie_lsp::lsp::{
    build_semantic_tokens, diagnostics, encode_semantic_tokens, hover, hover_at, semantic_tokens,
    lsp_diagnostics, map_severity, span_to_range, EncodedToken, LspSeverity, Position, Range,
};
use sie_lsp::semtok::{
    field_kind, looks_numeric, sort_by_offset, token_type_index, token_types, tokens_for,
    push_item, SemanticToken, SemanticTokenKind,
};
use sie_lsp::store::DocumentStore;
use sie_lsp::text::{
    chars_of, decimal_string, eq_ignore_ascii_case, parse_u32, str_equal, whitespace,
};

fn sp(byte_offset: usize, byte_len: usize) -> Span {
    Span { byte_offset, byte_len }
}

fn bare(text: &str, off: usize) -> Field {
    Field { value: FieldValue::Bare { text: text.to_string() }, span: sp(off, text.len()) }
}

fn quoted(text: &str, off: usize) -> Field {
    Field { value: FieldValue::Quoted { text: text.to_string() }, span: sp(off, text.len() + 2) }
}

fn item(label: &str, off: usize, fields: Vec<Field>, children: Vec<DocItem>, len: usize) -> DocItem {
    DocItem {
        label: label.to_string(),
        label_span: sp(off, label.len()),
        fields,
        children,
        span: sp(off, len),
    }
}

/// "#FLAGGA 0\n#KONTO 1930 \"Bank\"\n"
fn konto_doc() -> (String, ParseOutput) {
    let text = "#FLAGGA 0\n#KONTO 1930 \"Bank\"\n".to_string();
    let items = vec![
        item("#FLAGGA", 0, vec![bare("0", 8)], vec![], 9),
        item("#KONTO", 10, vec![bare("1930", 17), quoted("Bank", 22)], vec![], 18),
    ];
    (text, ParseOutput { items, diagnostics: vec![] })
}

#[test]
fn legend_index_points_into_the_legend() {
    let legend = token_types();
    assert_eq!(legend, vec!["keyword", "string", "number", "enumMember", "operator", "macro"]);
    let expected = [
        (SemanticTokenKind::Label, "keyword"),
        (SemanticTokenKind::String, "string"),
        (SemanticTokenKind::Number, "number"),
        (SemanticTokenKind::Date, "number"),
        (SemanticTokenKind::Enum, "enumMember"),
        (SemanticTokenKind::Brace, "operator"),
        (SemanticTokenKind::Unknown, "macro"),
    ];
    for (kind, name) in expected {
        assert_eq!(legend[kind.legend_index() as usize], name);
        assert_eq!(token_type_index(kind), kind.legend_index());
    }
}

#[test]
fn numeric_heuristic() {
    assert!(looks_numeric("12.50"));
    assert!(looks_numeric("-3"));
    assert!(!looks_numeric(""));
    assert!(!looks_numeric("1a"));
    assert!(!looks_numeric("١٢"));
}

#[test]
fn field_kinds_follow_the_schema() {
    let int = FieldSpec { name: "n".to_string(), required: true, kind: FieldKind::Integer };
    let date = FieldSpec { name: "d".to_string(), required: true, kind: FieldKind::Date };
    let en = FieldSpec { name: "e".to_string(), required: true, kind: FieldKind::Enum(vec!["A".to_string()]) };
    let st = FieldSpec { name: "s".to_string(), required: true, kind: FieldKind::String };
    let b = |t: &str| FieldValue::Bare { text: t.to_string() };
    assert_eq!(field_kind(&FieldValue::Quoted { text: "1".to_string() }, Some(&int)), SemanticTokenKind::String);
    assert_eq!(field_kind(&FieldValue::ObjectList { tokens: vec![] }, None), SemanticTokenKind::Brace);
    assert_eq!(field_kind(&b("x"), Some(&int)), SemanticTokenKind::Number);
    assert_eq!(field_kind(&b("x"), Some(&date)), SemanticTokenKind::Date);
    assert_eq!(field_kind(&b("x"), Some(&en)), SemanticTokenKind::Enum);
    assert_eq!(field_kind(&b("123"), Some(&st)), SemanticTokenKind::Number);
    assert_eq!(field_kind(&b("abc"), Some(&st)), SemanticTokenKind::String);
    assert_eq!(field_kind(&b("abc"), None), SemanticTokenKind::String);
}

#[test]
fn tokens_cover_labels_and_fields_in_offset_order() {
    let (_, out) = konto_doc();
    let toks = tokens_for(&out);
    let got: Vec<(usize, SemanticTokenKind)> = toks.iter().map(|t| (t.span.byte_offset, t.kind)).collect();
    assert_eq!(
        got,
        vec![
            (0, SemanticTokenKind::Label),
            (8, SemanticTokenKind::Enum),
            (10, SemanticTokenKind::Label),
            (17, SemanticTokenKind::Number),
            (22, SemanticTokenKind::String),
        ]
    );
}

#[test]
fn unknown_labels_and_children_are_tokenized() {
    let child = item("#TRANS", 5, vec![bare("1930", 12)], vec![], 11);
    let parent = item("#BOGUS", 20, vec![bare("ab", 27)], vec![child], 30);
    let mut out = Vec::new();
    push_item(&parent, &mut out);
    let got: Vec<(usize, SemanticTokenKind)> = out.iter().map(|t| (t.span.byte_offset, t.kind)).collect();
    assert_eq!(
        got,
        vec![
            (20, SemanticTokenKind::Unknown),
            (27, SemanticTokenKind::String),
            (5, SemanticTokenKind::Label),
            (12, SemanticTokenKind::Number),
        ]
    );
    let doc = ParseOutput { items: vec![parent], diagnostics: vec![] };
    let sorted: Vec<usize> = tokens_for(&doc).iter().map(|t| t.span.byte_offset).collect();
    assert_eq!(sorted, vec![5, 12, 20, 27]);
}

#[test]
fn sorting_keeps_equal_offsets_in_order() {
    let t = |off: usize, kind: SemanticTokenKind| SemanticToken { span: sp(off, 1), kind };
    let v = vec![
        t(3, SemanticTokenKind::Label),
        t(1, SemanticTokenKind::String),
        t(3, SemanticTokenKind::Number),
        t(1, SemanticTokenKind::Date),
        t(2, SemanticTokenKind::Enum),
    ];
    let got: Vec<(usize, SemanticTokenKind)> = sort_by_offset(&v).iter().map(|t| (t.span.byte_offset, t.kind)).collect();
    assert_eq!(
        got,
        vec![
            (1, SemanticTokenKind::String),
            (1, SemanticTokenKind::Date),
            (2, SemanticTokenKind::Enum),
            (3, SemanticTokenKind::Label),
            (3, SemanticTokenKind::Number),
        ]
    );
}

#[test]
fn positions_map_to_byte_offsets() {
    let text = "abc\ndéf\n";
    assert_eq!(position_to_offset(text, 0, 0), 0);
    assert_eq!(position_to_offset(text, 0, 2), 2);
    assert_eq!(position_to_offset(text, 1, 0), 4);
    assert_eq!(position_to_offset(text, 1, 1), 5);
    assert_eq!(position_to_offset(text, 1, 2), 7);
    assert_eq!(position_to_offset(text, 1, 10), 8);
    assert_eq!(position_to_offset(text, 2, 0), 9);
    assert_eq!(position_to_offset(text, 5, 0), 9);
    assert_eq!(position_to_offset("ab\ncd", 0, 3), 2);
    assert_eq!(position_to_offset("ab\ncd", 0, 4), 2);
    assert_eq!(position_to_offset("ab", 3, 1), 1);
}

#[test]
fn positions_and_ranges_round_trip() {
    let text = "#FLAGGA 0\n#KONTO 1930 \"Båt\"\n";
    for (line, ch) in [(0u32, 0u32), (0, 8), (1, 0), (1, 13), (1, 16)] {
        let off = position_to_offset(text, line, ch);
        let r = span_to_range(text, off, 0);
        assert_eq!(r.start, Position { line, character: ch });
    }
}

#[test]
fn line_text_stops_at_line_endings() {
    let text = "ab\ncd\r\nef";
    assert_eq!(line_text(text, 0), "ab");
    assert_eq!(line_text(text, 1), "cd");
    assert_eq!(line_text(text, 2), "ef");
    assert_eq!(line_text(text, 3), "");
    assert_eq!(line_text("a\rb\n", 0), "a");
    // A line that starts at the very end of the text is searched from the start.
    assert_eq!(line_text("a\n", 1), "a");
}

#[test]
fn label_prefixes() {
    assert!(is_label_prefix("#"));
    assert!(is_label_prefix("#KON"));
    assert!(is_label_prefix("#K_1"));
    assert!(!is_label_prefix("K"));
    assert!(!is_label_prefix(""));
    assert!(!is_label_prefix("#K-"));
    assert!(!is_label_prefix("#Ä"));
}

#[test]
fn field_positions_in_prefixes() {
    assert_eq!(field_position_in_prefix("#KTYP 1510 "), Some(("#KTYP", 1)));
    assert_eq!(field_position_in_prefix("#KTYP 1510"), Some(("#KTYP", 0)));
    assert_eq!(field_position_in_prefix("  #VER A"), Some(("#VER", 0)));
    assert_eq!(field_position_in_prefix("#TRANS 1930 {1 \"x y\"} "), Some(("#TRANS", 2)));
    assert_eq!(field_position_in_prefix("#PROSA \"a b\" c"), Some(("#PROSA", 1)));
    assert_eq!(field_position_in_prefix("#X \"a\\\" b\" "), Some(("#X", 1)));
    assert_eq!(field_position_in_prefix("#X\t\ta\t"), Some(("#X", 1)));
    assert_eq!(field_position_in_prefix("nope"), None);
    assert_eq!(field_position_in_prefix("   "), None);
    assert_eq!(count_leading_ws(&chars_of(" \u{3000}\tx")), 3);
    assert!(whitespace('\u{85}'));
    assert!(!whitespace('x'));
}

#[test]
fn completion_offers_enum_values() {
    let items = completion_items_for_cursor("#KTYP 1510 ", 0, 11).unwrap();
    let labels: Vec<&str> = items.iter().map(|c| c.label.as_str()).collect();
    assert_eq!(labels, vec!["T", "S", "K", "I"]);
    assert!(items.iter().all(|c| c.kind == CompletionKind::EnumMember));
    assert_eq!(items[0].detail.as_deref(), Some("account_type — #KTYP"));
    let flags = completion_items_for_cursor("#FLAGGA 1\n#FLAGGA ", 1, 8).unwrap();
    let labels: Vec<&str> = flags.iter().map(|c| c.label.as_str()).collect();
    assert_eq!(labels, vec!["0", "1"]);
}

#[test]
fn completion_offers_labels_at_label_positions() {
    for (text, ch) in [("", 0u32), ("#", 1), ("  #KO", 5), ("#KONTO 1930", 3)] {
        let items = completion_items_for_cursor(text, 0, ch).unwrap();
        assert_eq!(items.len(), 36, "{text}");
        assert_eq!(items[0].label, "#FLAGGA");
        assert_eq!(items[0].kind, CompletionKind::Keyword);
        assert_eq!(items[0].insert_text.as_deref(), Some("#FLAGGA"));
        assert_eq!(items[0].detail.as_deref(), Some("#FLAGGA x"));
    }
}

#[test]
fn completion_offers_nothing_elsewhere() {
    assert!(completion_items_for_cursor("#KONTO 1930 ", 0, 12).is_none());
    assert!(completion_items_for_cursor("#BOGUS x ", 0, 9).is_none());
    assert!(completion_items_for_cursor("KONTO x", 0, 7).is_none());
    assert!(completion_items_for_cursor("#KTYP 1510 T x ", 0, 15).is_none());
}

#[test]
fn schema_lookup_ignores_case() {
    let md = hover_markdown("#konto").unwrap();
    assert!(md.starts_with("### #KONTO\n\n```\n#KONTO account_no account_name\n```"));
    assert_eq!(hover_markdown("#Konto"), hover_markdown("#KONTO"));
    assert!(field_is_account_no("#konto", 0));
    assert!(hover_markdown("#VER").is_some());
    assert!(hover_markdown("#BOGUS").is_none());
    let table = label_completion_items();
    assert_eq!(table.len(), 36);
    assert!(table.iter().all(|c| c.label.starts_with('#')));
    let labels: Vec<&str> = table.iter().map(|c| c.label.as_str()).collect();
    assert!(labels.contains(&"#KONTO") && labels.contains(&"#KTYP"));
    let mut upper: Vec<String> = labels.iter().map(|l| l.to_ascii_uppercase()).collect();
    upper.sort();
    upper.dedup();
    assert_eq!(upper.len(), 36);
    let schema: Vec<&str> = sie_parser::all_labels().iter().map(|s| s.label).collect();
    assert_eq!(labels, schema);
}

#[test]
fn label_items_follow_the_table() {
    let spec = |label: &str, format: &str| LabelSpec {
        label: label.to_string(),
        description: format!("about {label}"),
        format: format.to_string(),
        fields: vec![],
        container: false,
    };
    let items = label_items_for(&vec![spec("#B", "#B x"), spec("#A", "#A")]);
    let labels: Vec<&str> = items.iter().map(|c| c.label.as_str()).collect();
    assert_eq!(labels, vec!["#B", "#A"]);
    assert_eq!(items[0].detail.as_deref(), Some("#B x"));
    assert_eq!(items[1].documentation.as_deref(), Some("about #A"));
    assert_eq!(items[1].insert_text.as_deref(), Some("#A"));
    assert!(items.iter().all(|c| c.kind == CompletionKind::Keyword));
}

#[test]
fn account_fields() {
    assert!(field_is_account_no("#KONTO", 0));
    assert!(!field_is_account_no("#KONTO", 1));
    assert!(!field_is_account_no("#KONTO", 5));
    assert!(field_is_account_no("#ib", 1));
    assert!(!field_is_account_no("#BOGUS", 0));
    assert!(!field_is_account_no("#FLAGGA", 0));
}

#[test]
fn label_hover_text() {
    assert_eq!(
        hover_markdown("#FLAGGA").unwrap(),
        "### #FLAGGA\n\n```\n#FLAGGA x\n```\n\nImport flag. `0` = not yet imported, `1` = imported. Must be the first item in the file."
    );
    assert!(hover_markdown("#NOPE").is_none());
}

#[test]
fn local_names_come_from_konto_items() {
    let (_, out) = konto_doc();
    assert_eq!(local_account_name(&out.items, 1930), Some("Bank"));
    assert_eq!(local_account_name(&out.items, 1931), None);
    let items = vec![
        item("#konto", 0, vec![bare("+0042", 7), quoted("Kassa", 13)], vec![], 20),
    ];
    assert_eq!(local_account_name(&items, 42), Some("Kassa"));
    // A #KONTO item without fields, or with an object list first, is passed over.
    let items = vec![
        item("#KONTO", 0, vec![], vec![], 6),
        item("#KONTO", 7, vec![bare("1930", 14), quoted("Bank", 19)], vec![], 20),
    ];
    assert_eq!(local_account_name(&items, 1930), Some("Bank"));
    let list = Field { value: FieldValue::ObjectList { tokens: vec![] }, span: sp(7, 2) };
    let items = vec![
        item("#KONTO", 0, vec![list], vec![], 9),
        item("#KONTO", 10, vec![bare("1930", 17), quoted("Bank", 22)], vec![], 20),
    ];
    assert_eq!(local_account_name(&items, 1930), Some("Bank"));
    // The matching item without a name gives none.
    let items = vec![item("#KONTO", 0, vec![bare("1930", 7)], vec![], 11)];
    assert_eq!(local_account_name(&items, 1930), None);
}

#[test]
fn account_number_derivations() {
    assert_eq!(konto_group(2440), 24);
    assert_eq!(konto_group(99999), 231);
    assert_eq!(konto_class(8999), 8);
    assert!(is_balance_sheet(1930));
    assert!(!is_balance_sheet(3041));
    assert!(is_income_statement(3041));
    assert!(!is_income_statement(9000));
}

#[test]
fn hover_against_a_custom_chart() {
    let plan = baskontoplan::Kontoplan::empty().with_account(1930, "Bank").with_group(19, "Likvida");
    let (_, out) = konto_doc();
    assert_eq!(
        account_hover_markdown_in(&plan, &out.items, 1930),
        "### 1930 — Bank\n\nFrom `#KONTO` in this file.\n\n**Kontogrupp 19** — Likvida\n\nClass 1 · balansräkning\n"
    );
    assert_eq!(
        account_hover_markdown_in(&plan, &[], 9999),
        "### 9999\n\nNot declared in this file and not part of BAS 2026.\n\n"
    );
}

#[test]
fn numbers_parse_like_std() {
    assert_eq!(parse_u32("+12"), Some(12));
    assert_eq!(parse_u32("007"), Some(7));
    assert_eq!(parse_u32("4294967295"), Some(u32::MAX));
    assert_eq!(parse_u32("4294967296"), None);
    assert_eq!(parse_u32("-1"), None);
    assert_eq!(parse_u32(""), None);
    assert_eq!(parse_u32("+"), None);
    assert_eq!(parse_u32("1 "), None);
    for s in ["0", "+9", "12a", "99999999999", "١"] {
        assert_eq!(parse_u32(s), s.parse::<u32>().ok(), "{s}");
    }
}

#[test]
fn text_helpers() {
    assert!(eq_ignore_ascii_case("#KoNtO", "#konto"));
    assert!(!eq_ignore_ascii_case("Ä", "ä"));
    assert!(!eq_ignore_ascii_case("#KONT", "#KONTO"));
    assert!(str_equal("å", "å"));
    assert!(!str_equal("a", "ab"));
    assert_eq!(decimal_string(0), "0");
    assert_eq!(decimal_string(1930), "1930");
    assert_eq!(decimal_string(u64::MAX), u64::MAX.to_string());
    assert_eq!(chars_of("bå"), vec!['b', 'å']);
    for c in ['a', 'é', '€', '😀'] {
        assert_eq!(char_width(c), c.len_utf8());
    }
}

#[test]
fn ranges_of_spans() {
    let r = span_to_range("ab\ncd", 3, 2);
    assert_eq!(r, Range { start: Position { line: 1, character: 0 }, end: Position { line: 1, character: 2 } });
    let r = span_to_range("åb\nc", 0, 3);
    assert_eq!(r.end, Position { line: 0, character: 2 });
}

#[test]
fn diagnostics_are_published_with_ranges() {
    let text = "#FLAGGA 0\n#BOGUS\n";
    let diags = vec![
        Diagnostic {
            code: "unknown-label".to_string(),
            message: "`#BOGUS` is not in the SIE 4B specification".to_string(),
            severity: Severity::Info,
            span: sp(10, 6),
        },
        Diagnostic { code: "bad-amount".to_string(), message: "m".to_string(), severity: Severity::Error, span: sp(0, 1) },
    ];
    let out = lsp_diagnostics(text, &diags);
    assert_eq!(out.len(), 2);
    assert_eq!(out[0].range, Range { start: Position { line: 1, character: 0 }, end: Position { line: 1, character: 6 } });
    assert_eq!(out[0].severity, LspSeverity::Information);
    assert_eq!(out[0].source, "sie");
    assert_eq!(out[0].code, "unknown-label");
    assert_eq!(out[1].severity, LspSeverity::Error);
    assert_eq!(map_severity(Severity::Warning), LspSeverity::Warning);
    assert_eq!(map_severity(Severity::Hint), LspSeverity::Hint);
}

#[test]
fn validation_report_lines() {
    let text = "#FLAGGA 0\n#BOGUS\n";
    let diags = vec![
        Diagnostic { code: "unknown-label".to_string(), message: "msg".to_string(), severity: Severity::Info, span: sp(10, 6) },
        Diagnostic { code: "bad-amount".to_string(), message: "m2".to_string(), severity: Severity::Error, span: sp(8, 1) },
    ];
    assert_eq!(
        validation_lines("f.se", text, &diags),
        vec!["f.se:2:1: info: unknown-label: msg".to_string(), "f.se:1:9: error: bad-amount: m2".to_string()]
    );
    assert_eq!(diagnostic_line("<stdin>", text, &diags[0]), "<stdin>:2:1: info: unknown-label: msg");
    assert_eq!(error_count(&diags), 1);
    assert_eq!(error_count(&diags[..1]), 0);
    assert_eq!(severity_str(Severity::Error), "error");
    assert_eq!(severity_str(Severity::Warning), "warning");
    assert_eq!(severity_str(Severity::Info), "info");
    assert_eq!(severity_str(Severity::Hint), "hint");
}

#[test]
fn semantic_tokens_are_delta_encoded() {
    let (text, out) = konto_doc();
    let tok = |delta_line, delta_start, length, token_type| EncodedToken {
        delta_line,
        delta_start,
        length,
        token_type,
        token_modifiers_bitset: 0,
    };
    let expected = vec![tok(0, 0, 7, 0), tok(0, 8, 1, 3), tok(1, 0, 6, 0), tok(0, 7, 4, 2), tok(0, 5, 6, 1)];
    assert_eq!(build_semantic_tokens(&text, &out), Some(expected));
}

#[test]
fn semantic_tokens_that_cannot_be_encoded() {
    // A token crossing a newline, whose line has a lone \r before it.
    let text = "a\rbc\nd";
    let out = ParseOutput {
        items: vec![DocItem { label: "c\nd".to_string(), label_span: sp(3, 3), fields: vec![], children: vec![], span: sp(3, 3) }],
        diagnostics: vec![],
    };
    assert_eq!(build_semantic_tokens(text, &out), None);
    // Tokens that are not in order.
    let t = |off: usize| SemanticToken { span: sp(off, 1), kind: SemanticTokenKind::String };
    assert_eq!(encode_semantic_tokens("ab\ncd", &vec![t(3), t(0)]), None);
    assert_eq!(encode_semantic_tokens("ab\ncd", &vec![t(1), t(0)]), None);
    assert_eq!(encode_semantic_tokens("ab", &vec![t(usize::MAX)]), None);
    // Across lines, the length runs to the end of the first line.
    let ok = encode_semantic_tokens("ab\ncd", &vec![SemanticToken { span: sp(1, 3), kind: SemanticTokenKind::Brace }]);
    assert_eq!(ok, Some(vec![EncodedToken { delta_line: 0, delta_start: 1, length: 1, token_type: 4, token_modifiers_bitset: 0 }]));
}

#[test]
fn hover_over_accounts_and_labels() {
    let (text, out) = konto_doc();
    let h = hover_at(&text, &out, 1, 8).unwrap();
    assert!(h.markdown.starts_with("### 1930 — Bank\n\n"), "{}", h.markdown);
    assert_eq!(h.range, Range { start: Position { line: 1, character: 7 }, end: Position { line: 1, character: 11 } });
    let h = hover_at(&text, &out, 1, 2).unwrap();
    assert!(h.markdown.starts_with("### #KONTO\n\n```\n#KONTO account_no account_name\n```"));
    assert_eq!(h.range, Range { start: Position { line: 1, character: 0 }, end: Position { line: 1, character: 6 } });
    // The name field is no account: no field hover, and no label under the cursor.
    assert!(hover_at(&text, &out, 1, 13).is_none());
    // The flag value is not an account either.
    assert!(hover_at(&text, &out, 0, 8).is_none());
    let unknown = ParseOutput { items: vec![item("#BOGUS", 0, vec![], vec![], 6)], diagnostics: vec![] };
    assert!(hover_at("#BOGUS", &unknown, 0, 1).is_none());
}

#[test]
fn labels_found_in_children() {
    let child = item("#TRANS", 20, vec![bare("1930", 27)], vec![], 11);
    let parent = item("#VER", 10, vec![], vec![child], 30);
    let items = vec![item("#FLAGGA", 0, vec![bare("0", 8)], vec![], 9), parent];
    assert_eq!(find_label_at_offset(&items, 21).unwrap().label, "#TRANS");
    assert_eq!(find_label_at_offset(&items, 11).unwrap().label, "#VER");
    assert!(find_label_at_offset(&items, 8).is_none());
    assert!(find_label_at_offset(&items, 100).is_none());
}

#[test]
fn spans_and_values() {
    let s = sp(usize::MAX - 1, 5);
    assert!(s.contains(usize::MAX - 1));
    assert!(s.contains(usize::MAX));
    assert!(!s.contains(3));
    assert!(!sp(4, 0).contains(4));
    assert_eq!(FieldValue::Quoted { text: "x".to_string() }.as_str(), Some("x"));
    assert_eq!(FieldValue::ObjectList { tokens: vec!["1".to_string()] }.as_str(), None);
    let (_, out) = konto_doc();
}

#[test]
fn document_store_reads_back_writes() {
    let mut store = DocumentStore::new();
    assert_eq!(store.get("file:///a.se"), None);
    store.open("file:///a.se".to_string(), "#FLAGGA 0\n".to_string());
    store.open("file:///b.se".to_string(), "B".to_string());
    assert_eq!(store.get("file:///a.se").as_deref(), Some("#FLAGGA 0\n"));
    store.change("file:///a.se".to_string(), vec!["x".to_string(), "y".to_string()]);
    assert_eq!(store.get("file:///a.se").as_deref(), Some("y"));
    store.change("file:///a.se".to_string(), vec![]);
    assert_eq!(store.get("file:///a.se").as_deref(), Some("y"));
    store.close("file:///a.se");
    assert_eq!(store.get("file:///a.se"), None);
    assert_eq!(store.get("file:///b.se").as_deref(), Some("B"));
}

#[test]
fn offsets_survive_a_round_trip_through_positions() {
    let text = "#FLAGGA 0\n#KONTO 1930 \"Båt\"\n\nslut";
    for (off, _) in text.char_indices().chain([(text.len(), ' ')]) {
        let (line, col) = sie_parser::offset_to_line_col(text, off);
        assert_eq!(position_to_offset(text, line, col), off);
    }
}

#[test]
fn typing_never_lowers_the_field_index() {
    assert_eq!(field_position_in_prefix("#KON"), Some(("#KON", 0)));
    assert_eq!(field_position_in_prefix("#KONTO"), Some(("#KONTO", 0)));
    assert_eq!(field_position_in_prefix("#KONTO 1930 "), Some(("#KONTO", 1)));
    assert_eq!(field_position_in_prefix("#KONTO 1930 \"a b\" "), Some(("#KONTO", 2)));
}

#[test]
fn documents_are_answered_from_their_parse() {
    let text = "#FLAGGA 0\n#KONTO 1930 \"Bank\"\n#KTYP 1930 X\n";
    let out = parse(text);
    assert_eq!(out.items.len(), 3);
    assert_eq!(out.items[1].fields[1].value.as_str(), Some("Bank"));

    let h = hover(text, 1, 8).unwrap();
    assert!(h.markdown.starts_with("### 1930 — Bank"));
    assert_eq!(h.range, Range { start: Position { line: 1, character: 7 }, end: Position { line: 1, character: 11 } });
    let h = hover(text, 0, 2).unwrap();
    assert!(h.markdown.starts_with("### #FLAGGA"));
    assert!(hover(text, 5, 0).is_none());

    let ds = diagnostics(text).unwrap();
    assert_eq!(ds.len(), out.diagnostics.len());
    assert!(ds.iter().any(|d| d.code == "bad-enum-value" && d.range.start.line == 2 && d.source == "sie"));

    let toks = semantic_tokens(text).unwrap();
    assert_eq!(toks[0], EncodedToken { delta_line: 0, delta_start: 0, length: 7, token_type: 0, token_modifiers_bitset: 0 });
    assert_eq!(toks.len(), 8);

    let (lines, errors) = validation_report("f.se", text);
    assert_eq!(errors, 1);
    assert_eq!(lines.len(), out.diagnostics.len());
    assert!(lines.iter().any(|l| l.starts_with("f.se:3:")));

    let json = dump(text).unwrap();
    assert!(json.contains("\"#KONTO\""));
    assert!(json.contains("bad-enum-value"));
}
