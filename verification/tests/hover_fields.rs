use sie_lsp::accounts::account_hover_markdown;
use sie_lsp::document::find_field_at_offset;
use sie_lsp::parsing::parse;
use sie_lsp::labels::field_is_account_no;

fn offset_of(text: &str, needle: &str) -> usize {
    text.find(needle).expect("needle not in text")
}

#[test]
fn account_hover_uses_bas_when_no_local_konto() {
    let src = "#FLAGGA 0\n#VER A 1 20240101 \"x\" {\n#TRANS 1930 {} -100\n}\n";
    let out = parse(src);
    let offset = offset_of(src, "1930");
    let (item, idx) = find_field_at_offset(&out.items, offset).unwrap();
    assert_eq!(item.label, "#TRANS");
    assert_eq!(idx, 0);
    assert!(field_is_account_no(&item.label, idx));

    let md = account_hover_markdown(&out.items, 1930);
    assert!(md.contains("1930"), "missing account number: {md}");
    assert!(md.contains("Företagskonto"), "missing BAS name: {md}");
    assert!(md.contains("Kontogrupp 19"), "missing kontogrupp: {md}");
    assert!(md.contains("balansräkning"), "missing class info: {md}");
    assert!(md.contains("BAS 2026"));
}

#[test]
fn account_hover_prefers_local_konto_name() {
    let src = "#FLAGGA 0\n#KONTO 1930 \"Bank — Handelsbanken\"\n";
    let out = parse(src);
    let md = account_hover_markdown(&out.items, 1930);
    assert!(md.contains("Bank — Handelsbanken"), "missing local name: {md}");
    assert!(md.contains("Företagskonto"), "should still mention BAS name: {md}");
    assert!(md.contains("From `#KONTO` in this file"));
}

#[test]
fn account_hover_for_unknown_account_says_so() {
    let src = "#FLAGGA 0\n#KONTO 9999 \"Custom\"\n";
    let out = parse(src);
    let md = account_hover_markdown(&out.items, 4242);
    assert!(md.contains("4242"));
    assert!(md.contains("Not declared in this file and not part of BAS 2026"));
}

#[test]
fn field_at_offset_descends_into_ver_children() {
    let src = "#FLAGGA 0\n#VER A 1 20240101 \"x\" {\n#TRANS 2440 {} 100\n}\n";
    let out = parse(src);
    let offset = offset_of(src, "2440");
    let (item, idx) = find_field_at_offset(&out.items, offset).unwrap();
    assert_eq!(item.label, "#TRANS");
    assert_eq!(idx, 0);
}

#[test]
fn label_field_indices_are_recognised_for_account() {
    // #IB year_no account ...   → account is index 1
    let src = "#FLAGGA 0\n#IB 0 1930 100\n";
    let out = parse(src);
    let offset = offset_of(src, "1930");
    let (item, idx) = find_field_at_offset(&out.items, offset).unwrap();
    assert_eq!(item.label, "#IB");
    assert_eq!(idx, 1);
    assert!(field_is_account_no(&item.label, idx));
}

#[test]
fn non_account_integer_field_is_not_account() {
    // #IB year_no account balance  → year_no is index 0, not an account
    let src = "#FLAGGA 0\n#IB 0 1930 100\n";
    let out = parse(src);
    let offset = offset_of(src, " 0 ") + 1;
    let (item, idx) = find_field_at_offset(&out.items, offset).unwrap();
    assert_eq!(item.label, "#IB");
    assert_eq!(idx, 0);
    assert!(!field_is_account_no(&item.label, idx));
}

#[test]
fn account_hover_with_differing_local_name_cites_both() {
    let src = "#FLAGGA 0\n#KONTO 1930 \"Bank\"\n";
    let out = parse(src);
    let md = account_hover_markdown(&out.items, 1930);
    assert_eq!(
        md,
        "### 1930 — Bank\n\nFrom `#KONTO` in this file. BAS 2026: *Företagskonto*.\n\n\
         **Kontogrupp 19** — KASSA OCH BANK\n\nClass 1 · balansräkning\n"
    );
}

#[test]
fn account_hover_for_income_statement_account() {
    let out = parse("#FLAGGA 0\n");
    let md = account_hover_markdown(&out.items, 3001);
    assert_eq!(
        md,
        "### 3001 — Försäljning inom Sverige, 25 % moms\n\nFrom BAS 2026.\n\n\
         **Kontogrupp 30** — HUVUDINTÄKTER\n\nClass 3 · resultaträkning\n"
    );
}
