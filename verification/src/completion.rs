//! Where the cursor stands on a line being typed, and what to offer there.

use vstd::prelude::*;
use crate::text::{chars_of, whitespace, is_whitespace, ascii_alphanumeric, is_alphanumeric, str_equal};
use crate::labels::{all_labels, label_entry, label_info, schema_labels, views, FieldKind, FieldKindView, LabelSpec, LabelSpecView};
use crate::lines::{line_chars, line_text};

verus! {

/// The number of whitespace characters `s` starts with.
pub open spec fn leading_ws(s: Seq<char>) -> nat
    decreases s.len(),
{
    if s.len() > 0 && is_whitespace(s[0]) {
        1 + leading_ws(s.drop_first())
    } else {
        0
    }
}

/// `str::trim_start`: `s` without its leading whitespace.
pub open spec fn trim_start(s: Seq<char>) -> Seq<char> {
    s.skip(leading_ws(s) as int)
}

proof fn lemma_leading_ws(s: Seq<char>, k: int)
    requires
        0 <= k <= s.len(),
        forall|j: int| 0 <= j < k ==> is_whitespace(#[trigger] s[j]),
        k == s.len() || !is_whitespace(s[k]),
    ensures
        leading_ws(s) == k,
    decreases k,
{
    if k > 0 {
        lemma_leading_ws(s.drop_first(), k - 1);
    }
}

/// The number of leading whitespace characters of `cs`.
pub fn count_leading_ws(cs: &Vec<char>) -> (r: usize)
    ensures
        r == leading_ws(cs@),
        r <= cs.len(),
{
    let mut i: usize = 0;
    while i < cs.len() && whitespace(cs[i])
        invariant
            i <= cs.len(),
            forall|j: int| 0 <= j < i ==> is_whitespace(#[trigger] cs@[j]),
        decreases cs.len() - i,
    {
        i = i + 1;
    }
    proof {
        lemma_leading_ws(cs@, i as int);
    }
    i
}

/// `#` followed only by ASCII letters, digits and underscores.
pub open spec fn label_prefix(s: Seq<char>) -> bool {
    &&& s.len() > 0
    &&& s[0] == '#'
    &&& forall|i: int| 1 <= i < s.len() ==> is_alphanumeric(#[trigger] s[i]) || s[i] == '_'
}

/// Whether `s` is the beginning of a label: `#` and then identifier characters.
pub fn is_label_prefix(s: &str) -> (r: bool)
    ensures
        r == label_prefix(s@),
{
    let cs = chars_of(s);
    if cs.len() == 0 || cs[0] != '#' {
        return false;
    }
    let mut i: usize = 1;
    while i < cs.len()
        invariant
            cs@ == s@,
            1 <= i <= cs.len(),
            forall|j: int| 1 <= j < i ==> is_alphanumeric(#[trigger] s@[j]) || s@[j] == '_',
        decreases cs.len() - i,
    {
        if !(ascii_alphanumeric(cs[i]) || cs[i] == '_') {
            return false;
        }
        i = i + 1;
    }
    true
}

/// The state of the scan of the fields that follow a label:
/// (inside quotes, after a backslash in quotes, brace depth, inside a field,
/// number of fields completed).
pub type FieldScan = (bool, bool, int, bool, nat);

/// One character of the scan. Inside quotes only the closing quote (not
/// escaped by a backslash) matters; inside braces only the braces; elsewhere
/// a space or tab ends the field being typed, and anything else starts one.
pub open spec fn scan_step(st: FieldScan, c: char) -> FieldScan {
    let (in_quotes, escape, depth, in_field, index) = st;
    if in_quotes {
        if escape {
            (true, false, depth, in_field, index)
        } else if c == '\\' {
            (true, true, depth, in_field, index)
        } else if c == '"' {
            (false, false, depth, in_field, index)
        } else {
            st
        }
    } else if depth > 0 {
        if c == '}' {
            (false, escape, depth - 1, in_field, index)
        } else if c == '{' {
            (false, escape, depth + 1, in_field, index)
        } else {
            st
        }
    } else if c == ' ' || c == '\t' {
        if in_field {
            (false, escape, depth, false, index + 1)
        } else {
            st
        }
    } else if c == '"' {
        (true, escape, depth, true, index)
    } else if c == '{' {
        (false, escape, depth + 1, true, index)
    } else {
        (false, escape, depth, true, index)
    }
}

/// The scan state after all of `s`.
pub open spec fn scan_fields(s: Seq<char>) -> FieldScan
    decreases s.len(),
{
    if s.len() == 0 {
        (false, false, 0, false, 0)
    } else {
        scan_step(scan_fields(s.drop_last()), s.last())
    }
}

/// The index of the first whitespace character of `s`, or its length.
pub open spec fn first_ws(s: Seq<char>) -> nat
    decreases s.len(),
{
    if s.len() == 0 || is_whitespace(s[0]) {
        0
    } else {
        1 + first_ws(s.drop_first())
    }
}

proof fn lemma_first_ws(s: Seq<char>, k: int)
    requires
        0 <= k <= s.len(),
        forall|j: int| 0 <= j < k ==> !is_whitespace(#[trigger] s[j]),
        k == s.len() || is_whitespace(s[k]),
    ensures
        first_ws(s) == k,
    decreases k,
{
    if k > 0 {
        lemma_first_ws(s.drop_first(), k - 1);
    }
}

proof fn lemma_scan_index_monotone(p: Seq<char>, q: Seq<char>)
    ensures
        scan_fields(p + q).4 >= scan_fields(p).4,
    decreases q.len(),
{
    if q.len() == 0 {
        assert(p + q =~= p);
    } else {
        assert((p + q).drop_last() =~= p + q.drop_last());
        lemma_scan_index_monotone(p, q.drop_last());
    }
}

/// Law: a space or tab typed after a field's text, outside quotes and
/// braces, completes the field: the index of the field being typed goes up
/// by one. Inside quotes, nothing typed changes the index.
pub proof fn law_separator_completes_field(p: Seq<char>, c: char)
    ensures
        ({
            let st = scan_fields(p);
            &&& (c == ' ' || c == '\t') && !st.0 && st.2 <= 0 && st.3 ==> scan_fields(p.push(c)).4 == st.4 + 1
            &&& st.0 ==> scan_fields(p.push(c)).4 == st.4
        }),
{
    assert(p.push(c).drop_last() =~= p);
}

proof fn lemma_leading_ws_bound(s: Seq<char>)
    ensures
        leading_ws(s) <= s.len(),
    decreases s.len(),
{
    if s.len() > 0 {
        lemma_leading_ws_bound(s.drop_first());
    }
}

proof fn lemma_leading_ws_concat(p: Seq<char>, q: Seq<char>)
    requires
        leading_ws(p) < p.len(),
    ensures
        leading_ws(p + q) == leading_ws(p),
    decreases p.len(),
{
    if is_whitespace(p[0]) {
        assert((p + q).drop_first() =~= p.drop_first() + q);
        lemma_leading_ws_concat(p.drop_first(), q);
    }
}

proof fn lemma_first_ws_concat(t: Seq<char>, q: Seq<char>)
    requires
        first_ws(t) < t.len(),
    ensures
        first_ws(t + q) == first_ws(t),
    decreases t.len(),
{
    if !is_whitespace(t[0]) {
        assert((t + q).drop_first() =~= t.drop_first() + q);
        lemma_first_ws_concat(t.drop_first(), q);
    }
}

proof fn lemma_first_ws_bound(s: Seq<char>)
    ensures
        first_ws(s) <= s.len(),
    decreases s.len(),
{
    if s.len() > 0 && !is_whitespace(s[0]) {
        lemma_first_ws_bound(s.drop_first());
    }
}

/// Law: typing more at a label position never lowers the index of the field
/// being typed, and once the label is complete (followed by whitespace) it
/// stays the same label.
pub proof fn law_typing_keeps_label_and_field_order(p: Seq<char>, q: Seq<char>)
    requires
        field_position(p) is Some,
    ensures
        field_position(p) matches Some((label0, index0)) && field_position(p + q) matches Some(
            (label, index),
        ) && index >= index0 && (first_ws(trim_start(p)) < trim_start(p).len() ==> label == label0),
{
    let t = trim_start(p);
    lemma_leading_ws_bound(p);
    assert(t.len() > 0);
    lemma_leading_ws_concat(p, q);
    assert(trim_start(p + q) =~= t + q);
    assert((t + q)[0] == t[0]);
    lemma_first_ws_bound(t);
    if first_ws(t) < t.len() {
        lemma_first_ws_concat(t, q);
        let e = first_ws(t) as int;
        assert((t + q).take(e) =~= t.take(e));
        assert((t + q).skip(e) =~= t.skip(e) + q);
        lemma_scan_index_monotone(t.skip(e), q);
    } else {
        assert(t.skip(t.len() as int) =~= Seq::<char>::empty());
    }
}

/// The label and the index of the field being typed on a line whose text
/// before the cursor is `prefix`; `None` unless the line (after leading
/// whitespace) starts with `#`. Only fields followed by a space or tab
/// count as complete.
pub open spec fn field_position(prefix: Seq<char>) -> Option<(Seq<char>, nat)> {
    let t = trim_start(prefix);
    if t.len() == 0 || t[0] != '#' {
        None
    } else {
        let label_end = first_ws(t);
        Some((t.take(label_end as int), scan_fields(t.skip(label_end as int)).4))
    }
}

/// Walk the text of the current line before the cursor and return the label
/// and the 0-based index of the field currently being typed.
pub fn field_position_in_prefix(prefix: &str) -> (r: Option<(&str, usize)>)
    ensures
        match r {
            Some((label, index)) => field_position(prefix@) == Some((label@, index as nat)),
            None => field_position(prefix@) is None,
        },
{
    let cs = chars_of(prefix);
    let ws = count_leading_ws(&cs);
    let ghost t = prefix@.skip(ws as int);
    if ws == cs.len() || cs[ws] != '#' {
        return None;
    }
    let mut e: usize = ws;
    while e < cs.len() && !whitespace(cs[e])
        invariant
            cs@ == prefix@,
            ws <= e <= cs.len(),
            t == prefix@.skip(ws as int),
            forall|j: int| 0 <= j < e - ws ==> !is_whitespace(#[trigger] t[j]),
        decreases cs.len() - e,
    {
        e = e + 1;
    }
    proof {
        lemma_first_ws(t, e - ws);
    }
    let label = prefix.substring_char(ws, e);
    assert(label@ =~= t.take(e - ws));
    let ghost rest = t.skip(e - ws);
    let mut in_quotes = false;
    let mut escape = false;
    let mut depth: usize = 0;
    let mut in_field = false;
    let mut index: usize = 0;
    let mut i: usize = e;
    assert(rest.take(0) =~= Seq::<char>::empty());
    while i < cs.len()
        invariant
            cs@ == prefix@,
            e <= i <= cs.len(),
            rest =~= prefix@.skip(e as int),
            0 <= depth <= i - e,
            index <= i - e,
            (in_quotes, escape, depth as int, in_field, index as nat) == scan_fields(
                rest.take(i - e),
            ),
        decreases cs.len() - i,
    {
        let b = cs[i];
        assert(rest.take(i + 1 - e).drop_last() =~= rest.take(i - e));
        assert(rest.take(i + 1 - e).last() == b);
        if in_quotes {
            if escape {
                escape = false;
            } else if b == '\\' {
                escape = true;
            } else if b == '"' {
                in_quotes = false;
            }
        } else if depth > 0 {
            if b == '}' {
                depth = depth - 1;
            } else if b == '{' {
                depth = depth + 1;
            }
        } else if b == ' ' || b == '\t' {
            if in_field {
                in_field = false;
                index = index + 1;
            }
        } else if b == '"' {
            in_quotes = true;
            in_field = true;
        } else if b == '{' {
            depth = depth + 1;
            in_field = true;
        } else {
            in_field = true;
        }
        i = i + 1;
    }
    assert(rest.take(i - e) =~= rest);
    Some((label, index))
}

/// What kind of thing a completion offers.
#[derive(Debug, Clone, Copy, PartialEq, Eq, Structural)]
pub enum CompletionKind {
    Keyword,
    EnumMember,
}

/// One completion offered to the editor. `documentation` is markdown.
#[derive(Debug)]
pub struct CompletionItem {
    pub label: String,
    pub kind: CompletionKind,
    pub detail: Option<String>,
    pub documentation: Option<String>,
    pub insert_text: Option<String>,
}

/// The text of an optional string.
pub open spec fn opt_text(s: Option<String>) -> Option<Seq<char>> {
    match s {
        Some(t) => Some(t@),
        None => None,
    }
}

/// The completion offered for a schema label: the label itself, as a
/// keyword, with its field layout as detail and its description as
/// documentation.
pub open spec fn is_label_item(c: CompletionItem, s: LabelSpecView) -> bool {
    &&& c.label@ == s.label
    &&& c.kind == CompletionKind::Keyword
    &&& opt_text(c.detail) == Some(s.format)
    &&& opt_text(c.documentation) == Some(s.description)
    &&& opt_text(c.insert_text) == Some(s.label)
}

/// `r` offers, in order, the keyword completion of each entry of `t`.
pub open spec fn label_items(r: Seq<CompletionItem>, t: Seq<LabelSpecView>) -> bool {
    &&& r.len() == t.len()
    &&& forall|i: int| 0 <= i < r.len() ==> is_label_item(#[trigger] r[i], t[i])
}

/// One keyword completion per entry of `table`, in the table's order.
pub fn label_items_for(table: &Vec<LabelSpec>) -> (r: Vec<CompletionItem>)
    ensures
        label_items(r@, views(table@)),
{
    let mut r: Vec<CompletionItem> = Vec::new();
    let mut i: usize = 0;
    while i < table.len()
        invariant
            i <= table.len(),
            r@.len() == i,
            forall|j: int| 0 <= j < i ==> is_label_item(#[trigger] r@[j], table@[j]@),
        decreases table.len() - i,
    {
        let spec = &table[i];
        let item = CompletionItem {
            label: String::from_str(spec.label.as_str()),
            kind: CompletionKind::Keyword,
            detail: Some(String::from_str(spec.format.as_str())),
            documentation: Some(String::from_str(spec.description.as_str())),
            insert_text: Some(String::from_str(spec.label.as_str())),
        };
        r.push(item);
        i = i + 1;
    }
    r
}

/// Item `i` of `r` is the keyword completion of label `i` of the schema.
pub open spec fn schema_item_at(r: Seq<CompletionItem>, i: int) -> bool {
    &&& label_entry(schema_labels()[i]) is Some
    &&& is_label_item(r[i], label_entry(schema_labels()[i])->0)
}

/// `r` offers, in the schema's order, the keyword completion of each label
/// of the schema.
pub open spec fn schema_items(r: Seq<CompletionItem>) -> bool {
    &&& r.len() == schema_labels().len()
    &&& forall|i: int| 0 <= i < r.len() ==> #[trigger] schema_item_at(r, i)
}

/// One keyword completion per label of the schema, in the schema's order.
pub fn label_completion_items() -> (r: Vec<CompletionItem>)
    ensures
        schema_items(r@),
{
    let table = all_labels();
    let r = label_items_for(&table);
    proof {
        let t = views(table@);
        assert(schema_labels().len() == 36);
        assert(r@.len() == t.len());
        assert forall|i: int| 0 <= i < r@.len() implies #[trigger] schema_item_at(r@, i) by {
            assert(t[i].label == schema_labels()[i]);
            assert(label_entry(t[i].label) == Some(t[i]));
        }
    }
    r
}

/// The completion offered for value `v` of an enum field `field` of label
/// `label`: the value, as an enum member, with `field — label` as detail.
pub open spec fn is_variant_item(c: CompletionItem, v: Seq<char>, field: Seq<char>, label: Seq<char>) -> bool {
    &&& c.label@ == v
    &&& c.kind == CompletionKind::EnumMember
    &&& opt_text(c.detail) == Some(field + " — "@ + label)
    &&& c.documentation is None
    &&& c.insert_text is None
}

/// What to offer at a cursor.
pub enum CursorCompletion {
    /// Every label of the schema.
    Labels,
    /// The values of field `field` of schema entry `spec`, an enum field.
    Values(LabelSpecView, int),
    /// Nothing.
    Nothing,
}

/// The text before the cursor on line `line`, with the cursor `character`
/// characters into the line (or at its end).
pub open spec fn cursor_prefix(text: Seq<char>, line: nat, character: nat) -> Seq<char> {
    let l = line_chars(text, line);
    if character < l.len() { l.take(character as int) } else { l }
}

/// What to offer at the cursor: labels where the line so far, after leading
/// whitespace, is empty or a label being typed; the values of an enum field
/// where the cursor is in such a field of a label the schema knows; else
/// nothing.
pub open spec fn completion_at(text: Seq<char>, line: nat, character: nat) -> CursorCompletion {
    let prefix = cursor_prefix(text, line, character);
    let trimmed = trim_start(prefix);
    if trimmed.len() == 0 || trimmed == "#"@ || label_prefix(trimmed) {
        CursorCompletion::Labels
    } else {
        match field_position(prefix) {
            None => CursorCompletion::Nothing,
            Some((label, index)) => match label_entry(label) {
                None => CursorCompletion::Nothing,
                Some(s) => if index < s.fields.len() && s.fields[index as int].kind is Enum {
                    CursorCompletion::Values(s, index as int)
                } else {
                    CursorCompletion::Nothing
                },
            },
        }
    }
}

/// If the line so far is a label position (empty or `#`+identifier prefix),
/// offer label completion. Otherwise, if the cursor is inside an enum field
/// of a known label, offer its values. Otherwise, no completion.
pub fn completion_items_for_cursor(text: &str, line: u32, character: u32) -> (r: Option<
    Vec<CompletionItem>,
>)
    ensures
        match completion_at(text@, line as nat, character as nat) {
            CursorCompletion::Labels => r matches Some(items) && schema_items(items@),
            CursorCompletion::Values(s, f) => r matches Some(items) && ({
                let vs = s.fields[f].kind->Enum_0;
                &&& items@.len() == vs.len()
                &&& forall|i: int| 0 <= i < items@.len() ==> is_variant_item(
                    #[trigger] items@[i],
                    vs[i],
                    s.fields[f].name,
                    s.label,
                )
            }),
            CursorCompletion::Nothing => r is None,
        },
{
    let line_str = line_text(text, line);
    let cs = chars_of(line_str);
    let k: usize = if (character as usize) < cs.len() { character as usize } else { cs.len() };
    let prefix = line_str.substring_char(0, k);
    assert(prefix@ =~= cursor_prefix(text@, line as nat, character as nat));
    let pcs = chars_of(prefix);
    let ws = count_leading_ws(&pcs);
    let trimmed = prefix.substring_char(ws, pcs.len());
    assert(trimmed@ =~= trim_start(prefix@));
    let hash = "#";
    if pcs.len() == ws || str_equal(trimmed, hash) || is_label_prefix(trimmed) {
        return Some(label_completion_items());
    }
    let (label, field_index) = match field_position_in_prefix(prefix) {
        Some(p) => p,
        None => return None,
    };
    let spec = match label_info(label) {
        Some(s) => s,
        None => return None,
    };
    if field_index >= spec.fields.len() {
        return None;
    }
    let fspec = &spec.fields[field_index];
    assert(spec@.fields[field_index as int] == fspec@);
    match &fspec.kind {
        FieldKind::Enum(variants) => {
            let mut items: Vec<CompletionItem> = Vec::new();
            let mut i: usize = 0;
            while i < variants.len()
                invariant
                    i <= variants.len(),
                    items@.len() == i,
                    forall|j: int| 0 <= j < i ==> is_variant_item(
                        #[trigger] items@[j],
                        variants@[j]@,
                        fspec.name@,
                        spec.label@,
                    ),
                decreases variants.len() - i,
            {
                let mut detail = String::from_str(fspec.name.as_str());
                detail.append(" — ");
                detail.append(spec.label.as_str());
                items.push(CompletionItem {
                    label: String::from_str(variants[i].as_str()),
                    kind: CompletionKind::EnumMember,
                    detail: Some(detail),
                    documentation: None,
                    insert_text: None,
                });
                i = i + 1;
            }
            Some(items)
        },
        _ => None,
    }
}

} // verus!
