//! Semantic tokens: one token per label and per field of a parsed document,
//! classified against the label schema and ordered by where they start.

use vstd::prelude::*;
use crate::document::{FieldValue, DocItem, ParseOutput, Span};
use crate::labels::{label_entry, label_info, FieldKind, FieldKindView, FieldSpecView, LabelSpecView};
use crate::text::is_digit;

verus! {

/// The kind of a semantic token.
#[derive(Debug, Clone, Copy, PartialEq, Eq, Structural)]
pub enum SemanticTokenKind {
    Label,
    String,
    Number,
    Date,
    Enum,
    Brace,
    Unknown,
}

/// The position of a kind's token type in the legend of [`token_types`];
/// dates are shown as numbers, as the standard legend has no date type.
pub open spec fn legend_position(kind: SemanticTokenKind) -> u32 {
    match kind {
        SemanticTokenKind::Label => 0,
        SemanticTokenKind::String => 1,
        SemanticTokenKind::Number => 2,
        SemanticTokenKind::Enum => 3,
        SemanticTokenKind::Brace => 4,
        SemanticTokenKind::Unknown => 5,
        SemanticTokenKind::Date => 2,
    }
}

impl SemanticTokenKind {
    /// Index into the legend of [`token_types`].
    pub fn legend_index(&self) -> (r: u32)
        ensures
            r == legend_position(*self),
            r < 6,
    {
        match self {
            SemanticTokenKind::Label => 0,
            SemanticTokenKind::String => 1,
            SemanticTokenKind::Number => 2,
            SemanticTokenKind::Enum => 3,
            SemanticTokenKind::Brace => 4,
            SemanticTokenKind::Unknown => 5,
            SemanticTokenKind::Date => 2,
        }
    }
}

/// The legend index sent as the type of a token of kind `k`.
pub fn token_type_index(k: SemanticTokenKind) -> (r: u32)
    ensures
        r == legend_position(k),
{
    k.legend_index()
}

/// The token-type legend advertised by the server, in order: indices into
/// it are the token types sent for each token.
pub fn token_types() -> (r: Vec<&'static str>)
    ensures
        r@.len() == 6,
        r@[0]@ == "keyword"@,
        r@[1]@ == "string"@,
        r@[2]@ == "number"@,
        r@[3]@ == "enumMember"@,
        r@[4]@ == "operator"@,
        r@[5]@ == "macro"@,
{
    let mut r: Vec<&'static str> = Vec::new();
    r.push("keyword");
    r.push("string");
    r.push("number");
    r.push("enumMember");
    r.push("operator");
    r.push("macro");
    r
}

/// A token: the span it covers and its kind.
#[derive(Debug, Clone, Copy)]
pub struct SemanticToken {
    pub span: Span,
    pub kind: SemanticTokenKind,
}

/// Non-empty, and only ASCII digits, `.` and `-`.
pub open spec fn numeric_looking(s: Seq<char>) -> bool {
    &&& s.len() > 0
    &&& forall|i: int| 0 <= i < s.len() ==> is_digit(#[trigger] s[i]) || s[i] == '.' || s[i] == '-'
}

/// Whether a value of a field the schema does not describe looks like a number.
pub fn looks_numeric(s: &str) -> (r: bool)
    ensures
        r == numeric_looking(s@),
{
    let cs = crate::text::chars_of(s);
    if cs.len() == 0 {
        return false;
    }
    let mut i: usize = 0;
    while i < cs.len()
        invariant
            cs@ == s@,
            i <= cs.len(),
            forall|j: int| 0 <= j < i ==> is_digit(#[trigger] s@[j]) || s@[j] == '.' || s@[j] == '-',
        decreases cs.len() - i,
    {
        let c = cs[i];
        if !(crate::text::ascii_digit(c) || c == '.' || c == '-') {
            return false;
        }
        i = i + 1;
    }
    true
}

/// The token kind of a field value, given the schema's entry for the field:
/// quoted values are strings and object lists braces; a bare value takes its
/// kind from the schema, and where the schema has no numeric, date or enum
/// kind for it, is a number if it looks like one and a string otherwise.
pub open spec fn field_token_kind(value: FieldValue, fspec: Option<FieldSpecView>) -> SemanticTokenKind {
    match value {
        FieldValue::Quoted { .. } => SemanticTokenKind::String,
        FieldValue::ObjectList { .. } => SemanticTokenKind::Brace,
        FieldValue::Bare { text } => match fspec {
            Some(f) => match f.kind {
                FieldKindView::Integer => SemanticTokenKind::Number,
                FieldKindView::Decimal => SemanticTokenKind::Number,
                FieldKindView::Date => SemanticTokenKind::Date,
                FieldKindView::Enum(_) => SemanticTokenKind::Enum,
                _ => if numeric_looking(text@) { SemanticTokenKind::Number } else { SemanticTokenKind::String },
            },
            None => if numeric_looking(text@) { SemanticTokenKind::Number } else { SemanticTokenKind::String },
        },
    }
}

/// Law: how a field's token is classified against the schema. A quoted
/// value is a string (legend index 1) and an object list a brace (4),
/// whatever the schema says; a bare value of an integer or decimal field is
/// a number (legend index 2), of a date field a date drawn as a number (2),
/// and of an enum field an enum member (3), whatever its text.
pub proof fn law_field_token_kind(value: FieldValue, fspec: Option<FieldSpecView>)
    ensures
        value is Quoted ==> field_token_kind(value, fspec) == SemanticTokenKind::String
            && legend_position(field_token_kind(value, fspec)) == 1,
        value is ObjectList ==> field_token_kind(value, fspec) == SemanticTokenKind::Brace
            && legend_position(field_token_kind(value, fspec)) == 4,
        value is Bare && fspec is Some && (fspec->0.kind is Integer || fspec->0.kind is Decimal)
            ==> field_token_kind(value, fspec) == SemanticTokenKind::Number
            && legend_position(field_token_kind(value, fspec)) == 2,
        value is Bare && fspec is Some && fspec->0.kind is Date
            ==> field_token_kind(value, fspec) == SemanticTokenKind::Date
            && legend_position(field_token_kind(value, fspec)) == 2,
        value is Bare && fspec is Some && fspec->0.kind is Enum
            ==> field_token_kind(value, fspec) == SemanticTokenKind::Enum
            && legend_position(field_token_kind(value, fspec)) == 3,
{
}

/// Law: a bare value that the schema gives no numeric, date or enum kind
/// (no schema entry, or a string, raw or object-list field) is a number
/// exactly when it is non-empty and made of ASCII digits, `.` and `-`, and a
/// string otherwise.
pub proof fn law_unschemed_token_kind(text: String, fspec: Option<FieldSpecView>)
    requires
        fspec is None || fspec->0.kind is String || fspec->0.kind is Raw || fspec->0.kind is ObjectList,
    ensures
        ({
            let k = field_token_kind(FieldValue::Bare { text }, fspec);
            let t = text@;
            &&& (k == SemanticTokenKind::Number) <==> (t.len() > 0 && forall|j: int|
                0 <= j < t.len() ==> ('0' <= #[trigger] t[j] <= '9' || t[j] == '.' || t[j] == '-'))
            &&& k == SemanticTokenKind::Number || k == SemanticTokenKind::String
        }),
{
}

/// Classify a field value against the schema's entry for its field.
pub fn field_kind(value: &FieldValue, fspec: Option<&crate::labels::FieldSpec>) -> (r: SemanticTokenKind)
    ensures
        r == field_token_kind(*value, match fspec { Some(f) => Some(f@), None => None }),
{
    match value {
        FieldValue::Quoted { .. } => SemanticTokenKind::String,
        FieldValue::ObjectList { .. } => SemanticTokenKind::Brace,
        FieldValue::Bare { text } => {
            let known = match fspec {
                Some(f) => match &f.kind {
                    FieldKind::Integer => Some(SemanticTokenKind::Number),
                    FieldKind::Decimal => Some(SemanticTokenKind::Number),
                    FieldKind::Date => Some(SemanticTokenKind::Date),
                    FieldKind::Enum(_) => Some(SemanticTokenKind::Enum),
                    _ => None,
                },
                None => None,
            };
            match known {
                Some(k) => k,
                None => if looks_numeric(text.as_str()) {
                    SemanticTokenKind::Number
                } else {
                    SemanticTokenKind::String
                },
            }
        },
    }
}

/// The schema entry for field `i` of a label, if the label and field exist.
pub open spec fn schema_field(spec: Option<LabelSpecView>, i: int) -> Option<FieldSpecView> {
    match spec {
        Some(s) => if 0 <= i < s.fields.len() { Some(s.fields[i]) } else { None },
        None => None,
    }
}

/// The tokens of an item's own label and fields, in order: the label is a
/// label token when the schema knows it and an unknown one otherwise.
pub open spec fn own_tokens(item: DocItem) -> Seq<SemanticToken> {
    let spec = label_entry(item.label@);
    seq![SemanticToken {
        span: item.label_span,
        kind: if spec is Some { SemanticTokenKind::Label } else { SemanticTokenKind::Unknown },
    }] + Seq::new(
        item.fields@.len(),
        |i: int| SemanticToken {
            span: item.fields@[i].span,
            kind: field_token_kind(item.fields@[i].value, schema_field(spec, i)),
        },
    )
}

/// Law: an item's own tokens are its label's, then one per field in order,
/// each over the field's span; a bare field that the schema of the item's
/// label gives integer or decimal kind is a number.
pub proof fn law_own_field_tokens(item: DocItem, i: int)
    requires
        0 <= i < item.fields@.len(),
    ensures
        own_tokens(item).len() == item.fields@.len() + 1,
        own_tokens(item)[0].span == item.label_span,
        own_tokens(item)[i + 1].span == item.fields@[i].span,
        ({
            &&& item.fields@[i].value is Bare
            &&& label_entry(item.label@) matches Some(s)
            &&& i < s.fields.len()
            &&& (s.fields[i].kind is Integer || s.fields[i].kind is Decimal)
        }) ==> own_tokens(item)[i + 1].kind == SemanticTokenKind::Number,
{
    let spec = label_entry(item.label@);
    law_field_token_kind(item.fields@[i].value, schema_field(spec, i));
}

/// The tokens of `items` in document order: each item's own tokens, then
/// those of its children, then the following items'.
pub open spec fn items_tokens(items: Seq<DocItem>) -> Seq<SemanticToken>
    decreases items,
{
    if items.len() == 0 {
        Seq::empty()
    } else {
        own_tokens(items[0]) + items_tokens(items[0].children@) + items_tokens(items.drop_first())
    }
}

/// Append the tokens of `item` and of its children to `out`.
pub fn push_item(item: &DocItem, out: &mut Vec<SemanticToken>)
    ensures
        final(out)@ == old(out)@ + own_tokens(*item) + items_tokens(item.children@),
    decreases item,
{
    let spec = label_info(item.label.as_str());
    let label_kind = if spec.is_some() {
        SemanticTokenKind::Label
    } else {
        SemanticTokenKind::Unknown
    };
    let ghost start = out@;
    let ghost entry = label_entry(item.label@);
    out.push(SemanticToken { span: item.label_span, kind: label_kind });
    let ghost fields_start = out@.len();
    let mut i: usize = 0;
    while i < item.fields.len()
        invariant
            i <= item.fields.len(),
            fields_start == start.len() + 1,
            entry == label_entry(item.label@),
            match spec {
                Some(s) => entry == Some(s@),
                None => entry is None,
            },
            out@ =~= start + own_tokens(*item).take(1 + i),
        decreases item.fields.len() - i,
    {
        let field = &item.fields[i];
        let fspec = match &spec {
            Some(s) => if i < s.fields.len() { Some(&s.fields[i]) } else { None },
            None => None,
        };
        let kind = field_kind(&field.value, fspec);
        out.push(SemanticToken { span: field.span, kind });
        assert(own_tokens(*item).take(2 + i) =~= own_tokens(*item).take(1 + i).push(
            own_tokens(*item)[1 + i],
        ));
        i = i + 1;
    }
    assert(own_tokens(*item).take(1 + i) =~= own_tokens(*item));
    let ghost mid = out@;
    let mut k: usize = 0;
    assert(item.children@.take(0) =~= Seq::<DocItem>::empty());
    while k < item.children.len()
        invariant
            k <= item.children.len(),
            mid == start + own_tokens(*item),
            out@ =~= mid + items_tokens(item.children@.take(k as int)),
        decreases item.children.len() - k,
    {
        push_item(&item.children[k], out);
        proof {
            lemma_items_tokens_push(item.children@, k as int);
        }
        k = k + 1;
    }
    assert(item.children@.take(k as int) =~= item.children@);
}

/// The tokens of the first `k + 1` items are those of the first `k` followed
/// by those of item `k`.
pub proof fn lemma_items_tokens_push(items: Seq<DocItem>, k: int)
    requires
        0 <= k < items.len(),
    ensures
        items_tokens(items.take(k + 1)) == items_tokens(items.take(k)) + own_tokens(items[k])
            + items_tokens(items[k].children@),
    decreases k,
{
    let t = items.take(k + 1);
    if k == 0 {
        assert(t.drop_first() =~= Seq::<DocItem>::empty());
        assert(items.take(0) =~= Seq::<DocItem>::empty());
    } else {
        assert(t.drop_first() =~= items.drop_first().take(k));
        assert(items.take(k).drop_first() =~= items.drop_first().take(k - 1));
        lemma_items_tokens_push(items.drop_first(), k - 1);
    }
}

/// The tokens of `s` that start at byte `k`, in their order in `s`.
pub open spec fn tokens_at(s: Seq<SemanticToken>, k: int) -> Seq<SemanticToken>
    decreases s.len(),
{
    if s.len() == 0 {
        Seq::empty()
    } else {
        tokens_at(s.drop_last(), k) + if s.last().span.byte_offset == k {
            seq![s.last()]
        } else {
            Seq::empty()
        }
    }
}

/// Tokens ordered by the byte at which they start.
pub open spec fn sorted_by_offset(s: Seq<SemanticToken>) -> bool {
    forall|i: int, j: int|
        0 <= i < j < s.len() ==> (#[trigger] s[i]).span.byte_offset <= (#[trigger] s[j]).span.byte_offset
}

/// `r` is `s` sorted stably by start offset: ordered, and for every offset
/// the tokens starting there are those of `s`, in the same order.
pub open spec fn stably_sorted(r: Seq<SemanticToken>, s: Seq<SemanticToken>) -> bool {
    &&& sorted_by_offset(r)
    &&& forall|k: int| #[trigger] tokens_at(r, k) == tokens_at(s, k)
}

proof fn lemma_tokens_at_concat(a: Seq<SemanticToken>, b: Seq<SemanticToken>, k: int)
    ensures
        tokens_at(a + b, k) == tokens_at(a, k) + tokens_at(b, k),
    decreases b.len(),
{
    if b.len() == 0 {
        assert(a + b =~= a);
        assert(tokens_at(a, k) + tokens_at(b, k) =~= tokens_at(a, k));
    } else {
        assert((a + b).drop_last() =~= a + b.drop_last());
        lemma_tokens_at_concat(a, b.drop_last(), k);
        assert(tokens_at(a + b, k) =~= tokens_at(a, k) + tokens_at(b, k));
    }
}

proof fn lemma_tokens_at_none(s: Seq<SemanticToken>, k: int)
    requires
        forall|j: int| 0 <= j < s.len() ==> (#[trigger] s[j]).span.byte_offset != k,
    ensures
        tokens_at(s, k) == Seq::<SemanticToken>::empty(),
    decreases s.len(),
{
    if s.len() > 0 {
        lemma_tokens_at_none(s.drop_last(), k);
        assert(tokens_at(s, k) =~= Seq::<SemanticToken>::empty());
    }
}

proof fn lemma_tokens_at_one(x: SemanticToken, k: int)
    ensures
        tokens_at(seq![x], k) == if x.span.byte_offset == k { seq![x] } else { Seq::<SemanticToken>::empty() },
{
    assert(seq![x].drop_last() =~= Seq::<SemanticToken>::empty());
    assert(tokens_at(Seq::<SemanticToken>::empty(), k) =~= Seq::<SemanticToken>::empty());
    assert(tokens_at(seq![x], k) =~= (if x.span.byte_offset == k { seq![x] } else { Seq::<SemanticToken>::empty() }));
}

proof fn lemma_tokens_at_take_succ(v: Seq<SemanticToken>, i: int)
    requires
        0 <= i < v.len(),
    ensures
        forall|k: int| #[trigger] tokens_at(v.take(i + 1), k) == tokens_at(v.take(i), k) + tokens_at(seq![v[i]], k),
{
    assert(v.take(i + 1) =~= v.take(i) + seq![v[i]]);
    assert forall|k: int| #[trigger] tokens_at(v.take(i + 1), k) == tokens_at(v.take(i), k) + tokens_at(seq![v[i]], k) by {
        lemma_tokens_at_concat(v.take(i), seq![v[i]], k);
    }
}

/// Inserting `x` into sorted `r` just after the tokens that start no later
/// than `x` keeps `r` sorted and adds `x` after the tokens at its offset.
proof fn lemma_insert_sorted(r: Seq<SemanticToken>, p: int, x: SemanticToken)
    requires
        sorted_by_offset(r),
        0 <= p <= r.len(),
        p > 0 ==> r[p - 1].span.byte_offset <= x.span.byte_offset,
        forall|j: int| p <= j < r.len() ==> (#[trigger] r[j]).span.byte_offset > x.span.byte_offset,
    ensures
        sorted_by_offset(r.insert(p, x)),
        forall|k: int| #[trigger] tokens_at(r.insert(p, x), k) == tokens_at(r, k) + tokens_at(seq![x], k),
{
    let r2 = r.insert(p, x);
    assert(r2 =~= r.take(p) + seq![x] + r.skip(p));
    assert(r =~= r.take(p) + r.skip(p));
    assert forall|k: int| #[trigger] tokens_at(r2, k) == tokens_at(r, k) + tokens_at(seq![x], k) by {
        lemma_tokens_at_concat(r.take(p) + seq![x], r.skip(p), k);
        lemma_tokens_at_concat(r.take(p), seq![x], k);
        lemma_tokens_at_concat(r.take(p), r.skip(p), k);
        lemma_tokens_at_one(x, k);
        if x.span.byte_offset == k {
            lemma_tokens_at_none(r.skip(p), k);
            assert(tokens_at(r2, k) =~= tokens_at(r, k) + tokens_at(seq![x], k));
        } else {
            assert(tokens_at(r2, k) =~= tokens_at(r, k) + tokens_at(seq![x], k));
        }
    }
    assert forall|a: int, b: int| 0 <= a < b < r2.len() implies
        (#[trigger] r2[a]).span.byte_offset <= (#[trigger] r2[b]).span.byte_offset by {
        if a < p && b > p {
            assert(r[a].span.byte_offset <= r[b - 1].span.byte_offset);
        } else if a < p && b == p {
            assert(r[a].span.byte_offset <= r[p - 1].span.byte_offset);
        } else if a > p {
            assert(r[a - 1].span.byte_offset <= r[b - 1].span.byte_offset);
        } else if a < p && b < p {
            assert(r[a].span.byte_offset <= r[b].span.byte_offset);
        }
    }
}

proof fn lemma_tokens_at_witness(r: Seq<SemanticToken>, k: int) -> (j: int)
    requires
        tokens_at(r, k).len() > 0,
    ensures
        0 <= j < r.len(),
        r[j].span.byte_offset == k,
    decreases r.len(),
{
    if r.last().span.byte_offset == k {
        (r.len() - 1) as int
    } else {
        assert(tokens_at(r, k) =~= tokens_at(r.drop_last(), k));
        lemma_tokens_at_witness(r.drop_last(), k)
    }
}

proof fn lemma_sorted_drop_last(r: Seq<SemanticToken>)
    requires
        r.len() > 0,
        sorted_by_offset(r),
    ensures
        sorted_by_offset(r.drop_last()),
{
    assert forall|a: int, b: int| 0 <= a < b < r.drop_last().len() implies
        (#[trigger] r.drop_last()[a]).span.byte_offset <= (#[trigger] r.drop_last()[b]).span.byte_offset by {
        assert(r[a].span.byte_offset <= r[b].span.byte_offset);
    }
}

proof fn lemma_groups_determine(r1: Seq<SemanticToken>, r2: Seq<SemanticToken>)
    requires
        sorted_by_offset(r1),
        sorted_by_offset(r2),
        forall|k: int| #[trigger] tokens_at(r1, k) == tokens_at(r2, k),
    ensures
        r1 == r2,
    decreases r1.len() + r2.len(),
{
    if r1.len() == 0 && r2.len() == 0 {
        assert(r1 =~= r2);
    } else if r1.len() == 0 {
        let k = r2.last().span.byte_offset as int;
        assert(tokens_at(r2, k).len() > 0);
        assert(tokens_at(r1, k) == tokens_at(r2, k));
    } else if r2.len() == 0 {
        let k = r1.last().span.byte_offset as int;
        assert(tokens_at(r1, k).len() > 0);
        assert(tokens_at(r1, k) == tokens_at(r2, k));
    } else {
        let k1 = r1.last().span.byte_offset as int;
        let k2 = r2.last().span.byte_offset as int;
        assert(tokens_at(r1, k1) == tokens_at(r2, k1));
        assert(tokens_at(r1, k2) == tokens_at(r2, k2));
        let j2 = lemma_tokens_at_witness(r2, k1);
        let j1 = lemma_tokens_at_witness(r1, k2);
        if j2 < r2.len() - 1 {
            assert(r2[j2].span.byte_offset <= r2[r2.len() - 1].span.byte_offset);
        }
        if j1 < r1.len() - 1 {
            assert(r1[j1].span.byte_offset <= r1[r1.len() - 1].span.byte_offset);
        }
        assert(k1 == k2);
        let a = tokens_at(r1.drop_last(), k1);
        let b = tokens_at(r2.drop_last(), k1);
        assert(tokens_at(r1, k1) =~= a.push(r1.last()));
        assert(tokens_at(r2, k1) =~= b.push(r2.last()));
        assert(a.push(r1.last()) == b.push(r2.last()));
        assert(r1.last() == a.push(r1.last()).last());
        assert(r2.last() == b.push(r2.last()).last());
        assert(a =~= a.push(r1.last()).drop_last());
        assert(b =~= b.push(r2.last()).drop_last());
        assert forall|k: int| #[trigger] tokens_at(r1.drop_last(), k) == tokens_at(r2.drop_last(), k) by {
            assert(tokens_at(r1, k) == tokens_at(r2, k));
            if k != k1 {
                assert(tokens_at(r1, k) =~= tokens_at(r1.drop_last(), k));
                assert(tokens_at(r2, k) =~= tokens_at(r2.drop_last(), k));
            }
        }
        lemma_sorted_drop_last(r1);
        lemma_sorted_drop_last(r2);
        lemma_groups_determine(r1.drop_last(), r2.drop_last());
        assert(r1 =~= r1.drop_last().push(r1.last()));
        assert(r2 =~= r2.drop_last().push(r2.last()));
    }
}

/// Law: sorting stably by start offset has one outcome. Whatever order two
/// sorts leave tokens in, when both are ordered by offset and keep the order
/// of the tokens at each offset, they agree.
pub proof fn law_stable_sort_unique(r1: Seq<SemanticToken>, r2: Seq<SemanticToken>, s: Seq<SemanticToken>)
    requires
        stably_sorted(r1, s),
        stably_sorted(r2, s),
    ensures
        r1 == r2,
{
    assert forall|k: int| #[trigger] tokens_at(r1, k) == tokens_at(r2, k) by {
        assert(tokens_at(r1, k) == tokens_at(s, k));
        assert(tokens_at(r2, k) == tokens_at(s, k));
    }
    lemma_groups_determine(r1, r2);
}

proof fn lemma_last_with_offset(r: Seq<SemanticToken>, k: int) -> (m: int)
    requires
        tokens_at(r, k).len() > 0,
    ensures
        0 <= m < r.len(),
        r[m].span.byte_offset == k,
        forall|j: int| m < j < r.len() ==> (#[trigger] r[j]).span.byte_offset != k,
    decreases r.len(),
{
    if r.last().span.byte_offset == k {
        (r.len() - 1) as int
    } else {
        assert(tokens_at(r, k) =~= tokens_at(r.drop_last(), k));
        let m = lemma_last_with_offset(r.drop_last(), k);
        assert forall|j: int| m < j < r.len() implies (#[trigger] r[j]).span.byte_offset != k by {
            if j < r.len() - 1 {
                assert(r[j] == r.drop_last()[j]);
            }
        }
        m
    }
}

/// Law: a stable sort by offset keeps every token and adds none: it has as
/// many tokens as it was given, one per label and field of the document.
pub proof fn law_stable_sort_keeps_count(r: Seq<SemanticToken>, s: Seq<SemanticToken>)
    requires
        stably_sorted(r, s),
    ensures
        r.len() == s.len(),
    decreases s.len(),
{
    if s.len() == 0 {
        if r.len() > 0 {
            let k = r.last().span.byte_offset as int;
            assert(tokens_at(r, k).len() > 0);
            assert(tokens_at(r, k) == tokens_at(s, k));
        }
    } else {
        let x = s.last();
        let k = x.span.byte_offset as int;
        assert(tokens_at(s, k) =~= tokens_at(s.drop_last(), k).push(x));
        assert(tokens_at(r, k) == tokens_at(s, k));
        let m = lemma_last_with_offset(r, k);
        let r2 = r.remove(m);
        assert(r =~= r.take(m) + seq![r[m]] + r.skip(m + 1));
        assert(r2 =~= r.take(m) + r.skip(m + 1));
        assert forall|j: int| 0 <= j < r.skip(m + 1).len() implies (#[trigger] r.skip(m + 1)[j]).span.byte_offset != k by {
            assert(r.skip(m + 1)[j] == r[m + 1 + j]);
        }
        assert forall|kk: int| #[trigger] tokens_at(r2, kk) == tokens_at(s.drop_last(), kk) by {
            lemma_tokens_at_concat(r.take(m) + seq![r[m]], r.skip(m + 1), kk);
            lemma_tokens_at_concat(r.take(m), seq![r[m]], kk);
            lemma_tokens_at_concat(r.take(m), r.skip(m + 1), kk);
            lemma_tokens_at_one(r[m], kk);
            assert(tokens_at(r, kk) == tokens_at(s, kk));
            if kk == k {
                lemma_tokens_at_none(r.skip(m + 1), k);
                assert(tokens_at(r, k) =~= tokens_at(r2, k).push(r[m]));
                assert(tokens_at(r2, k) =~= tokens_at(r, k).drop_last());
                assert(tokens_at(s.drop_last(), k) =~= tokens_at(s, k).drop_last());
            } else {
                assert(tokens_at(r2, kk) =~= tokens_at(r, kk));
                assert(tokens_at(s, kk) =~= tokens_at(s.drop_last(), kk));
            }
        }
        assert forall|a: int, b: int| 0 <= a < b < r2.len() implies
            (#[trigger] r2[a]).span.byte_offset <= (#[trigger] r2[b]).span.byte_offset by {
            let a1 = if a < m { a } else { a + 1 };
            let b1 = if b < m { b } else { b + 1 };
            assert(r2[a] == r[a1] && r2[b] == r[b1]);
            assert(r[a1].span.byte_offset <= r[b1].span.byte_offset);
        }
        law_stable_sort_keeps_count(r2, s.drop_last());
    }
}

/// Sort tokens by start offset, keeping the order of tokens that start at
/// the same byte.
pub fn sort_by_offset(v: &Vec<SemanticToken>) -> (r: Vec<SemanticToken>)
    ensures
        stably_sorted(r@, v@),
{
    let mut r: Vec<SemanticToken> = Vec::new();
    let mut i: usize = 0;
    while i < v.len()
        invariant
            i <= v.len(),
            sorted_by_offset(r@),
            forall|k: int| #[trigger] tokens_at(r@, k) == tokens_at(v@.take(i as int), k),
        decreases v.len() - i,
    {
        let x = v[i];
        let mut p: usize = r.len();
        while p > 0 && r[p - 1].span.byte_offset > x.span.byte_offset
            invariant
                p <= r.len(),
                forall|j: int| p <= j < r.len() ==> (#[trigger] r@[j]).span.byte_offset > x.span.byte_offset,
            decreases p,
        {
            p = p - 1;
        }
        let ghost old_r = r@;
        proof {
            if p > 0 {
                assert(old_r[p - 1].span.byte_offset <= x.span.byte_offset);
            }
            lemma_insert_sorted(old_r, p as int, x);
            lemma_tokens_at_take_succ(v@, i as int);
        }
        r.insert(p, x);
        i = i + 1;
    }
    assert(v@.take(i as int) =~= v@);
    r
}

/// The semantic tokens of a parsed document: every label and field, sorted
/// stably by the byte at which it starts.
pub fn tokens_for(out: &ParseOutput) -> (r: Vec<SemanticToken>)
    ensures
        stably_sorted(r@, items_tokens(out.items@)),
{
    let mut toks: Vec<SemanticToken> = Vec::new();
    let mut k: usize = 0;
    assert(out.items@.take(0) =~= Seq::<DocItem>::empty());
    while k < out.items.len()
        invariant
            k <= out.items.len(),
            toks@ =~= items_tokens(out.items@.take(k as int)),
        decreases out.items.len() - k,
    {
        push_item(&out.items[k], &mut toks);
        proof {
            lemma_items_tokens_push(out.items@, k as int);
        }
        k = k + 1;
    }
    assert(out.items@.take(k as int) =~= out.items@);
    sort_by_offset(&toks)
}

} // verus!
