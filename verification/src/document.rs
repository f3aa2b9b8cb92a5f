//! The parsed shape of an SIE document: items, their fields and spans.

use vstd::prelude::*;

verus! {

/// A byte range `[byte_offset, byte_offset + byte_len)` in the source text.
#[derive(Clone, Copy, Debug)]
pub struct Span {
    pub byte_offset: usize,
    pub byte_len: usize,
}

impl Span {
    /// True iff `offset` lies inside the span (end exclusive).
    pub open spec fn covers(self, offset: int) -> bool {
        self.byte_offset <= offset < self.byte_offset + self.byte_len
    }

    /// Whether `offset` lies inside the span, computed without overflow.
    pub fn contains(&self, offset: usize) -> (r: bool)
        ensures
            r == self.covers(offset as int),
    {
        offset >= self.byte_offset && offset - self.byte_offset < self.byte_len
    }
}

/// The value of one field of an item.
#[derive(Clone, Debug)]
pub enum FieldValue {
    Bare { text: String },
    Quoted { text: String },
    ObjectList { tokens: Vec<String> },
}

impl FieldValue {
    /// The text of a bare or quoted value; an object list has none.
    pub open spec fn text(self) -> Option<Seq<char>> {
        match self {
            FieldValue::Bare { text } => Some(text@),
            FieldValue::Quoted { text } => Some(text@),
            FieldValue::ObjectList { .. } => None,
        }
    }

    /// The text of a bare or quoted value.
    pub fn as_str(&self) -> (r: Option<&str>)
        ensures
            match r {
                Some(t) => self.text() == Some(t@),
                None => self.text() is None,
            },
    {
        match self {
            FieldValue::Bare { text } => Some(text.as_str()),
            FieldValue::Quoted { text } => Some(text.as_str()),
            FieldValue::ObjectList { .. } => None,
        }
    }
}

/// One field of an item together with where it stands in the text.
#[derive(Clone, Debug)]
pub struct Field {
    pub value: FieldValue,
    pub span: Span,
}

/// One `#LABEL field field ...` line, with the items of its brace block.
#[derive(Debug)]
pub struct DocItem {
    pub label: String,
    pub label_span: Span,
    pub fields: Vec<Field>,
    pub children: Vec<DocItem>,
    pub span: Span,
}

/// How serious a diagnostic is.
#[derive(Debug, Clone, Copy, PartialEq, Eq, Structural)]
pub enum Severity {
    Error,
    Warning,
    Info,
    Hint,
}

/// A problem the parser found, with a stable code such as `bad-date-format`.
#[derive(Clone, Debug)]
pub struct Diagnostic {
    pub code: String,
    pub message: String,
    pub severity: Severity,
    pub span: Span,
}

/// The parser's output: the items of the document and its diagnostics.
#[derive(Debug)]
pub struct ParseOutput {
    pub items: Vec<DocItem>,
    pub diagnostics: Vec<Diagnostic>,
}

/// A span whose end, `byte_offset + byte_len`, is a `usize`.
pub open spec fn span_fits(s: Span) -> bool {
    s.byte_offset + s.byte_len <= usize::MAX
}

/// Law: what the searches find lies under the offset: the label found
/// covers it, and the field found covers it and is the first such field of
/// an item that covers it.
pub proof fn law_found_under_offset(items: Seq<DocItem>, offset: int)
    ensures
        label_at(items, offset) matches Some(item) ==> item.label_span.covers(offset),
        field_at(items, offset) matches Some((item, i)) ==> {
            &&& item.span.covers(offset)
            &&& 0 <= i < item.fields@.len()
            &&& item.fields@[i].span.covers(offset)
            &&& forall|j: int| 0 <= j < i ==> !(#[trigger] item.fields@[j]).span.covers(offset)
        },
    decreases items,
{
    if items.len() > 0 {
        let item = items[0];
        law_found_under_offset(item.children@, offset);
        law_found_under_offset(items.drop_first(), offset);
        lemma_field_index_first_covering(item.fields@, offset);
    }
}

proof fn lemma_field_index_first_covering(fields: Seq<Field>, offset: int)
    ensures
        field_index_at(fields, offset) matches Some(i) ==> {
            &&& 0 <= i < fields.len()
            &&& fields[i].span.covers(offset)
            &&& forall|j: int| 0 <= j < i ==> !(#[trigger] fields[j]).span.covers(offset)
        },
    decreases fields.len(),
{
    if fields.len() > 0 {
        lemma_field_index_first_covering(fields.drop_first(), offset);
        if let Some(i) = field_index_at(fields, offset) {
            if i > 0 {
                assert(fields[i] == fields.drop_first()[i - 1]);
                assert forall|j: int| 0 <= j < i implies !(#[trigger] fields[j]).span.covers(offset) by {
                    if j > 0 {
                        assert(fields[j] == fields.drop_first()[j - 1]);
                    }
                }
            }
        }
    }
}

/// The first item, searching depth first, whose label span covers `offset`;
/// an item's children are searched only when the item's span covers `offset`.
pub open spec fn label_at(items: Seq<DocItem>, offset: int) -> Option<DocItem>
    decreases items,
{
    if items.len() == 0 {
        None
    } else {
        let item = items[0];
        if item.label_span.covers(offset) {
            Some(item)
        } else if item.span.covers(offset) && label_at(item.children@, offset) is Some {
            label_at(item.children@, offset)
        } else {
            label_at(items.drop_first(), offset)
        }
    }
}

/// Locate the item whose label lies under `offset`, descending into the
/// children of an item that covers `offset`.
pub fn find_label_at_offset(items: &[DocItem], offset: usize) -> (r: Option<&DocItem>)
    ensures
        match r {
            Some(item) => label_at(items@, offset as int) == Some(*item),
            None => label_at(items@, offset as int) is None,
        },
    decreases items@,
{
    let mut i: usize = 0;
    assert(items@.skip(0) =~= items@);
    while i < items.len()
        invariant
            i <= items.len(),
            label_at(items@, offset as int) == label_at(items@.skip(i as int), offset as int),
        decreases items.len() - i,
    {
        let item = &items[i];
        assert(items@.skip(i as int).drop_first() =~= items@.skip(i + 1));
        if item.label_span.contains(offset) {
            return Some(item);
        }
        if item.span.contains(offset) {
            if let Some(child) = find_label_at_offset(item.children.as_slice(), offset) {
                return Some(child);
            }
        }
        i += 1;
    }
    None
}

/// The index of the first of `fields` whose span covers `offset`.
pub open spec fn field_index_at(fields: Seq<Field>, offset: int) -> Option<int>
    decreases fields.len(),
{
    if fields.len() == 0 {
        None
    } else if fields[0].span.covers(offset) {
        Some(0)
    } else {
        match field_index_at(fields.drop_first(), offset) {
            Some(i) => Some(i + 1),
            None => None,
        }
    }
}

/// The item and field index of the field under `offset`: items whose span
/// does not cover `offset` are passed over; within one that does, its
/// children are searched before its own fields.
pub open spec fn field_at(items: Seq<DocItem>, offset: int) -> Option<(DocItem, int)>
    decreases items,
{
    if items.len() == 0 {
        None
    } else {
        let item = items[0];
        if !item.span.covers(offset) {
            field_at(items.drop_first(), offset)
        } else if field_at(item.children@, offset) is Some {
            field_at(item.children@, offset)
        } else if field_index_at(item.fields@, offset) is Some {
            Some((item, field_index_at(item.fields@, offset)->0))
        } else {
            field_at(items.drop_first(), offset)
        }
    }
}

fn field_index_under(fields: &Vec<Field>, offset: usize) -> (r: Option<usize>)
    ensures
        match r {
            Some(i) => field_index_at(fields@, offset as int) == Some(i as int),
            None => field_index_at(fields@, offset as int) is None,
        },
{
    let mut i: usize = 0;
    while i < fields.len()
        invariant
            i <= fields.len(),
            forall|j: int| 0 <= j < i ==> !(#[trigger] fields@[j]).span.covers(offset as int),
        decreases fields.len() - i,
    {
        if fields[i].span.contains(offset) {
            proof { lemma_field_index_first(fields@, offset as int, i as int); }
            return Some(i);
        }
        i += 1;
    }
    proof { lemma_field_index_none(fields@, offset as int); }
    None
}

proof fn lemma_field_index_first(fields: Seq<Field>, offset: int, i: int)
    requires
        0 <= i < fields.len(),
        fields[i].span.covers(offset),
        forall|j: int| 0 <= j < i ==> !(#[trigger] fields[j]).span.covers(offset),
    ensures
        field_index_at(fields, offset) == Some(i),
    decreases i,
{
    if i > 0 {
        lemma_field_index_first(fields.drop_first(), offset, i - 1);
    }
}

proof fn lemma_field_index_none(fields: Seq<Field>, offset: int)
    requires
        forall|j: int| 0 <= j < fields.len() ==> !(#[trigger] fields[j]).span.covers(offset),
    ensures
        field_index_at(fields, offset) is None,
    decreases fields.len(),
{
    if fields.len() > 0 {
        lemma_field_index_none(fields.drop_first(), offset);
    }
}

/// Locate the field under `offset`, descending into the children of a
/// covering item first. Returns the owning item and the 0-based field index.
pub fn find_field_at_offset(items: &[DocItem], offset: usize) -> (r: Option<(&DocItem, usize)>)
    ensures
        match r {
            Some((item, i)) => field_at(items@, offset as int) == Some((*item, i as int)),
            None => field_at(items@, offset as int) is None,
        },
    decreases items@,
{
    let mut k: usize = 0;
    assert(items@.skip(0) =~= items@);
    while k < items.len()
        invariant
            k <= items.len(),
            field_at(items@, offset as int) == field_at(items@.skip(k as int), offset as int),
        decreases items.len() - k,
    {
        let item = &items[k];
        assert(items@.skip(k as int).drop_first() =~= items@.skip(k + 1));
        if item.span.contains(offset) {
            if let Some(found) = find_field_at_offset(item.children.as_slice(), offset) {
                return Some(found);
            }
            if let Some(i) = field_index_under(&item.fields, offset) {
                return Some((item, i));
            }
        }
        k += 1;
    }
    None
}

} // verus!
