//! The SIE 4B label schema, as the parser crate publishes it, in the
//! library's own types.

use vstd::prelude::*;
use sie_parser::labels::FieldKind as SchemaKind;
use crate::text::{eq_ignore_case, str_equal};

verus! {

/// What a field of a label holds.
#[derive(Debug)]
pub enum FieldKind {
    String,
    Integer,
    Decimal,
    Date,
    Enum(Vec<String>),
    ObjectList,
    Raw,
}

/// One field of a label's layout.
#[derive(Debug)]
pub struct FieldSpec {
    pub name: String,
    pub required: bool,
    pub kind: FieldKind,
}

/// One label of the schema: its name with the leading `#`, hover text,
/// field layout, and whether it owns a brace block.
#[derive(Debug)]
pub struct LabelSpec {
    pub label: String,
    pub description: String,
    pub format: String,
    pub fields: Vec<FieldSpec>,
    pub container: bool,
}

/// A field kind as plain values.
pub enum FieldKindView {
    String,
    Integer,
    Decimal,
    Date,
    Enum(Seq<Seq<char>>),
    ObjectList,
    Raw,
}

/// A field layout entry as plain values.
pub struct FieldSpecView {
    pub name: Seq<char>,
    pub required: bool,
    pub kind: FieldKindView,
}

/// A label of the schema as plain values.
pub struct LabelSpecView {
    pub label: Seq<char>,
    pub description: Seq<char>,
    pub format: Seq<char>,
    pub fields: Seq<FieldSpecView>,
    pub container: bool,
}

impl View for FieldKind {
    type V = FieldKindView;

    open spec fn view(&self) -> FieldKindView {
        match self {
            FieldKind::String => FieldKindView::String,
            FieldKind::Integer => FieldKindView::Integer,
            FieldKind::Decimal => FieldKindView::Decimal,
            FieldKind::Date => FieldKindView::Date,
            FieldKind::Enum(v) => FieldKindView::Enum(v@.map_values(|s: String| s@)),
            FieldKind::ObjectList => FieldKindView::ObjectList,
            FieldKind::Raw => FieldKindView::Raw,
        }
    }
}

impl View for FieldSpec {
    type V = FieldSpecView;

    open spec fn view(&self) -> FieldSpecView {
        FieldSpecView { name: self.name@, required: self.required, kind: self.kind@ }
    }
}

impl View for LabelSpec {
    type V = LabelSpecView;

    open spec fn view(&self) -> LabelSpecView {
        LabelSpecView {
            label: self.label@,
            description: self.description@,
            format: self.format@,
            fields: self.fields@.map_values(|f: FieldSpec| f@),
            container: self.container,
        }
    }
}

/// The schema entry that `sie_parser::label_info` finds for `name`.
pub uninterp spec fn label_entry(name: Seq<char>) -> Option<LabelSpecView>;

/// `sie_parser::label_info`: the schema entry whose label equals `name`
/// ignoring ASCII case. Trusted: the result is the named entry for `name`,
/// and a found entry's label equals `name` ignoring ASCII case (the crate
/// searches its table with `eq_ignore_ascii_case`).
#[verifier::external_body]
pub(crate) fn label_info(name: &str) -> (r: Option<LabelSpec>)
    ensures
        match r {
            Some(spec) => label_entry(name@) == Some(spec@) && eq_ignore_case(spec@.label, name@),
            None => label_entry(name@) is None,
        },
{
    sie_parser::label_info(name).map(|s| LabelSpec {
        label: s.label.to_string(), description: s.description.to_string(),
        format: s.format.to_string(), container: s.container,
        fields: s.fields.iter().map(|f| FieldSpec {
            name: f.name.to_string(), required: f.required, kind: match f.kind {
                SchemaKind::String => FieldKind::String, SchemaKind::Integer => FieldKind::Integer,
                SchemaKind::Decimal => FieldKind::Decimal, SchemaKind::Date => FieldKind::Date,
                SchemaKind::Enum(v) => FieldKind::Enum(v.iter().map(|x| x.to_string()).collect()),
                SchemaKind::ObjectList => FieldKind::ObjectList, SchemaKind::Raw => FieldKind::Raw,
            },
        }).collect(),
    })
}

/// The labels of the schema table, in the parser crate's order.
pub open spec fn schema_labels() -> Seq<Seq<char>> {
    seq![
        "#FLAGGA"@, "#PROGRAM"@, "#FORMAT"@, "#GEN"@, "#SIETYP"@, "#PROSA"@,
        "#FTYP"@, "#FNR"@, "#ORGNR"@, "#BKOD"@, "#ADRESS"@, "#FNAMN"@,
        "#RAR"@, "#TAXAR"@, "#OMFATTN"@, "#KPTYP"@, "#VALUTA"@, "#KONTO"@,
        "#KTYP"@, "#ENHET"@, "#SRU"@, "#DIM"@, "#UNDERDIM"@, "#OBJEKT"@,
        "#IB"@, "#UB"@, "#OIB"@, "#OUB"@, "#RES"@, "#PSALDO"@,
        "#PBUDGET"@, "#VER"@, "#TRANS"@, "#RTRANS"@, "#BTRANS"@, "#KSUMMA"@,
    ]
}

/// What the schema table is known to be: 36 entries, with the labels of
/// `schema_labels` in that order, each label starting with `#` and found
/// again by `label_info`, no two labels equal ignoring ASCII case.
pub open spec fn schema_table(t: Seq<LabelSpecView>) -> bool {
    &&& t.len() == 36
    &&& forall|i: int| 0 <= i < t.len() ==> (#[trigger] t[i]).label == schema_labels()[i]
    &&& forall|i: int| 0 <= i < t.len() ==> {
        &&& (#[trigger] t[i]).label.len() > 0
        &&& t[i].label[0] == '#'
        &&& label_entry(t[i].label) == Some(t[i])
    }
    &&& forall|i: int, j: int|
        0 <= i < j < t.len() ==> !eq_ignore_case(#[trigger] t[i].label, #[trigger] t[j].label)
}

/// The views of a sequence of schema entries.
pub open spec fn views(t: Seq<LabelSpec>) -> Seq<LabelSpecView> {
    t.map_values(|s: LabelSpec| s@)
}

/// `sie_parser::all_labels`: the whole schema table, in the crate's order.
/// Trusted: it is the crate's static table of 36 entries, whose labels are
/// those of `schema_labels` in that order; each starts with `#`, looking an
/// entry's label up with `label_info` gives that entry, and no two labels
/// are equal ignoring ASCII case.
#[verifier::external_body]
pub(crate) fn all_labels() -> (r: Vec<LabelSpec>)
    ensures
        schema_table(views(r@)),
{
    sie_parser::all_labels().iter().map(|s| LabelSpec {
        label: s.label.to_string(), description: s.description.to_string(),
        format: s.format.to_string(), container: s.container,
        fields: s.fields.iter().map(|f| FieldSpec {
            name: f.name.to_string(), required: f.required, kind: match f.kind {
                SchemaKind::String => FieldKind::String, SchemaKind::Integer => FieldKind::Integer,
                SchemaKind::Decimal => FieldKind::Decimal, SchemaKind::Date => FieldKind::Date,
                SchemaKind::Enum(v) => FieldKind::Enum(v.iter().map(|x| x.to_string()).collect()),
                SchemaKind::ObjectList => FieldKind::ObjectList, SchemaKind::Raw => FieldKind::Raw,
            },
        }).collect(),
    }).collect()
}

/// Whether field `index` of label `label` holds an account number: the
/// schema gives it integer kind and one of the names used for account
/// fields, `account_no` or `account`.
pub open spec fn account_field(label: Seq<char>, index: int) -> bool {
    match label_entry(label) {
        Some(s) => 0 <= index < s.fields.len() && s.fields[index].kind is Integer && (
        s.fields[index].name == "account_no"@ || s.fields[index].name == "account"@),
        None => false,
    }
}

/// True if the field at (`label`, `field_index`) carries a SIE account number.
pub fn field_is_account_no(label: &str, field_index: usize) -> (r: bool)
    ensures
        r == account_field(label@, field_index as int),
{
    let spec = match label_info(label) {
        Some(s) => s,
        None => return false,
    };
    if field_index >= spec.fields.len() {
        return false;
    }
    let fspec = &spec.fields[field_index];
    assert(spec@.fields[field_index as int] == fspec@);
    match fspec.kind {
        FieldKind::Integer => str_equal(fspec.name.as_str(), "account_no") || str_equal(
            fspec.name.as_str(),
            "account",
        ),
        _ => false,
    }
}

/// The hover text of a schema entry: its label as a heading, its field
/// layout in a code block, then its description.
pub open spec fn label_hover(s: LabelSpecView) -> Seq<char> {
    "### "@ + s.label + "\n\n```\n"@ + s.format + "\n```\n\n"@ + s.description
}

/// The hover markdown for a label the schema knows.
pub fn hover_markdown(label: &str) -> (r: Option<String>)
    ensures
        match r {
            Some(md) => label_entry(label@) matches Some(s) && md@ == label_hover(s),
            None => label_entry(label@) is None,
        },
{
    let spec = label_info(label)?;
    let mut md = String::new();
    md.append("### ");
    md.append(spec.label.as_str());
    md.append("\n\n```\n");
    md.append(spec.format.as_str());
    md.append("\n```\n\n");
    md.append(spec.description.as_str());
    Some(md)
}

} // verus!
