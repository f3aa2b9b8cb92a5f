//! Accounts: names declared in the file by `#KONTO`, names and groups from
//! the BAS chart of accounts, and the hover text that brings them together.

use vstd::prelude::*;
use baskontoplan::Kontoplan;
use crate::document::DocItem;
use crate::text::{decimal, decimal_string, eq_ignore_case, eq_ignore_ascii_case, parse_u32, parse_u32_spec, str_equal};

verus! {

#[verifier::external_type_specification]
#[verifier::external_body]
pub struct ExKontoplan(baskontoplan::Kontoplan);

/// The account names a chart holds, by account number.
pub uninterp spec fn plan_accounts(plan: Kontoplan) -> Map<u32, Seq<char>>;

/// The kontogrupp names a chart holds, by two-digit group code.
pub uninterp spec fn plan_groups(plan: Kontoplan) -> Map<u8, Seq<char>>;

/// `baskontoplan::Kontoplan::bas_2026_static`: the shared BAS 2026 chart.
/// Nothing is stated of its contents, which are the crate's data.
#[verifier::external_body]
fn bas_2026() -> &'static Kontoplan {
    Kontoplan::bas_2026_static()
}

/// `baskontoplan::Kontoplan::name`: the chart's name for account `no`, if it
/// has the account. Trusted: it is the chart's account map at `no`.
#[verifier::external_body]
fn account_name(plan: &Kontoplan, no: u32) -> (r: Option<&str>)
    ensures
        match r {
            Some(name) => plan_accounts(*plan).contains_key(no) && plan_accounts(*plan)[no] == name@,
            None => !plan_accounts(*plan).contains_key(no),
        },
{
    plan.name(no)
}

/// `baskontoplan::Kontoplan::group_name`: the chart's name for kontogrupp
/// `code`, if it has one. Trusted: it is the chart's group map at `code`.
#[verifier::external_body]
fn group_name(plan: &Kontoplan, code: u8) -> (r: Option<&str>)
    ensures
        match r {
            Some(name) => plan_groups(*plan).contains_key(code) && plan_groups(*plan)[code] == name@,
            None => !plan_groups(*plan).contains_key(code),
        },
{
    plan.group_name(code)
}

/// BAS kontogrupp: the two-digit prefix, `(no / 100) as u8`.
pub open spec fn bas_group(no: u32) -> u8 {
    ((no / 100) % 256) as u8
}

/// BAS class: `1..=8` for standard accounts, `(no / 1000) as u8`.
pub open spec fn bas_class(no: u32) -> u8 {
    ((no / 1000) % 256) as u8
}

/// Classes 1 and 2: the balance-sheet side.
pub open spec fn balance_sheet(no: u32) -> bool {
    1000 <= no <= 2999
}

/// Classes 3 to 8: the income-statement side.
pub open spec fn income_statement(no: u32) -> bool {
    3000 <= no <= 8999
}

/// `Konto::group`.
pub fn konto_group(no: u32) -> (r: u8)
    ensures
        r == bas_group(no),
{
    (no / 100 % 256) as u8
}

/// `Konto::class`.
pub fn konto_class(no: u32) -> (r: u8)
    ensures
        r == bas_class(no),
{
    (no / 1000 % 256) as u8
}

/// `Konto::is_balance_sheet`.
pub fn is_balance_sheet(no: u32) -> (r: bool)
    ensures
        r == balance_sheet(no),
{
    1000 <= no && no <= 2999
}

/// `Konto::is_income_statement`.
pub fn is_income_statement(no: u32) -> (r: bool)
    ensures
        r == income_statement(no),
{
    3000 <= no && no <= 8999
}

/// The name the first `#KONTO` item (label compared ignoring ASCII case)
/// whose first field is text that parses as `no` gives it. Items whose first
/// field is missing, an object list or another number are passed over; the
/// matching item gives no name when its second field is missing or an object
/// list.
pub open spec fn konto_name(items: Seq<DocItem>, no: u32) -> Option<Seq<char>>
    decreases items.len(),
{
    if items.len() == 0 {
        None
    } else {
        let item = items[0];
        if !eq_ignore_case(item.label@, "#KONTO"@) {
            konto_name(items.drop_first(), no)
        } else if item.fields@.len() == 0 {
            konto_name(items.drop_first(), no)
        } else {
            match item.fields@[0].value.text() {
                None => konto_name(items.drop_first(), no),
                Some(t) => if parse_u32_spec(t) != Some(no) {
                    konto_name(items.drop_first(), no)
                } else if item.fields@.len() < 2 {
                    None
                } else {
                    item.fields@[1].value.text()
                },
            }
        }
    }
}

/// First `#KONTO` declaration in `items` matching `no`, if any. Top-level
/// only: `#KONTO` never appears inside `#VER`.
pub fn local_account_name(items: &[DocItem], no: u32) -> (r: Option<&str>)
    ensures
        match r {
            Some(name) => konto_name(items@, no) == Some(name@),
            None => konto_name(items@, no) is None,
        },
{
    let mut i: usize = 0;
    assert(items@.skip(0) =~= items@);
    while i < items.len()
        invariant
            i <= items.len(),
            konto_name(items@, no) == konto_name(items@.skip(i as int), no),
        decreases items.len() - i,
    {
        let item = &items[i];
        assert(items@.skip(i as int).drop_first() =~= items@.skip(i + 1));
        assert(items@.skip(i as int)[0] == items@[i as int]);
        if eq_ignore_ascii_case(item.label.as_str(), "#KONTO") {
            if item.fields.len() > 0 {
                if let Some(no_field) = item.fields[0].value.as_str() {
                    if parse_u32(no_field) == Some(no) {
                        if item.fields.len() < 2 {
                            return None;
                        }
                        return item.fields[1].value.as_str();
                    }
                }
            }
        }
        i += 1;
    }
    None
}

/// The heading of an account's hover text.
pub open spec fn hover_heading(no: u32, name: Option<Seq<char>>) -> Seq<char> {
    match name {
        Some(n) => "### "@ + decimal(no as nat) + " — "@ + n + "\n\n"@,
        None => "### "@ + decimal(no as nat) + "\n\n"@,
    }
}

/// Where an account's name comes from: the file, the chart, both, or neither.
pub open spec fn hover_origin(local: Option<Seq<char>>, bas: Option<Seq<char>>) -> Seq<char> {
    match local {
        Some(l) => match bas {
            Some(b) => if l != b {
                "From `#KONTO` in this file. BAS 2026: *"@ + b + "*.\n\n"@
            } else {
                "From `#KONTO` in this file.\n\n"@
            },
            None => "From `#KONTO` in this file.\n\n"@,
        },
        None => match bas {
            Some(_) => "From BAS 2026.\n\n"@,
            None => "Not declared in this file and not part of BAS 2026.\n\n"@,
        },
    }
}

/// The kontogrupp line, when the chart names the group.
pub open spec fn hover_group_line(group: u8, name: Option<Seq<char>>) -> Seq<char> {
    match name {
        Some(g) => "**Kontogrupp "@ + decimal(group as nat) + "** — "@ + g + "\n\n"@,
        None => Seq::empty(),
    }
}

/// The class line for balance-sheet and income-statement accounts.
pub open spec fn hover_class_line(no: u32) -> Seq<char> {
    if balance_sheet(no) {
        "Class "@ + decimal(bas_class(no) as nat) + " · balansräkning\n"@
    } else if income_statement(no) {
        "Class "@ + decimal(bas_class(no) as nat) + " · resultaträkning\n"@
    } else {
        Seq::empty()
    }
}

/// A map's value at `k`, if it has one.
pub open spec fn lookup<K, V>(m: Map<K, V>, k: K) -> Option<V> {
    if m.contains_key(k) {
        Some(m[k])
    } else {
        None
    }
}

/// The hover text for account `no`, given the names declared in the file
/// and a chart's account and group names: a heading with the number and the
/// local name (else the chart's), where the name comes from, the kontogrupp
/// line when the chart names the group, and the class line for balance-sheet
/// and income-statement accounts.
pub open spec fn account_hover_text(
    items: Seq<DocItem>,
    no: u32,
    accounts: Map<u32, Seq<char>>,
    groups: Map<u8, Seq<char>>,
) -> Seq<char> {
    let local = konto_name(items, no);
    let bas = lookup(accounts, no);
    hover_heading(no, if local is Some { local } else { bas }) + hover_origin(local, bas)
        + hover_group_line(bas_group(no), lookup(groups, bas_group(no))) + hover_class_line(no)
}

/// Law: the side of the accounts an account number is on follows its
/// class, the thousands digit `no / 1000`: classes 1 and 2 are the balance
/// sheet, classes 3 to 8 the income statement, and the class shown is that
/// digit; the group shown of a four-digit account is its first two digits.
pub proof fn law_account_sides(no: u32)
    ensures
        balance_sheet(no) <==> 1 <= no / 1000 <= 2,
        income_statement(no) <==> 3 <= no / 1000 <= 8,
        !(balance_sheet(no) && income_statement(no)),
        no / 1000 <= 8 ==> bas_class(no) as int == no / 1000,
        no < 25600 ==> bas_group(no) as int == no / 100,
{
}

/// Whether `s` ends with `suffix`.
pub open spec fn ends_with(s: Seq<char>, suffix: Seq<char>) -> bool {
    suffix.len() <= s.len() && s.subrange(s.len() - suffix.len(), s.len() as int) == suffix
}

/// Law: the hover of an account of classes 1 and 2 ends with its class line
/// on the balance-sheet side, and that of classes 3 to 8 with its class line
/// on the income-statement side; other accounts get no class line.
pub proof fn law_hover_class_line(
    items: Seq<DocItem>,
    no: u32,
    accounts: Map<u32, Seq<char>>,
    groups: Map<u8, Seq<char>>,
)
    ensures
        1 <= no / 1000 <= 2 ==> ends_with(
            account_hover_text(items, no, accounts, groups),
            "Class "@ + decimal((no / 1000) as nat) + " · balansräkning\n"@,
        ),
        3 <= no / 1000 <= 8 ==> ends_with(
            account_hover_text(items, no, accounts, groups),
            "Class "@ + decimal((no / 1000) as nat) + " · resultaträkning\n"@,
        ),
        (no / 1000 < 1 || no / 1000 > 8) ==> hover_class_line(no).len() == 0,
{
    let local = konto_name(items, no);
    let bas = lookup(accounts, no);
    let p = hover_heading(no, if local is Some { local } else { bas }) + hover_origin(local, bas)
        + hover_group_line(bas_group(no), lookup(groups, bas_group(no)));
    let c = hover_class_line(no);
    let t = account_hover_text(items, no, accounts, groups);
    assert(t == p + c);
    assert(t.subrange(t.len() - c.len(), t.len() as int) =~= c);
    law_account_sides(no);
}

fn heading_text(no: u32, name: Option<&str>) -> (r: String)
    ensures
        r@ == hover_heading(no, match name { Some(n) => Some(n@), None => None }),
{
    let mut md = String::new();
    md.append("### ");
    md.append(decimal_string(no as u64).as_str());
    if let Some(n) = name {
        md.append(" — ");
        md.append(n);
    }
    md.append("\n\n");
    md
}

fn origin_text(local: Option<&str>, bas: Option<&str>) -> (r: String)
    ensures
        r@ == hover_origin(
            match local { Some(n) => Some(n@), None => None },
            match bas { Some(n) => Some(n@), None => None },
        ),
{
    let mut md = String::new();
    match local {
        Some(l) => match bas {
            Some(b) => if !str_equal(l, b) {
                md.append("From `#KONTO` in this file. BAS 2026: *");
                md.append(b);
                md.append("*.\n\n");
            } else {
                md.append("From `#KONTO` in this file.\n\n");
            },
            None => md.append("From `#KONTO` in this file.\n\n"),
        },
        None => match bas {
            Some(_) => md.append("From BAS 2026.\n\n"),
            None => md.append("Not declared in this file and not part of BAS 2026.\n\n"),
        },
    }
    md
}

fn group_text(group: u8, name: Option<&str>) -> (r: String)
    ensures
        r@ == hover_group_line(group, match name { Some(n) => Some(n@), None => None }),
{
    let mut md = String::new();
    if let Some(g) = name {
        md.append("**Kontogrupp ");
        md.append(decimal_string(group as u64).as_str());
        md.append("** — ");
        md.append(g);
        md.append("\n\n");
    }
    md
}

fn class_text(no: u32) -> (r: String)
    ensures
        r@ == hover_class_line(no),
{
    let mut md = String::new();
    if is_balance_sheet(no) {
        md.append("Class ");
        md.append(decimal_string(konto_class(no) as u64).as_str());
        md.append(" · balansräkning\n");
    } else if is_income_statement(no) {
        md.append("Class ");
        md.append(decimal_string(konto_class(no) as u64).as_str());
        md.append(" · resultaträkning\n");
    }
    md
}

/// The hover markdown for account `no` against the chart `plan`.
pub fn account_hover_markdown_in(plan: &Kontoplan, items: &[DocItem], no: u32) -> (r: String)
    ensures
        r@ == account_hover_text(items@, no, plan_accounts(*plan), plan_groups(*plan)),
{
    let local = local_account_name(items, no);
    let bas_name = account_name(plan, no);
    let group = konto_group(no);
    let gname = group_name(plan, group);
    let primary = match local {
        Some(l) => Some(l),
        None => bas_name,
    };
    let mut md = heading_text(no, primary);
    md.append(origin_text(local, bas_name).as_str());
    md.append(group_text(group, gname).as_str());
    md.append(class_text(no).as_str());
    md
}

/// The hover markdown for account `no` against the BAS 2026 chart.
pub fn account_hover_markdown(items: &[DocItem], no: u32) -> (r: String)
    ensures
        exists|plan: Kontoplan|
            r@ == account_hover_text(items@, no, plan_accounts(plan), plan_groups(plan)),
{
    let plan = bas_2026();
    account_hover_markdown_in(plan, items, no)
}

} // verus!
