//! Lines, columns and byte offsets of source text. Text is modelled as its
//! sequence of characters; byte offsets are UTF-8 lengths of prefixes.

use vstd::prelude::*;
use crate::text::chars_of;
use vstd::string::StringSliceAdditionalSpecFns;

verus! {

/// The number of bytes of the UTF-8 encoding of `c`.
pub open spec fn utf8_width(c: char) -> nat {
    if (c as u32) < 0x80 {
        1
    } else if (c as u32) < 0x800 {
        2
    } else if (c as u32) < 0x10000 {
        3
    } else {
        4
    }
}

/// The number of bytes of the UTF-8 encoding of `s`.
pub open spec fn byte_len(s: Seq<char>) -> nat
    decreases s.len(),
{
    if s.len() == 0 {
        0
    } else {
        utf8_width(s[0]) + byte_len(s.drop_first())
    }
}

/// The byte offset at which the character with index `k` of `s` starts.
pub open spec fn byte_offset_of(s: Seq<char>, k: int) -> nat {
    byte_len(s.take(k))
}

/// `char::len_utf8`.
pub fn char_width(c: char) -> (r: usize)
    ensures
        r == utf8_width(c),
{
    let v = c as u32;
    if v < 0x80 {
        1
    } else if v < 0x800 {
        2
    } else if v < 0x10000 {
        3
    } else {
        4
    }
}

pub proof fn lemma_byte_len_concat(a: Seq<char>, b: Seq<char>)
    ensures
        byte_len(a + b) == byte_len(a) + byte_len(b),
    decreases a.len(),
{
    if a.len() == 0 {
        assert(a + b =~= b);
    } else {
        assert((a + b).drop_first() =~= a.drop_first() + b);
        lemma_byte_len_concat(a.drop_first(), b);
    }
}

pub proof fn lemma_byte_len_take_succ(s: Seq<char>, k: int)
    requires
        0 <= k < s.len(),
    ensures
        byte_len(s.take(k + 1)) == byte_len(s.take(k)) + utf8_width(s[k]),
{
    assert(s.take(k + 1) =~= s.take(k) + seq![s[k]]);
    lemma_byte_len_concat(s.take(k), seq![s[k]]);
    assert(seq![s[k]].drop_first() =~= Seq::<char>::empty());
    assert(byte_len(Seq::<char>::empty()) == 0);
    assert(byte_len(seq![s[k]]) == utf8_width(s[k]));
}

pub proof fn lemma_byte_len_take_le(s: Seq<char>, k: int)
    requires
        0 <= k <= s.len(),
    ensures
        byte_len(s.take(k)) <= byte_len(s),
{
    assert(s =~= s.take(k) + s.skip(k));
    lemma_byte_len_concat(s.take(k), s.skip(k));
}

proof fn lemma_encode_len(s: Seq<char>)
    ensures
        vstd::utf8::encode_utf8(s).len() == byte_len(s),
    decreases s.len(),
{
    if s.len() > 0 {
        vstd::utf8::char_is_scalar(s[0]);
        lemma_encode_len(s.drop_first());
    }
}

/// A string's length in bytes is the UTF-8 length of its characters.
pub proof fn lemma_str_len(t: &str)
    ensures
        t.spec_bytes().len() == byte_len(t@),
{
    lemma_encode_len(t@);
}

/// The number of newline characters in `s`.
pub open spec fn newline_count(s: Seq<char>) -> nat
    decreases s.len(),
{
    if s.len() == 0 {
        0
    } else {
        newline_count(s.drop_last()) + if s.last() == '\n' { 1nat } else { 0nat }
    }
}

/// The index of the first newline of `s`, if it has one.
pub open spec fn first_newline(s: Seq<char>) -> Option<nat>
    decreases s.len(),
{
    if s.len() == 0 {
        None
    } else if s[0] == '\n' {
        Some(0)
    } else {
        match first_newline(s.drop_first()) {
            Some(j) => Some(j + 1),
            None => None,
        }
    }
}

pub proof fn lemma_first_newline_bound(s: Seq<char>)
    ensures
        first_newline(s) matches Some(j) ==> j < s.len() && s[j as int] == '\n',
    decreases s.len(),
{
    if s.len() > 0 {
        lemma_first_newline_bound(s.drop_first());
    }
}

/// The index at which line `line` (counted from 0) of `s` begins: just past
/// its `line`-th newline, or just past its last newline when it has fewer.
pub open spec fn line_start(s: Seq<char>, line: nat) -> nat
    decreases s.len(),
{
    if line == 0 {
        0
    } else {
        match first_newline(s) {
            None => 0,
            Some(j) => {
                proof {
                    lemma_first_newline_bound(s);
                }
                j + 1 + line_start(s.skip(j + 1 as int), (line - 1) as nat)
            },
        }
    }
}

proof fn lemma_first_newline_at(s: Seq<char>, j: int)
    requires
        0 <= j < s.len(),
        s[j] == '\n',
        forall|k: int| 0 <= k < j ==> s[k] != '\n',
    ensures
        first_newline(s) == Some(j as nat),
    decreases j,
{
    if j > 0 {
        lemma_first_newline_at(s.drop_first(), j - 1);
    }
}

proof fn lemma_first_newline_none(s: Seq<char>)
    requires
        forall|k: int| 0 <= k < s.len() ==> s[k] != '\n',
    ensures
        first_newline(s) is None,
    decreases s.len(),
{
    if s.len() > 0 {
        lemma_first_newline_none(s.drop_first());
    }
}

proof fn lemma_newline_count_take_le(s: Seq<char>, i: int)
    requires
        0 <= i <= s.len(),
    ensures
        newline_count(s.take(i)) <= newline_count(s),
    decreases s.len() - i,
{
    if i < s.len() {
        lemma_newline_count_take_le(s, i + 1);
        assert(s.take(i + 1).drop_last() =~= s.take(i));
    } else {
        assert(s.take(i) =~= s);
    }
}

/// Scan `cs` for the start of line `line`. Returns that index and the number
/// of newlines before it, which is `line` unless `cs` has fewer newlines.
fn scan_line_start(cs: &Vec<char>, line: u32) -> (r: (usize, u32))
    ensures
        r.0 == line_start(cs@, line as nat),
        r.0 <= cs.len(),
        r.1 <= line,
        r.1 == line ==> newline_count(cs@) >= line,
        r.1 < line ==> newline_count(cs@) == r.1,
        r.1 == line && line > 0 ==> r.0 > 0 && cs@[r.0 - 1] == '\n',
{
    let ghost s = cs@;
    let mut i: usize = 0;
    let mut cur: u32 = 0;
    let mut ls: usize = 0;
    assert(s.skip(0) =~= s);
    while i < cs.len() && cur < line
        invariant
            s == cs@,
            ls <= i <= cs.len(),
            cur <= line,
            cur == newline_count(s.take(i as int)),
            line_start(s, line as nat) == ls + line_start(s.skip(ls as int), (line - cur) as nat),
            forall|k: int| ls <= k < i ==> s[k] != '\n',
            cur > 0 ==> ls > 0 && s[ls - 1] == '\n',
        decreases cs.len() - i,
    {
        assert(s.take(i + 1).drop_last() =~= s.take(i as int));
        if cs[i] == '\n' {
            proof {
                let t = s.skip(ls as int);
                lemma_first_newline_at(t, i - ls);
                assert(t.skip(i - ls + 1) =~= s.skip(i + 1));
            }
            cur = cur + 1;
            ls = i + 1;
        }
        i = i + 1;
    }
    proof {
        if cur < line {
            assert(i == cs.len());
            assert(s.take(i as int) =~= s);
            lemma_first_newline_none(s.skip(ls as int));
        } else {
            lemma_newline_count_take_le(s, i as int);
        }
    }
    (ls, cur)
}

/// The index of the first `\n` of `s` at or after `from`, or the length of
/// `s` when there is none: where the line containing `from` ends.
pub open spec fn newline_end(s: Seq<char>, from: int) -> int
    decreases s.len() - from,
{
    if from >= s.len() {
        s.len() as int
    } else if s[from] == '\n' {
        from
    } else {
        newline_end(s, from + 1)
    }
}

proof fn lemma_newline_end_at(s: Seq<char>, from: int, j: int)
    requires
        0 <= from <= j <= s.len(),
        forall|k: int| from <= k < j ==> s[k] != '\n',
        j == s.len() || s[j] == '\n',
    ensures
        newline_end(s, from) == j,
    decreases j - from,
{
    if from < j {
        lemma_newline_end_at(s, from + 1, j);
    }
}

proof fn lemma_newline_end_ge(s: Seq<char>, from: int, j: int)
    requires
        0 <= from <= j <= s.len(),
        forall|k: int| from <= k < j ==> s[k] != '\n',
    ensures
        j <= newline_end(s, from) <= s.len(),
    decreases s.len() - from,
{
    if from < s.len() && s[from] != '\n' {
        if from < j {
            lemma_newline_end_ge(s, from + 1, j);
        } else {
            lemma_newline_end_ge(s, from + 1, from + 1);
        }
    }
}

/// The byte offset of LSP position (`line`, `character`), where `character`
/// counts characters from the start of the line. A line past the last one is
/// taken as the last line, and a character past the end of its line is taken
/// as the line's end (its `\n`, or the end of the text).
pub open spec fn position_offset(s: Seq<char>, line: nat, character: nat) -> nat {
    let ls = line_start(s, line);
    let len = newline_end(s, ls as int) - ls;
    let k = if character < len { character as int } else { len };
    byte_offset_of(s, ls + k)
}

/// Convert LSP `(line, character)` (character = UTF-8 scalar-value index) to
/// a byte offset in the source text, staying within the line.
pub fn position_to_offset(text: &str, line: u32, character: u32) -> (r: usize)
    ensures
        r == position_offset(text@, line as nat, character as nat),
{
    let cs = chars_of(text);
    let (ls, _cur) = scan_line_start(&cs, line);
    let mut end: usize = ls;
    while end < cs.len() && cs[end] != '\n' && end - ls < character as usize
        invariant
            cs@ == text@,
            ls <= end <= cs.len(),
            end - ls <= character,
            forall|k: int| ls <= k < end ==> cs@[k] != '\n',
        decreases cs.len() - end,
    {
        end = end + 1;
    }
    proof {
        let ghost s = text@;
        lemma_newline_end_ge(s, ls as int, end as int);
        if end == cs.len() || cs@[end as int] == '\n' {
            lemma_newline_end_at(s, ls as int, end as int);
        }
    }
    let mut off: usize = 0;
    let mut i: usize = 0;
    let byte_count = text.as_bytes().len();
    proof {
        lemma_str_len(text);
    }
    while i < end
        invariant
            cs@ == text@,
            end <= cs.len(),
            i <= end,
            off == byte_len(text@.take(i as int)),
            byte_len(text@) == byte_count,
        decreases end - i,
    {
        proof {
            lemma_byte_len_take_succ(text@, i as int);
            lemma_byte_len_take_le(text@, i + 1);
        }
        off = off + char_width(cs[i]);
        i = i + 1;
    }
    off
}

/// The index of the first `\n` or `\r` of `s` at or after `from`, or the
/// length of `s` when there is none.
pub open spec fn line_end(s: Seq<char>, from: int) -> int
    decreases s.len() - from,
{
    if from >= s.len() {
        s.len() as int
    } else if s[from] == '\n' || s[from] == '\r' {
        from
    } else {
        line_end(s, from + 1)
    }
}

/// The characters of line `line` of `s`, up to its first `\n` or `\r`. Empty
/// when `s` has fewer than `line` newlines. When the `line`-th newline is the
/// last character of `s`, the line found is the first one.
pub open spec fn line_chars(s: Seq<char>, line: nat) -> Seq<char> {
    if newline_count(s) < line {
        Seq::empty()
    } else {
        let start = if line_start(s, line) < s.len() { line_start(s, line) as int } else { 0 };
        s.subrange(start, line_end(s, start))
    }
}

fn scan_line_end(cs: &Vec<char>, from: usize) -> (r: usize)
    requires
        from <= cs.len(),
    ensures
        r == line_end(cs@, from as int),
        from <= r <= cs.len(),
{
    let mut i = from;
    while i < cs.len() && cs[i] != '\n' && cs[i] != '\r'
        invariant
            from <= i <= cs.len(),
            line_end(cs@, from as int) == line_end(cs@, i as int),
        decreases cs.len() - i,
    {
        i = i + 1;
    }
    i
}

/// The text of line `line`, without its line ending.
pub fn line_text(text: &str, line: u32) -> (r: &str)
    ensures
        r@ == line_chars(text@, line as nat),
        r@.len() <= text@.len(),
{
    let cs = chars_of(text);
    let (ls, cur) = scan_line_start(&cs, line);
    if cur < line {
        return text.substring_char(0, 0);
    }
    let start = if ls < cs.len() { ls } else { 0 };
    let end = scan_line_end(&cs, start);
    text.substring_char(start, end)
}

/// The index just past the last newline of `p`, or 0 when it has none.
pub open spec fn last_line_start(p: Seq<char>) -> nat
    decreases p.len(),
{
    if p.len() == 0 {
        0
    } else if p.last() == '\n' {
        p.len()
    } else {
        last_line_start(p.drop_last())
    }
}

/// The line and column of the character with index `k` of `s`: the
/// newlines before it, and the characters between the last of them and it.
pub open spec fn char_position(s: Seq<char>, k: int) -> (nat, nat) {
    (newline_count(s.take(k)), (k - last_line_start(s.take(k))) as nat)
}

proof fn lemma_newline_count_concat(a: Seq<char>, b: Seq<char>)
    ensures
        newline_count(a + b) == newline_count(a) + newline_count(b),
    decreases b.len(),
{
    if b.len() == 0 {
        assert(a + b =~= a);
    } else {
        assert((a + b).drop_last() =~= a + b.drop_last());
        lemma_newline_count_concat(a, b.drop_last());
    }
}

proof fn lemma_no_newlines(b: Seq<char>)
    requires
        forall|k: int| 0 <= k < b.len() ==> b[k] != '\n',
    ensures
        newline_count(b) == 0,
        last_line_start(b) == 0,
    decreases b.len(),
{
    if b.len() > 0 {
        lemma_no_newlines(b.drop_last());
    }
}

proof fn lemma_last_line_start_concat_plain(a: Seq<char>, b: Seq<char>)
    requires
        forall|k: int| 0 <= k < b.len() ==> b[k] != '\n',
    ensures
        last_line_start(a + b) == last_line_start(a),
    decreases b.len(),
{
    if b.len() == 0 {
        assert(a + b =~= a);
    } else {
        assert((a + b).drop_last() =~= a + b.drop_last());
        lemma_last_line_start_concat_plain(a, b.drop_last());
    }
}

/// Line `line` starts just past a newline (or at 0), after exactly `line`
/// newlines, when the text has that many.
proof fn lemma_line_start_count(s: Seq<char>, line: nat)
    requires
        line <= newline_count(s),
    ensures
        line_start(s, line) <= s.len(),
        newline_count(s.take(line_start(s, line) as int)) == line,
        last_line_start(s.take(line_start(s, line) as int)) == line_start(s, line),
    decreases s.len(),
{
    if line == 0 {
        assert(s.take(0) =~= Seq::<char>::empty());
    } else {
        match first_newline(s) {
            None => {
                lemma_first_newline_absent(s);
                lemma_no_newlines(s);
            },
            Some(j) => {
                lemma_first_newline_bound(s);
                lemma_first_newline_before(s);
                let j = j as int;
                let rest = s.skip(j + 1);
                let head = s.take(j + 1);
                assert(s =~= head + rest);
                assert(head =~= s.take(j) + seq![s[j]]);
                lemma_no_newlines(s.take(j));
                lemma_newline_count_concat(s.take(j), seq![s[j]]);
                assert(seq![s[j]].drop_last() =~= Seq::<char>::empty());
                assert(newline_count(Seq::<char>::empty()) == 0);
                assert(newline_count(seq![s[j]]) == 1);
                assert(newline_count(head) == 1);
                lemma_newline_count_concat(head, rest);
                lemma_line_start_count(rest, (line - 1) as nat);
                let r = line_start(rest, (line - 1) as nat) as int;
                assert(s.take(j + 1 + r) =~= head + rest.take(r));
                lemma_newline_count_concat(head, rest.take(r));
                lemma_last_line_start_split(head, rest.take(r));
            },
        }
    }
}

proof fn lemma_first_newline_absent(s: Seq<char>)
    requires
        first_newline(s) is None,
    ensures
        forall|k: int| 0 <= k < s.len() ==> s[k] != '\n',
    decreases s.len(),
{
    if s.len() > 0 {
        lemma_first_newline_absent(s.drop_first());
        assert forall|k: int| 0 <= k < s.len() implies s[k] != '\n' by {
            if k > 0 {
                assert(s[k] == s.drop_first()[k - 1]);
            }
        }
    }
}

proof fn lemma_first_newline_before(s: Seq<char>)
    ensures
        first_newline(s) matches Some(j) ==> forall|k: int| 0 <= k < j ==> s[k] != '\n',
    decreases s.len(),
{
    if s.len() > 0 {
        lemma_first_newline_before(s.drop_first());
        lemma_first_newline_bound(s.drop_first());
        if let Some(j) = first_newline(s) {
            assert forall|k: int| 0 <= k < j implies s[k] != '\n' by {
                if k > 0 {
                    assert(s[k] == s.drop_first()[k - 1]);
                }
            }
        }
    }
}

/// After a prefix ending in a newline, the last line starts within the rest
/// if the rest has a newline, and just past the prefix otherwise.
proof fn lemma_last_line_start_split(head: Seq<char>, rest: Seq<char>)
    requires
        head.len() > 0,
        head.last() == '\n',
    ensures
        last_line_start(head + rest) == head.len() + last_line_start(rest),
    decreases rest.len(),
{
    if rest.len() == 0 {
        assert(head + rest =~= head);
    } else {
        assert((head + rest).drop_last() =~= head + rest.drop_last());
        lemma_last_line_start_split(head, rest.drop_last());
    }
}

/// Law: `position_to_offset` is the counterpart of `offset_to_line_col`. For
/// a line the text has and a character within that line, the offset found
/// is the start of the character there, and that character lies on that
/// line at that column.
pub proof fn law_position_round_trip(s: Seq<char>, line: nat, character: nat)
    requires
        line <= newline_count(s),
        line_start(s, line) + character <= s.len(),
        forall|k: int|
            line_start(s, line) <= k < line_start(s, line) + character ==> s[k] != '\n',
    ensures
        position_offset(s, line, character) == byte_offset_of(s, (line_start(s, line) + character) as int),
        char_position(s, (line_start(s, line) + character) as int) == (line, character),
{
    let ls = line_start(s, line) as int;
    lemma_line_start_count(s, line);
    let seg = s.subrange(ls, ls + character);
    assert(s.take(ls + character) =~= s.take(ls) + seg);
    assert forall|k: int| 0 <= k < seg.len() implies seg[k] != '\n' by {
        assert(seg[k] == s[ls + k]);
    }
    lemma_no_newlines(seg);
    lemma_newline_count_concat(s.take(ls), seg);
    lemma_last_line_start_concat_plain(s.take(ls), seg);
    lemma_newline_end_ge(s, ls, ls + character);
}

proof fn lemma_last_line_start_props(p: Seq<char>)
    ensures
        last_line_start(p) <= p.len(),
        forall|i: int| last_line_start(p) <= i < p.len() ==> p[i] != '\n',
        last_line_start(p) > 0 ==> p[last_line_start(p) - 1] == '\n',
    decreases p.len(),
{
    if p.len() > 0 && p.last() != '\n' {
        let q = p.drop_last();
        lemma_last_line_start_props(q);
        assert forall|i: int| last_line_start(p) <= i < p.len() implies p[i] != '\n' by {
            if i < q.len() {
                assert(p[i] == q[i]);
            }
        }
    }
}

/// The part of `p` before its last line start has all of `p`'s newlines, and
/// its own last line starts at its end.
proof fn lemma_take_last_line_start(p: Seq<char>)
    ensures
        newline_count(p.take(last_line_start(p) as int)) == newline_count(p),
        last_line_start(p.take(last_line_start(p) as int)) == last_line_start(p),
{
    let m = last_line_start(p) as int;
    lemma_last_line_start_props(p);
    let head = p.take(m);
    let tail = p.subrange(m, p.len() as int);
    assert(p =~= head + tail);
    assert forall|i: int| 0 <= i < tail.len() implies tail[i] != '\n' by {
        assert(tail[i] == p[m + i]);
    }
    lemma_no_newlines(tail);
    lemma_newline_count_concat(head, tail);
    if m > 0 {
        assert(head.last() == p[m - 1]);
    } else {
        assert(head =~= Seq::<char>::empty());
    }
}

/// Two places that both start a line after the same number of newlines are
/// the same place.
proof fn lemma_line_start_unique(s: Seq<char>, a: int, b: int)
    requires
        0 <= a <= b <= s.len(),
        newline_count(s.take(a)) == newline_count(s.take(b)),
        last_line_start(s.take(b)) == b,
    ensures
        a == b,
{
    if a < b {
        let head = s.take(a);
        let mid = s.subrange(a, b);
        assert(s.take(b) =~= head + mid);
        lemma_newline_count_concat(head, mid);
        lemma_last_line_start_props(s.take(b));
        assert(mid.last() == s.take(b)[b - 1]);
        assert(newline_count(mid) >= 1);
    }
}

/// Law: `position_to_offset` undoes `offset_to_line_col`. For the start of
/// any character of the text, or its end, the line and column there (the
/// newlines before it, and the characters since the last of them) lead back
/// to the same byte offset.
pub proof fn law_offset_round_trip(s: Seq<char>, k: int)
    requires
        0 <= k <= s.len(),
    ensures
        position_offset(s, char_position(s, k).0, char_position(s, k).1) == byte_offset_of(s, k),
{
    let p = s.take(k);
    let l = newline_count(p);
    let m = last_line_start(p) as int;
    lemma_newline_count_take_le(s, k);
    lemma_line_start_count(s, l);
    let ls = line_start(s, l) as int;
    lemma_last_line_start_props(p);
    lemma_take_last_line_start(p);
    assert(p.take(m) =~= s.take(m));
    if m < ls {
        lemma_line_start_unique(s, m, ls);
    } else {
        lemma_line_start_unique(s, ls, m);
    }
    assert(ls == m);
    assert forall|i: int| m <= i < k implies s[i] != '\n' by {
        assert(p[i] == s[i]);
    }
    lemma_newline_end_ge(s, m, k);
}

} // verus!
