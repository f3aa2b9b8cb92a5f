//! The texts of the documents open in the editor, by URI.

use vstd::prelude::*;
use crate::text::str_equal;

verus! {

/// The text stored for `uri` among `entries`: that of the first entry
/// with that URI.
pub open spec fn text_for(entries: Seq<(String, String)>, uri: Seq<char>) -> Option<Seq<char>>
    decreases entries.len(),
{
    if entries.len() == 0 {
        None
    } else if entries[0].0@ == uri {
        Some(entries[0].1@)
    } else {
        text_for(entries.drop_first(), uri)
    }
}

/// Open documents: URI and full text, as the editor last sent them.
#[derive(Debug)]
pub struct DocumentStore {
    entries: Vec<(String, String)>,
}

impl DocumentStore {
    /// The text stored for `uri`.
    pub closed spec fn text(&self, uri: Seq<char>) -> Option<Seq<char>> {
        text_for(self.entries@, uri)
    }

    /// A store with no documents.
    pub fn new() -> (r: DocumentStore)
        ensures
            forall|uri: Seq<char>| #[trigger] r.text(uri) is None,
    {
        DocumentStore { entries: Vec::new() }
    }

    fn position(&self, uri: &str) -> (r: Option<usize>)
        ensures
            match r {
                Some(i) => i < self.entries@.len() && self.entries@[i as int].0@ == uri@ && forall|j: int|
                    0 <= j < i ==> (#[trigger] self.entries@[j]).0@ != uri@,
                None => forall|j: int| 0 <= j < self.entries@.len() ==> (#[trigger] self.entries@[j]).0@ != uri@,
            },
    {
        let mut i: usize = 0;
        while i < self.entries.len()
            invariant
                i <= self.entries.len(),
                forall|j: int| 0 <= j < i ==> (#[trigger] self.entries@[j]).0@ != uri@,
            decreases self.entries.len() - i,
        {
            if str_equal(self.entries[i].0.as_str(), uri) {
                return Some(i);
            }
            i += 1;
        }
        None
    }

    /// Store `text` as the text of `uri`, replacing what was there. A read
    /// gives back what was written, and other documents are unchanged.
    pub fn open(&mut self, uri: String, text: String)
        ensures
            forall|k: Seq<char>|
                #[trigger] final(self).text(k) == if k == uri@ { Some(text@) } else { old(self).text(k) },
    {
        let ghost old_entries = self.entries@;
        match self.position(uri.as_str()) {
            Some(i) => {
                self.entries.set(i, (uri, text));
                proof {
                    let e = self.entries@[i as int];
                    assert(self.entries@ == old_entries.update(i as int, e));
                    assert forall|k: Seq<char>| #[trigger] text_for(self.entries@, k) == if k == e.0@ {
                        Some(e.1@)
                    } else {
                        text_for(old_entries, k)
                    } by {
                        lemma_text_for_set(old_entries, i as int, e, k);
                    }
                }
            },
            None => {
                let ghost u = uri@;
                self.entries.push((uri, text));
                proof {
                    lemma_text_for_push(old_entries, u);
                }
            },
        }
    }

    /// Apply a full-text change notification: the last content of
    /// `changes`, if any, becomes the text of `uri`.
    pub fn change(&mut self, uri: String, changes: Vec<String>)
        ensures
            changes@.len() == 0 ==> forall|k: Seq<char>| #[trigger] final(self).text(k) == old(self).text(k),
            changes@.len() > 0 ==> forall|k: Seq<char>|
                #[trigger] final(self).text(k) == if k == uri@ { Some(changes@.last()@) } else { old(self).text(k) },
    {
        let mut changes = changes;
        if let Some(text) = changes.pop() {
            self.open(uri, text);
        }
    }

    /// Forget the text of `uri`; other documents are unchanged.
    pub fn close(&mut self, uri: &str)
        ensures
            forall|k: Seq<char>|
                #[trigger] final(self).text(k) == if k == uri@ { None } else { old(self).text(k) },
    {
        let ghost old_entries = self.entries@;
        let mut kept: Vec<(String, String)> = Vec::new();
        let mut entries: Vec<(String, String)> = Vec::new();
        std::mem::swap(&mut entries, &mut self.entries);
        let mut i: usize = 0;
        assert(old_entries.skip(0) =~= old_entries);
        assert(text_for(kept@, uri@) is None);
        assert forall|k: Seq<char>| k != uri@ implies #[trigger] text_for(old_entries, k) == match text_for(kept@, k) {
            Some(t) => Some(t),
            None => text_for(old_entries.skip(0), k),
        } by {
            assert(text_for(kept@, k) is None);
        }
        while i < entries.len()
            invariant
                entries@ == old_entries,
                i <= entries.len(),
                forall|j: int| 0 <= j < kept@.len() ==> (#[trigger] kept@[j]).0@ != uri@,
                forall|k: Seq<char>| k != uri@ ==> #[trigger] text_for(old_entries, k) == match text_for(kept@, k) {
                    Some(t) => Some(t),
                    None => text_for(old_entries.skip(i as int), k),
                },
            decreases entries.len() - i,
        {
            if !str_equal(entries[i].0.as_str(), uri) {
                let ghost before = kept@;
                kept.push((entries[i].0.clone(), entries[i].1.clone()));
                proof {
                    assert forall|k: Seq<char>| k != uri@ implies #[trigger] text_for(old_entries, k) == match text_for(kept@, k) {
                        Some(t) => Some(t),
                        None => text_for(old_entries.skip(i + 1), k),
                    } by {
                        lemma_text_for_push_any(before, kept@[kept@.len() - 1], k);
                        assert(old_entries.skip(i as int).drop_first() =~= old_entries.skip(i + 1));
                    }
                }
            } else {
                proof {
                    assert forall|k: Seq<char>| k != uri@ implies #[trigger] text_for(old_entries, k) == match text_for(kept@, k) {
                        Some(t) => Some(t),
                        None => text_for(old_entries.skip(i + 1), k),
                    } by {
                        assert(old_entries.skip(i as int).drop_first() =~= old_entries.skip(i + 1));
                    }
                }
            }
            i += 1;
        }
        proof {
            lemma_text_for_absent(kept@, uri@);
            assert(old_entries.skip(i as int) =~= Seq::<(String, String)>::empty());
        }
        self.entries = kept;
    }

    /// The text of `uri`, if it is open.
    pub fn get(&self, uri: &str) -> (r: Option<String>)
        ensures
            match r {
                Some(t) => self.text(uri@) == Some(t@),
                None => self.text(uri@) is None,
            },
    {
        match self.position(uri) {
            Some(i) => {
                proof {
                    lemma_text_for_first(self.entries@, i as int, uri@);
                }
                Some(self.entries[i].1.clone())
            },
            None => {
                proof {
                    lemma_text_for_absent(self.entries@, uri@);
                }
                None
            },
        }
    }
}

proof fn lemma_text_for_first(s: Seq<(String, String)>, i: int, u: Seq<char>)
    requires
        0 <= i < s.len(),
        s[i].0@ == u,
        forall|j: int| 0 <= j < i ==> (#[trigger] s[j]).0@ != u,
    ensures
        text_for(s, u) == Some(s[i].1@),
    decreases i,
{
    if i > 0 {
        lemma_text_for_first(s.drop_first(), i - 1, u);
    }
}

proof fn lemma_text_for_absent(s: Seq<(String, String)>, u: Seq<char>)
    requires
        forall|j: int| 0 <= j < s.len() ==> (#[trigger] s[j]).0@ != u,
    ensures
        text_for(s, u) is None,
    decreases s.len(),
{
    if s.len() > 0 {
        lemma_text_for_absent(s.drop_first(), u);
    }
}

proof fn lemma_text_for_set(s: Seq<(String, String)>, i: int, e: (String, String), k: Seq<char>)
    requires
        0 <= i < s.len(),
        s[i].0@ == e.0@,
        forall|j: int| 0 <= j < i ==> (#[trigger] s[j]).0@ != e.0@,
    ensures
        text_for(s.update(i, e), k) == if k == e.0@ { Some(e.1@) } else { text_for(s, k) },
    decreases i,
{
    let t = s.update(i, e);
    if i == 0 {
        assert(t.drop_first() =~= s.drop_first());
        assert(t[0] == e);
    } else {
        assert(t[0] == s[0]);
        assert(s[0].0@ != e.0@);
        assert(t.drop_first() =~= s.drop_first().update(i - 1, e));
        lemma_text_for_set(s.drop_first(), i - 1, e, k);
    }
}

proof fn lemma_text_for_push(s: Seq<(String, String)>, u: Seq<char>)
    requires
        forall|j: int| 0 <= j < s.len() ==> (#[trigger] s[j]).0@ != u,
    ensures
        forall|e: (String, String), k: Seq<char>| e.0@ == u ==> #[trigger] text_for(s.push(e), k) == if k == u {
            Some(e.1@)
        } else {
            text_for(s, k)
        },
{
    assert forall|e: (String, String), k: Seq<char>| e.0@ == u implies #[trigger] text_for(s.push(e), k) == if k == u {
        Some(e.1@)
    } else {
        text_for(s, k)
    } by {
        lemma_text_for_push_any(s, e, k);
        if k == u {
            lemma_text_for_absent(s, u);
        }
    }
}

proof fn lemma_text_for_push_any(s: Seq<(String, String)>, e: (String, String), k: Seq<char>)
    ensures
        text_for(s.push(e), k) == match text_for(s, k) {
            Some(t) => Some(t),
            None => if e.0@ == k { Some(e.1@) } else { None },
        },
    decreases s.len(),
{
    if s.len() > 0 {
        assert(s.push(e).drop_first() =~= s.drop_first().push(e));
        lemma_text_for_push_any(s.drop_first(), e, k);
    } else {
        assert(s.push(e).drop_first() =~= Seq::<(String, String)>::empty());
        assert(s.push(e)[0] == e);
        assert(text_for(Seq::<(String, String)>::empty(), k) is None);
    }
}

} // verus!
