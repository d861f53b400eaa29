//! Text edits and the set of edits that a rename makes across documents.

use crate::strings::str_eq;
use crate::syntax::text::Range;
use vstd::prelude::*;

verus! {

/// The replacement of a range of a document by a text.
#[derive(Debug, PartialEq, Eq, Clone)]
pub struct TextEdit {
    pub range: Range,
    pub new_text: String,
}

/// A text edit as plain values.
pub struct TextChange {
    pub range: Range,
    pub new_text: Seq<char>,
}

impl DeepView for TextEdit {
    type V = TextChange;

    open spec fn deep_view(&self) -> TextChange {
        TextChange { range: self.range, new_text: self.new_text@ }
    }
}

impl TextEdit {
    /// The replacement of `range` by `new_text`.
    pub fn new(range: Range, new_text: String) -> (edit: TextEdit)
        ensures
            edit.range == range,
            edit.new_text == new_text,
    {
        TextEdit { range, new_text }
    }
}

/// The edits of one document, in document order.
#[derive(Debug, PartialEq, Eq, Clone)]
pub struct DocumentEdits {
    pub uri: String,
    pub edits: Vec<TextEdit>,
}

/// The mapping that the first `n` entries of a list give: each entry maps
/// its document to its edits, a later entry replacing an earlier one for
/// the same document.
pub open spec fn changes_of(entries: Seq<DocumentEdits>, n: int) -> Map<Seq<char>, Seq<TextChange>>
    decreases n,
{
    if n <= 0 {
        Map::empty()
    } else {
        changes_of(entries, n - 1).insert(entries[n - 1].uri@, entries[n - 1].edits.deep_view())
    }
}

/// A mapping from documents to their edits.
#[derive(Debug, Clone)]
pub struct WorkspaceEdit {
    entries: Vec<DocumentEdits>,
}

impl View for WorkspaceEdit {
    type V = Map<Seq<char>, Seq<TextChange>>;

    closed spec fn view(&self) -> Map<Seq<char>, Seq<TextChange>> {
        changes_of(self.entries@, self.entries@.len() as int)
    }
}

impl WorkspaceEdit {
    /// The entries in the order in which they were inserted.
    pub closed spec fn log(&self) -> Seq<DocumentEdits> {
        self.entries@
    }

    /// An edit set without entries.
    pub fn new() -> (edit: WorkspaceEdit)
        ensures
            edit@ == Map::<Seq<char>, Seq<TextChange>>::empty(),
            edit.log().len() == 0,
    {
        WorkspaceEdit { entries: Vec::new() }
    }

    /// Maps a document to its edits, in place of what it was mapped to
    /// before.
    pub fn insert(&mut self, uri: String, edits: Vec<TextEdit>)
        ensures
            final(self)@ == old(self)@.insert(uri@, edits.deep_view()),
            final(self).log() == old(self).log().push(DocumentEdits { uri, edits }),
    {
        self.entries.push(DocumentEdits { uri, edits });
        assert(changes_of(self.entries@, self.entries@.len() - 1) == changes_of(
            old(self).entries@,
            old(self).entries@.len() as int,
        )) by {
            lemma_changes_prefix(
                old(self).entries@,
                self.entries@,
                old(self).entries@.len() as int,
            );
        }
    }

    /// The edits of a document, if it has an entry.
    pub fn get(&self, uri: &str) -> (edits: Option<&Vec<TextEdit>>)
        ensures
            match edits {
                Some(list) => self@.contains_key(uri@) && self@[uri@] == list.deep_view(),
                None => !self@.contains_key(uri@),
            },
    {
        let mut n = self.entries.len();
        while n > 0
            invariant
                0 <= n <= self.entries@.len(),
                self@.contains_key(uri@) <==> changes_of(self.entries@, n as int).contains_key(
                    uri@,
                ),
                self@.contains_key(uri@) ==> self@[uri@] == changes_of(
                    self.entries@,
                    n as int,
                )[uri@],
            decreases n,
        {
            if str_eq(self.entries[n - 1].uri.as_str(), uri) {
                return Some(&self.entries[n - 1].edits);
            }
            n = n - 1;
        }
        None
    }

    /// The entries in the order in which they were inserted. Where a
    /// document occurs more than once its last entry counts.
    pub fn entries(&self) -> (entries: &Vec<DocumentEdits>)
        ensures
            entries@ == self.log(),
            self@ == changes_of(entries@, entries@.len() as int),
    {
        &self.entries
    }

    /// Whether no document has an entry.
    pub fn is_empty(&self) -> (empty: bool)
        ensures
            empty == (self@ == Map::<Seq<char>, Seq<TextChange>>::empty()),
    {
        proof {
            if self.entries@.len() > 0 {
                let last = self.entries@[self.entries@.len() - 1];
                assert(self@.contains_key(last.uri@));
            }
        }
        self.entries.len() == 0
    }
}

/// The mapping of the first `n` entries does not depend on later entries.
proof fn lemma_changes_prefix(a: Seq<DocumentEdits>, b: Seq<DocumentEdits>, n: int)
    requires
        0 <= n <= a.len(),
        n <= b.len(),
        forall|i: int| 0 <= i < n ==> a[i] == b[i],
    ensures
        changes_of(a, n) == changes_of(b, n),
    decreases n,
{
    if n > 0 {
        lemma_changes_prefix(a, b, n - 1);
    }
}

} // verus!
