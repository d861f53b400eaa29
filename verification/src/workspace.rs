//! Documents and the set of documents that belong together.

use crate::line_index::LineIndex;
use crate::syntax::cst::{lemma_wf_root, well_formed, ElementData, SyntaxTree};
use crate::syntax::offset::{str_width, utf8_len};
use vstd::prelude::*;

verus! {

/// The parsed form of a document, tagged by its grammar.
pub enum DocumentData {
    Latex(SyntaxTree),
    Bibtex(SyntaxTree),
}

impl DocumentData {
    /// The element table of the tree, whatever the grammar.
    pub open spec fn tree(&self) -> Seq<ElementData> {
        match self {
            DocumentData::Latex(tree) => tree@,
            DocumentData::Bibtex(tree) => tree@,
        }
    }

    /// The tree is well formed.
    pub open spec fn wf(&self) -> bool {
        well_formed(self.tree())
    }

    /// The tree, if the document is a LaTeX document.
    pub fn as_latex(&self) -> (tree: Option<&SyntaxTree>)
        ensures
            match tree {
                Some(t) => *self == DocumentData::Latex(*t),
                None => self is Bibtex,
            },
    {
        match self {
            DocumentData::Latex(tree) => Some(tree),
            DocumentData::Bibtex(_) => None,
        }
    }

    /// The tree, if the document is a BibTeX document.
    pub fn as_bibtex(&self) -> (tree: Option<&SyntaxTree>)
        ensures
            match tree {
                Some(t) => *self == DocumentData::Bibtex(*t),
                None => self is Latex,
            },
    {
        match self {
            DocumentData::Latex(_) => None,
            DocumentData::Bibtex(tree) => Some(tree),
        }
    }

    /// The tree, whatever the grammar.
    pub fn syntax_tree(&self) -> (tree: &SyntaxTree)
        ensures
            tree@ == self.tree(),
    {
        match self {
            DocumentData::Latex(tree) => tree,
            DocumentData::Bibtex(tree) => tree,
        }
    }
}

/// A source file: its identity, its text, the line index of the text and
/// the tree parsed from it.
pub struct Document {
    uri: String,
    text: String,
    line_index: LineIndex,
    data: DocumentData,
}

impl Document {
    /// The identity of the document.
    pub closed spec fn uri_of(&self) -> Seq<char> {
        self.uri@
    }

    /// The source text.
    pub closed spec fn source(&self) -> Seq<char> {
        self.text@
    }

    /// The parsed form.
    pub closed spec fn parsed(&self) -> DocumentData {
        self.data
    }

    /// The element table of the tree.
    pub open spec fn tree(&self) -> Seq<ElementData> {
        self.parsed().tree()
    }

    /// Whether the document is a LaTeX document.
    pub open spec fn is_latex(&self) -> bool {
        self.parsed() is Latex
    }

    /// The line index belongs to the text, and the tree is well formed and
    /// covers the text from its first byte to its last.
    pub closed spec fn wf(&self) -> bool {
        &&& self.line_index.wf()
        &&& self.line_index.text() == self.text@
        &&& self.data.wf()
        &&& self.data.tree()[0].range.end == utf8_len(self.text@)
    }

    /// What a well-formed document guarantees of its tree and its text.
    pub proof fn lemma_wf(&self)
        requires
            self.wf(),
        ensures
            well_formed(self.tree()),
            utf8_len(self.source()) <= u32::MAX,
            self.tree()[0].range.end == utf8_len(self.source()),
    {
        self.line_index.lemma_wf_text_fits();
    }

    /// Puts a document together. The text must be short enough for 32-bit
    /// offsets and the tree must cover exactly the bytes of the text.
    pub fn new(uri: String, text: String, data: DocumentData) -> (document: Option<Document>)
        requires
            data.wf(),
        ensures
            document is Some <==> (utf8_len(text@) <= u32::MAX && data.tree()[0].range.end
                == utf8_len(text@)),
            document matches Some(d) ==> {
                &&& d.wf()
                &&& d.uri_of() == uri@
                &&& d.source() == text@
                &&& d.parsed() == data
            },
    {
        let line_index = match LineIndex::new(text.as_str()) {
            Some(line_index) => line_index,
            None => {
                return None;
            },
        };
        let width = match str_width(text.as_str()) {
            Some(width) => width,
            None => {
                return None;
            },
        };
        proof {
            lemma_wf_root(data.tree());
        }
        if data.syntax_tree().range(0).end != width {
            return None;
        }
        Some(Document { uri, text, line_index, data })
    }

    /// The identity of the document.
    pub fn uri(&self) -> (uri: &str)
        ensures
            uri@ == self.uri_of(),
    {
        self.uri.as_str()
    }

    /// The source text.
    pub fn text(&self) -> (text: &str)
        ensures
            text@ == self.source(),
    {
        self.text.as_str()
    }

    /// The line index of the source text.
    pub fn line_index(&self) -> (index: &LineIndex)
        requires
            self.wf(),
        ensures
            index.wf(),
            index.text() == self.source(),
    {
        &self.line_index
    }

    /// The parsed form.
    pub fn data(&self) -> (data: &DocumentData)
        ensures
            *data == self.parsed(),
    {
        &self.data
    }
}

/// The documents reachable from a main document through inclusion, the
/// main document first.
pub struct WorkspaceSubset {
    pub documents: Vec<Document>,
}

impl WorkspaceSubset {
    /// Every document is well formed.
    pub open spec fn wf(&self) -> bool {
        forall|i: int| 0 <= i < self.documents@.len() ==> (#[trigger] self.documents@[i]).wf()
    }

    /// The subset that holds `documents`, the main document first.
    pub fn new(documents: Vec<Document>) -> (subset: WorkspaceSubset)
        ensures
            subset.documents == documents,
    {
        WorkspaceSubset { documents }
    }
}

} // verus!
