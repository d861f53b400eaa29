//! Resolution of a cursor position into the token it touches and the
//! constructs around that token.

use crate::component_db::ReferenceData;
use crate::line_index::position_to_offset;
use crate::syntax::bibtex::BibtexKind;
use crate::syntax::cst::{
    lemma_wf_element, lemma_wf_parent, lemma_wf_within_root, well_formed, CstNode, ElementData,
    SyntaxTree,
};
use crate::syntax::offset::TextRange;
use crate::syntax::latex::{
    inside_curly, is_command_name_at, is_command_name_token, is_next_group_reached, key_text_of,
    right_curly,
    small_range, small_range_of, CurlyGroupWord, HasCurly, Key, LatexKind,
};
use crate::syntax::text::Position;
use crate::workspace::{Document, DocumentData, WorkspaceSubset};
use vstd::prelude::*;

verus! {

/// Parameters of a request that name a position in the main document.
pub trait HasPosition {
    spec fn position_of(&self) -> Position;

    fn position(&self) -> (position: Position)
        ensures
            position == self.position_of(),
    ;
}

/// Parameters of a completion request.
pub struct CompletionParams {
    pub position: Position,
}

/// Parameters of a rename request.
pub struct RenameParams {
    pub position: Position,
    pub new_name: String,
}

impl HasPosition for CompletionParams {
    open spec fn position_of(&self) -> Position {
        self.position
    }

    fn position(&self) -> (position: Position) {
        self.position
    }
}

impl HasPosition for RenameParams {
    open spec fn position_of(&self) -> Position {
        self.position
    }

    fn position(&self) -> (position: Position) {
        self.position
    }
}

/// A request: its parameters, the documents it concerns, the main document
/// first, and the reference tables.
pub struct FeatureRequest<P> {
    pub params: P,
    pub subset: WorkspaceSubset,
    pub data: ReferenceData,
}

impl<P> FeatureRequest<P> {
    /// The documents are well formed and there is a main document.
    pub open spec fn wf(&self) -> bool {
        self.subset.wf() && self.subset.documents@.len() > 0
    }

    /// The document that the position of the request refers to.
    pub open spec fn main_of(&self) -> Document {
        self.subset.documents@[0]
    }

    /// Puts a request together.
    pub fn new(params: P, subset: WorkspaceSubset, data: ReferenceData) -> (request: Self)
        ensures
            request.params == params,
            request.subset == subset,
            request.data == data,
    {
        FeatureRequest { params, subset, data }
    }

    /// The document that the position of the request refers to.
    pub fn main_document(&self) -> (document: &Document)
        requires
            self.wf(),
        ensures
            *document == self.main_of(),
            document.wf(),
    {
        &self.subset.documents[0]
    }
}

/// Token `i` starts at or before `offset` and ends at or after it.
pub open spec fn touches(t: Seq<ElementData>, i: int, offset: u32) -> bool {
    t[i].is_token && t[i].range.spec_contains_inclusive(offset)
}

/// The first token at or after index `k` that touches `offset`.
pub open spec fn left_token_from(t: Seq<ElementData>, offset: u32, k: int) -> Option<int>
    decreases t.len() - k,
{
    if k < 0 || k >= t.len() {
        None
    } else if touches(t, k, offset) {
        Some(k)
    } else {
        left_token_from(t, offset, k + 1)
    }
}

/// The last token before index `n` that touches `offset`.
pub open spec fn right_token_below(t: Seq<ElementData>, offset: u32, n: int) -> Option<int>
    decreases n,
{
    if n <= 0 {
        None
    } else if touches(t, n - 1, offset) {
        Some(n - 1)
    } else {
        right_token_below(t, offset, n - 1)
    }
}

/// The token that ends at `offset` or holds it: the first that touches it.
pub open spec fn left_token(t: Seq<ElementData>, offset: u32) -> Option<int> {
    left_token_from(t, offset, 0)
}

/// The token that starts at `offset` or holds it: the last that touches it.
pub open spec fn right_token(t: Seq<ElementData>, offset: u32) -> Option<int> {
    right_token_below(t, offset, t.len() as int)
}

/// What the search from the left finds is a token of the tree that touches
/// the offset.
pub proof fn lemma_left_token(t: Seq<ElementData>, offset: u32, k: int)
    requires
        0 <= k,
    ensures
        left_token_from(t, offset, k) matches Some(i) ==> k <= i < t.len() && touches(t, i, offset),
    decreases t.len() - k,
{
    if k < t.len() && !touches(t, k, offset) {
        lemma_left_token(t, offset, k + 1);
    }
}

/// What the search from the right finds is a token of the tree that touches
/// the offset.
pub proof fn lemma_right_token(t: Seq<ElementData>, offset: u32, n: int)
    requires
        n <= t.len(),
    ensures
        right_token_below(t, offset, n) matches Some(i) ==> 0 <= i < n && touches(t, i, offset),
    decreases n,
{
    if n > 0 && !touches(t, n - 1, offset) {
        lemma_right_token(t, offset, n - 1);
    }
}

/// The first token that touches `offset`.
pub fn token_left_of(tree: &SyntaxTree, offset: u32) -> (token: Option<usize>)
    ensures
        match token {
            Some(i) => left_token(tree@, offset) == Some(i as int) && i < tree@.len() && touches(
                tree@,
                i as int,
                offset,
            ),
            None => left_token(tree@, offset) is None,
        },
{
    let mut k: usize = 0;
    while k < tree.len()
        invariant
            0 <= k <= tree@.len(),
            left_token(tree@, offset) == left_token_from(tree@, offset, k as int),
        decreases tree@.len() - k,
    {
        if tree.is_token(k) && tree.range(k).contains_inclusive(offset) {
            return Some(k);
        }
        k = k + 1;
    }
    None
}

/// The last token that touches `offset`.
pub fn token_right_of(tree: &SyntaxTree, offset: u32) -> (token: Option<usize>)
    ensures
        match token {
            Some(i) => right_token(tree@, offset) == Some(i as int) && i < tree@.len() && touches(
                tree@,
                i as int,
                offset,
            ),
            None => right_token(tree@, offset) is None,
        },
{
    let mut n: usize = tree.len();
    while n > 0
        invariant
            0 <= n <= tree@.len(),
            right_token(tree@, offset) == right_token_below(tree@, offset, n as int),
        decreases n,
    {
        if tree.is_token(n - 1) && tree.range(n - 1).contains_inclusive(offset) {
            return Some(n - 1);
        }
        n = n - 1;
    }
    None
}

/// Element `i` is a token of the given LaTeX kind.
pub open spec fn is_latex_token(t: Seq<ElementData>, i: int, kind: LatexKind) -> bool {
    t[i].is_token && t[i].kind == kind.raw()
}

/// Element `i` is a token of the given BibTeX kind.
pub open spec fn is_bibtex_token(t: Seq<ElementData>, i: int, kind: BibtexKind) -> bool {
    t[i].is_token && t[i].kind == kind.raw()
}

/// Element `i` is a blank whose parent is a key.
pub open spec fn is_blank_in_key(t: Seq<ElementData>, i: int) -> bool {
    is_latex_token(t, i, LatexKind::Whitespace) && (t[i].parent matches Some(p) && t[p].kind
        == LatexKind::Key.raw())
}

/// Which of the two tokens around the cursor of a LaTeX document counts.
///
/// A command name on the left wins, then a word on the right, a word on the
/// left, a command name on the right and a blank inside a key on the left;
/// otherwise the token on the right is taken.
pub open spec fn latex_cursor(t: Seq<ElementData>, left: int, right: int) -> int {
    if is_command_name_at(t, left) {
        left
    } else if is_latex_token(t, right, LatexKind::Word) {
        right
    } else if is_latex_token(t, left, LatexKind::Word) {
        left
    } else if is_command_name_at(t, right) {
        right
    } else if is_blank_in_key(t, left) {
        left
    } else {
        right
    }
}

/// Which of the two tokens around the cursor of a BibTeX document counts:
/// a word on the right, a word on the left, a command name on the right, a
/// command name on the left, and otherwise the token on the right.
pub open spec fn bibtex_cursor(t: Seq<ElementData>, left: int, right: int) -> int {
    if is_bibtex_token(t, right, BibtexKind::Word) {
        right
    } else if is_bibtex_token(t, left, BibtexKind::Word) {
        left
    } else if is_bibtex_token(t, right, BibtexKind::CommandName) {
        right
    } else if is_bibtex_token(t, left, BibtexKind::CommandName) {
        left
    } else {
        right
    }
}

/// The token under the cursor, tagged by the grammar of its document.
#[derive(Debug, PartialEq, Eq, Clone, Copy, Hash, Structural)]
pub enum Cursor {
    Latex(usize),
    Bibtex(usize),
    Nothing,
}

/// The token that counts at `offset` in a document, and nothing where no
/// token touches the offset.
pub open spec fn cursor_token_of(data: DocumentData, offset: u32) -> Option<int> {
    let t = data.tree();
    match (left_token(t, offset), right_token(t, offset)) {
        (Some(left), Some(right)) => match data {
            DocumentData::Latex(_) => Some(latex_cursor(t, left, right)),
            DocumentData::Bibtex(_) => Some(bibtex_cursor(t, left, right)),
        },
        _ => None,
    }
}

/// `cursor` is the cursor at `offset` in a document: it holds the token
/// that counts there and is tagged with the grammar of the document.
pub open spec fn is_cursor_of(cursor: Cursor, data: DocumentData, offset: u32) -> bool {
    &&& cursor.token() == cursor_token_of(data, offset)
    &&& cursor is Latex ==> data is Latex
    &&& cursor is Bibtex ==> data is Bibtex
}

/// The token that counts at an offset is a token of the tree that touches
/// the offset.
pub proof fn lemma_cursor_token(data: DocumentData, offset: u32)
    ensures
        cursor_token_of(data, offset) matches Some(i) ==> 0 <= i < data.tree().len() && touches(
            data.tree(),
            i,
            offset,
        ),
{
    let t = data.tree();
    lemma_left_token(t, offset, 0);
    lemma_right_token(t, offset, t.len() as int);
}

/// The range of the command name under the cursor without its escape
/// character, when the cursor lies inside or right after the name.
pub open spec fn command_range_of(t: Seq<ElementData>, cursor: Cursor, offset: u32) -> Option<
    TextRange,
> {
    match cursor {
        Cursor::Latex(i) => if is_command_name_at(t, i as int) && t[i as int].range.start < offset
            <= t[i as int].range.end {
            Some(
                TextRange {
                    start: (t[i as int].range.start + 1) as u32,
                    end: t[i as int].range.end,
                },
            )
        } else {
            None
        },
        Cursor::Bibtex(i) => if is_bibtex_token(t, i as int, BibtexKind::CommandName)
            && t[i as int].range.start < offset <= t[i as int].range.end {
            Some(
                TextRange {
                    start: (t[i as int].range.start + 1) as u32,
                    end: t[i as int].range.end,
                },
            )
        } else {
            None
        },
        Cursor::Nothing => None,
    }
}

impl Cursor {
    /// The index of the token, whatever the grammar.
    pub open spec fn token(self) -> Option<int> {
        match self {
            Cursor::Latex(i) => Some(i as int),
            Cursor::Bibtex(i) => Some(i as int),
            Cursor::Nothing => None,
        }
    }

    /// Picks the token that counts in a LaTeX document; nothing unless a
    /// token lies on each side.
    pub fn new_latex(tree: &SyntaxTree, left: Option<usize>, right: Option<usize>) -> (cursor:
        Option<Cursor>)
        requires
            tree.wf(),
            left matches Some(l) ==> l < tree@.len(),
            right matches Some(r) ==> r < tree@.len(),
        ensures
            cursor == match (left, right) {
                (Some(l), Some(r)) => Some(
                    Cursor::Latex(latex_cursor(tree@, l as int, r as int) as usize),
                ),
                _ => None,
            },
    {
        let left = match left {
            Some(left) => left,
            None => {
                return None;
            },
        };
        let right = match right {
            Some(right) => right,
            None => {
                return None;
            },
        };
        let word = LatexKind::Word.to_raw();
        if is_command_name_token(tree, left) {
            return Some(Cursor::Latex(left));
        }
        if tree.is_token(right) && tree.kind(right) == word {
            return Some(Cursor::Latex(right));
        }
        if tree.is_token(left) && tree.kind(left) == word {
            return Some(Cursor::Latex(left));
        }
        if is_command_name_token(tree, right) {
            return Some(Cursor::Latex(right));
        }
        if tree.is_token(left) && tree.kind(left) == LatexKind::Whitespace.to_raw() {
            if let Some(parent) = tree.parent(left) {
                proof {
                    lemma_wf_element(tree@, left as int);
                    lemma_wf_parent(tree@, left as int);
                }
                if tree.kind(parent) == LatexKind::Key.to_raw() {
                    return Some(Cursor::Latex(left));
                }
            }
        }
        Some(Cursor::Latex(right))
    }

    /// Picks the token that counts in a BibTeX document; nothing unless a
    /// token lies on each side.
    pub fn new_bibtex(tree: &SyntaxTree, left: Option<usize>, right: Option<usize>) -> (cursor:
        Option<Cursor>)
        requires
            left matches Some(l) ==> l < tree@.len(),
            right matches Some(r) ==> r < tree@.len(),
        ensures
            cursor == match (left, right) {
                (Some(l), Some(r)) => Some(
                    Cursor::Bibtex(bibtex_cursor(tree@, l as int, r as int) as usize),
                ),
                _ => None,
            },
    {
        let left = match left {
            Some(left) => left,
            None => {
                return None;
            },
        };
        let right = match right {
            Some(right) => right,
            None => {
                return None;
            },
        };
        let word = BibtexKind::Word.to_raw();
        let command = BibtexKind::CommandName.to_raw();
        if tree.is_token(right) && tree.kind(right) == word {
            return Some(Cursor::Bibtex(right));
        }
        if tree.is_token(left) && tree.kind(left) == word {
            return Some(Cursor::Bibtex(left));
        }
        if tree.is_token(right) && tree.kind(right) == command {
            return Some(Cursor::Bibtex(right));
        }
        if tree.is_token(left) && tree.kind(left) == command {
            return Some(Cursor::Bibtex(left));
        }
        Some(Cursor::Bibtex(right))
    }

    /// The token, if the cursor is in a LaTeX document.
    pub fn as_latex(&self) -> (token: Option<usize>)
        ensures
            token == match *self {
                Cursor::Latex(i) => Some(i),
                _ => None,
            },
    {
        match self {
            Cursor::Latex(token) => Some(*token),
            _ => None,
        }
    }

    /// The token, if the cursor is in a BibTeX document.
    pub fn as_bibtex(&self) -> (token: Option<usize>)
        ensures
            token == match *self {
                Cursor::Bibtex(i) => Some(i),
                _ => None,
            },
    {
        match self {
            Cursor::Bibtex(token) => Some(*token),
            _ => None,
        }
    }

    /// The range of the command name under the cursor without its escape
    /// character, when `offset` lies inside or right after the name.
    pub fn command_range(&self, tree: &SyntaxTree, offset: u32) -> (range: Option<TextRange>)
        requires
            self.token() matches Some(i) ==> i < tree@.len(),
        ensures
            range == command_range_of(tree@, *self, offset),
            range matches Some(r) ==> r.wf(),
    {
        match self {
            Cursor::Latex(token) => {
                let range = tree.range(*token);
                if is_command_name_token(tree, *token) && range.start < offset && offset
                    <= range.end {
                    Some(TextRange::new(range.start + 1, range.end))
                } else {
                    None
                }
            },
            Cursor::Bibtex(token) => {
                let range = tree.range(*token);
                if tree.is_token(*token) && tree.kind(*token) == BibtexKind::CommandName.to_raw()
                    && range.start < offset && offset <= range.end {
                    Some(TextRange::new(range.start + 1, range.end))
                } else {
                    None
                }
            },
            Cursor::Nothing => None,
        }
    }
}

/// No token touches an offset after the end of the tree, so there is no
/// cursor token there.
pub proof fn lemma_no_token_outside_content(data: DocumentData, offset: u32)
    requires
        data.wf(),
        offset > data.tree()[0].range.end,
    ensures
        cursor_token_of(data, offset) is None,
{
    let t = data.tree();
    lemma_left_token(t, offset, 0);
    match left_token(t, offset) {
        Some(i) => {
            lemma_wf_within_root(t, i);
        },
        None => {},
    }
}

/// The group of one key around a token, with the key if the token lies in
/// one: the parent of the key, or else the parent of the token, provided it
/// is such a group.
pub open spec fn group_word_of(t: Seq<ElementData>, token: int) -> Option<(int, Option<int>)> {
    match t[token].parent {
        Some(parent) => {
            let key = if Key::can_cast(t[parent].kind) {
                Some(parent)
            } else {
                None
            };
            let group = match key {
                Some(k) => t[k].parent,
                None => Some(parent),
            };
            match group {
                Some(g) => if !t[g].is_token && CurlyGroupWord::can_cast(t[g].kind) {
                    Some((g, key))
                } else {
                    None
                },
                None => None,
            }
        },
        None => None,
    }
}

/// The word under the cursor inside a group of one key: the text of the
/// word, the range that a completion replaces and the group. The range is
/// that of the key, or empty at the offset where the group holds no key.
/// Nothing is found unless the cursor lies inside the braces of the group.
pub open spec fn curly_group_word_of(t: Seq<ElementData>, cursor: Cursor, offset: u32) -> Option<
    (Seq<char>, TextRange, int),
> {
    match cursor {
        Cursor::Latex(token) => match group_word_of(t, token as int) {
            Some((group, key)) => if inside_curly(t, group, offset) {
                match key {
                    Some(k) => Some((key_text_of(t, k), small_range_of(t, k), group)),
                    None => Some((Seq::empty(), TextRange { start: offset, end: offset }, group)),
                }
            } else {
                None
            },
            None => None,
        },
        _ => None,
    }
}

/// What a request resolves to: the offset of its position in the main
/// document and the token under the cursor there.
pub struct CursorContext<P> {
    request: FeatureRequest<P>,
    cursor: Cursor,
    offset: u32,
}

impl<P> CursorContext<P> {
    /// The request that was resolved.
    pub closed spec fn spec_request(&self) -> &FeatureRequest<P> {
        &self.request
    }

    /// The token under the cursor.
    pub closed spec fn spec_cursor(&self) -> Cursor {
        self.cursor
    }

    /// The offset of the cursor in the main document.
    pub closed spec fn spec_offset(&self) -> u32 {
        self.offset
    }

    /// The request is well formed, and the cursor is nothing or the cursor
    /// at the offset in the main document.
    pub open spec fn wf(&self) -> bool {
        &&& self.request().wf()
        &&& self.cursor() is Nothing || is_cursor_of(
            self.cursor(),
            self.request().main_of().parsed(),
            self.offset(),
        )
    }

    /// The element table of the main document.
    pub open spec fn tree(&self) -> Seq<ElementData> {
        self.request().main_of().tree()
    }

    /// The request that was resolved.
    #[verifier::when_used_as_spec(spec_request)]
    pub fn request(&self) -> (request: &FeatureRequest<P>)
        ensures
            request == self.request(),
    {
        &self.request
    }

    /// The token under the cursor.
    #[verifier::when_used_as_spec(spec_cursor)]
    pub fn cursor(&self) -> (cursor: Cursor)
        ensures
            cursor == self.cursor(),
    {
        self.cursor
    }

    /// The offset of the cursor in the main document.
    #[verifier::when_used_as_spec(spec_offset)]
    pub fn offset(&self) -> (offset: u32)
        ensures
            offset == self.offset(),
    {
        self.offset
    }

    /// The cursor token lies in the tree of the main document and touches
    /// the offset.
    pub proof fn lemma_cursor(&self)
        requires
            self.wf(),
        ensures
            well_formed(self.tree()),
            self.cursor().token() matches Some(i) ==> i < self.tree().len() && touches(
                self.tree(),
                i,
                self.offset(),
            ),
    {
        self.request().main_of().lemma_wf();
        lemma_cursor_token(self.request().main_of().parsed(), self.offset());
    }

    /// The tree of the main document.
    pub fn main_tree(&self) -> (tree: &SyntaxTree)
        requires
            self.wf(),
        ensures
            tree@ == self.tree(),
            tree.wf(),
    {
        proof {
            self.request().main_of().lemma_wf();
        }
        self.request().main_document().data().syntax_tree()
    }

    /// Whether the offset lies inside the braces of `group`.
    pub fn is_inside_latex_curly<G: HasCurly>(&self, group: &G) -> (inside: bool)
        requires
            self.wf(),
            group.node() < self.tree().len(),
        ensures
            inside == inside_curly(self.tree(), group.node(), self.offset()),
    {
        let tree = self.main_tree();
        let node = group.syntax();
        if small_range(tree, node).contains(self.offset()) {
            return true;
        }
        match right_curly(tree, node) {
            Some(_) => false,
            None => tree.range(node).contains_inclusive(self.offset()) && !is_next_group_reached(
                tree,
                node,
                self.offset(),
            ),
        }
    }

    /// The word under the cursor inside a group of one key, with the range
    /// that a completion replaces and the group.
    pub fn find_curly_group_word(&self) -> (found: Option<(String, TextRange, CurlyGroupWord)>)
        requires
            self.wf(),
        ensures
            match found {
                Some((text, range, group)) => curly_group_word_of(
                    self.tree(),
                    self.cursor(),
                    self.offset(),
                ) == Some((text@, range, group.node())) && group.node() < self.tree().len(),
                None => curly_group_word_of(self.tree(), self.cursor(), self.offset()) is None,
            },
    {
        let tree = self.main_tree();
        let ghost t = tree@;
        let token = match self.cursor().as_latex() {
            Some(token) => token,
            None => {
                return None;
            },
        };
        proof {
            self.lemma_cursor();
            lemma_wf_element(t, token as int);
        }
        let parent = match tree.parent(token) {
            Some(parent) => parent,
            None => {
                return None;
            },
        };
        proof {
            lemma_wf_parent(t, token as int);
        }
        let key = Key::cast(tree, parent);
        let node = match &key {
            Some(key) => {
                proof {
                    lemma_wf_element(t, parent as int);
                    if parent > 0 {
                        lemma_wf_parent(t, parent as int);
                    }
                }
                match tree.parent(key.syntax()) {
                    Some(node) => node,
                    None => {
                        return None;
                    },
                }
            },
            None => parent,
        };
        let group = match CurlyGroupWord::cast(tree, node) {
            Some(group) => group,
            None => {
                return None;
            },
        };
        if !self.is_inside_latex_curly(&group) {
            return None;
        }
        match key {
            Some(key) => {
                let range = small_range(tree, key.syntax());
                Some((key.to_string(tree), range, group))
            },
            None => Some((String::new(), TextRange::empty(self.offset()), group)),
        }
    }
}

/// The cursor with the given token and the tag of the grammar of a
/// document.
pub open spec fn tagged_cursor(data: DocumentData, token: Option<int>) -> Cursor {
    match token {
        Some(i) => match data {
            DocumentData::Latex(_) => Cursor::Latex(i as usize),
            DocumentData::Bibtex(_) => Cursor::Bibtex(i as usize),
        },
        None => Cursor::Nothing,
    }
}

/// The offset that the position of a request resolves to: its offset in
/// the main document, and 0 where it names no boundary of the text.
pub open spec fn resolved_offset<P: HasPosition>(request: FeatureRequest<P>) -> u32 {
    match position_to_offset(request.main_of().source(), request.params.position_of()) {
        Some(offset) => offset,
        None => 0,
    }
}

/// The cursor that the position of a request resolves to: the cursor at
/// its offset in the main document, and nothing where it names no boundary
/// of the text.
pub open spec fn resolved_cursor<P: HasPosition>(request: FeatureRequest<P>) -> Cursor {
    match position_to_offset(request.main_of().source(), request.params.position_of()) {
        Some(offset) => tagged_cursor(
            request.main_of().parsed(),
            cursor_token_of(request.main_of().parsed(), offset),
        ),
        None => Cursor::Nothing,
    }
}

impl<P: HasPosition> CursorContext<P> {
    /// What a request resolves to: the request with the offset and the
    /// cursor that its position resolves to.
    pub closed spec fn resolved(request: FeatureRequest<P>) -> Self {
        match position_to_offset(request.main_of().source(), request.params.position_of()) {
            Some(offset) => CursorContext {
                request,
                cursor: tagged_cursor(
                    request.main_of().parsed(),
                    cursor_token_of(request.main_of().parsed(), offset),
                ),
                offset,
            },
            None => CursorContext { request, cursor: Cursor::Nothing, offset: 0 },
        }
    }

    /// The parts of what a request resolves to.
    pub proof fn lemma_resolved(request: FeatureRequest<P>)
        ensures
            Self::resolved(request).request() == request,
            Self::resolved(request).offset() == resolved_offset(request),
            Self::resolved(request).cursor() == resolved_cursor(request),
    {
    }

    /// Resolves the position of a request: converts it to an offset in
    /// the main document and finds the token under the cursor. A position
    /// that names no boundary of the text resolves to nothing.
    pub fn new(request: FeatureRequest<P>) -> (context: Self)
        requires
            request.wf(),
        ensures
            context.wf(),
            context == Self::resolved(request),
            context.request() == request,
            context.offset() == resolved_offset(request),
            context.cursor() == resolved_cursor(request),
    {
        let document = request.main_document();
        let offset = match document.line_index().position_to_offset(request.params.position()) {
            Some(offset) => offset,
            None => {
                return CursorContext { request, cursor: Cursor::Nothing, offset: 0 };
            },
        };
        proof {
            document.lemma_wf();
        }
        let cursor = match document.data() {
            DocumentData::Latex(tree) => {
                let left = token_left_of(tree, offset);
                let right = token_right_of(tree, offset);
                Cursor::new_latex(tree, left, right)
            },
            DocumentData::Bibtex(tree) => {
                let left = token_left_of(tree, offset);
                let right = token_right_of(tree, offset);
                Cursor::new_bibtex(tree, left, right)
            },
        };
        let cursor = match cursor {
            Some(cursor) => cursor,
            None => Cursor::Nothing,
        };
        CursorContext { request, cursor, offset }
    }
}

} // verus!
