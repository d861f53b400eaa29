//! The BibTeX grammar: kinds of nodes and tokens, and typed views of nodes.

use crate::syntax::cst::{first_child_of_kind, first_token_child, CstNode, ElementData, SyntaxTree};
use vstd::prelude::*;

verus! {

/// The kinds of tokens and nodes of a BibTeX syntax tree.
#[derive(Debug, PartialEq, Eq, Clone, Copy, Hash, Structural)]
pub enum BibtexKind {
    /// Blanks, tabs and line breaks.
    Whitespace,
    /// The keyword `@preamble`, marker included.
    PreambleType,
    /// The keyword `@string`, marker included.
    StringType,
    /// The keyword of an entry such as `@article`, marker included.
    EntryType,
    /// A run of ordinary characters.
    Word,
    /// `{`
    LCurly,
    /// `}`
    RCurly,
    /// `(`
    LParen,
    /// `)`
    RParen,
    /// `,`
    Comma,
    /// `#`
    Hash,
    /// A double quote.
    Quote,
    /// `=`
    Eq,
    /// The name of a command inside a value, escape character included.
    CommandName,
    /// The whole file.
    Root,
    /// Text between records.
    Comment,
    /// A `@preamble` record.
    Preamble,
    /// A `@string` record.
    StringDefinition,
    /// A bibliography entry.
    Entry,
    /// A `name = value` pair of an entry.
    Field,
    /// The value of a field.
    Value,
    /// A single word inside a value.
    Token,
    /// A command inside a value.
    Command,
    /// Brace-delimited content.
    BraceGroup,
    /// Quote-delimited content.
    QuoteGroup,
    /// Two values joined by `#`.
    Concat,
}

impl BibtexKind {
    /// The tag under which the tree stores this kind.
    pub open spec fn raw(self) -> u16 {
        match self {
            BibtexKind::Whitespace => 0,
            BibtexKind::PreambleType => 1,
            BibtexKind::StringType => 2,
            BibtexKind::EntryType => 3,
            BibtexKind::Word => 4,
            BibtexKind::LCurly => 5,
            BibtexKind::RCurly => 6,
            BibtexKind::LParen => 7,
            BibtexKind::RParen => 8,
            BibtexKind::Comma => 9,
            BibtexKind::Hash => 10,
            BibtexKind::Quote => 11,
            BibtexKind::Eq => 12,
            BibtexKind::CommandName => 13,
            BibtexKind::Root => 14,
            BibtexKind::Comment => 15,
            BibtexKind::Preamble => 16,
            BibtexKind::StringDefinition => 17,
            BibtexKind::Entry => 18,
            BibtexKind::Field => 19,
            BibtexKind::Value => 20,
            BibtexKind::Token => 21,
            BibtexKind::Command => 22,
            BibtexKind::BraceGroup => 23,
            BibtexKind::QuoteGroup => 24,
            BibtexKind::Concat => 25,
        }
    }

    /// The kind that a stored tag stands for, if it stands for one.
    pub open spec fn of_raw(raw: u16) -> Option<BibtexKind> {
        if raw == 0 {
            Some(BibtexKind::Whitespace)
        }         else if raw == 1 {
            Some(BibtexKind::PreambleType)
        }         else if raw == 2 {
            Some(BibtexKind::StringType)
        }         else if raw == 3 {
            Some(BibtexKind::EntryType)
        }         else if raw == 4 {
            Some(BibtexKind::Word)
        }         else if raw == 5 {
            Some(BibtexKind::LCurly)
        }         else if raw == 6 {
            Some(BibtexKind::RCurly)
        }         else if raw == 7 {
            Some(BibtexKind::LParen)
        }         else if raw == 8 {
            Some(BibtexKind::RParen)
        }         else if raw == 9 {
            Some(BibtexKind::Comma)
        }         else if raw == 10 {
            Some(BibtexKind::Hash)
        }         else if raw == 11 {
            Some(BibtexKind::Quote)
        }         else if raw == 12 {
            Some(BibtexKind::Eq)
        }         else if raw == 13 {
            Some(BibtexKind::CommandName)
        }         else if raw == 14 {
            Some(BibtexKind::Root)
        }         else if raw == 15 {
            Some(BibtexKind::Comment)
        }         else if raw == 16 {
            Some(BibtexKind::Preamble)
        }         else if raw == 17 {
            Some(BibtexKind::StringDefinition)
        }         else if raw == 18 {
            Some(BibtexKind::Entry)
        }         else if raw == 19 {
            Some(BibtexKind::Field)
        }         else if raw == 20 {
            Some(BibtexKind::Value)
        }         else if raw == 21 {
            Some(BibtexKind::Token)
        }         else if raw == 22 {
            Some(BibtexKind::Command)
        }         else if raw == 23 {
            Some(BibtexKind::BraceGroup)
        }         else if raw == 24 {
            Some(BibtexKind::QuoteGroup)
        }         else if raw == 25 {
            Some(BibtexKind::Concat)
        } else {
            None
        }
    }

    /// The tag under which the tree stores this kind.
    pub fn to_raw(self) -> (raw: u16)
        ensures
            raw == self.raw(),
    {
        match self {
            BibtexKind::Whitespace => 0,
            BibtexKind::PreambleType => 1,
            BibtexKind::StringType => 2,
            BibtexKind::EntryType => 3,
            BibtexKind::Word => 4,
            BibtexKind::LCurly => 5,
            BibtexKind::RCurly => 6,
            BibtexKind::LParen => 7,
            BibtexKind::RParen => 8,
            BibtexKind::Comma => 9,
            BibtexKind::Hash => 10,
            BibtexKind::Quote => 11,
            BibtexKind::Eq => 12,
            BibtexKind::CommandName => 13,
            BibtexKind::Root => 14,
            BibtexKind::Comment => 15,
            BibtexKind::Preamble => 16,
            BibtexKind::StringDefinition => 17,
            BibtexKind::Entry => 18,
            BibtexKind::Field => 19,
            BibtexKind::Value => 20,
            BibtexKind::Token => 21,
            BibtexKind::Command => 22,
            BibtexKind::BraceGroup => 23,
            BibtexKind::QuoteGroup => 24,
            BibtexKind::Concat => 25,
        }
    }

    /// The kind that a stored tag stands for, if it stands for one.
    pub fn from_raw(raw: u16) -> (kind: Option<BibtexKind>)
        ensures
            kind == Self::of_raw(raw),
    {
        if raw == 0 {
            Some(BibtexKind::Whitespace)
        }         else if raw == 1 {
            Some(BibtexKind::PreambleType)
        }         else if raw == 2 {
            Some(BibtexKind::StringType)
        }         else if raw == 3 {
            Some(BibtexKind::EntryType)
        }         else if raw == 4 {
            Some(BibtexKind::Word)
        }         else if raw == 5 {
            Some(BibtexKind::LCurly)
        }         else if raw == 6 {
            Some(BibtexKind::RCurly)
        }         else if raw == 7 {
            Some(BibtexKind::LParen)
        }         else if raw == 8 {
            Some(BibtexKind::RParen)
        }         else if raw == 9 {
            Some(BibtexKind::Comma)
        }         else if raw == 10 {
            Some(BibtexKind::Hash)
        }         else if raw == 11 {
            Some(BibtexKind::Quote)
        }         else if raw == 12 {
            Some(BibtexKind::Eq)
        }         else if raw == 13 {
            Some(BibtexKind::CommandName)
        }         else if raw == 14 {
            Some(BibtexKind::Root)
        }         else if raw == 15 {
            Some(BibtexKind::Comment)
        }         else if raw == 16 {
            Some(BibtexKind::Preamble)
        }         else if raw == 17 {
            Some(BibtexKind::StringDefinition)
        }         else if raw == 18 {
            Some(BibtexKind::Entry)
        }         else if raw == 19 {
            Some(BibtexKind::Field)
        }         else if raw == 20 {
            Some(BibtexKind::Value)
        }         else if raw == 21 {
            Some(BibtexKind::Token)
        }         else if raw == 22 {
            Some(BibtexKind::Command)
        }         else if raw == 23 {
            Some(BibtexKind::BraceGroup)
        }         else if raw == 24 {
            Some(BibtexKind::QuoteGroup)
        }         else if raw == 25 {
            Some(BibtexKind::Concat)
        } else {
            None
        }
    }

    /// A kind survives the trip through its tag, and a tag that stands for
    /// a kind is the tag of that kind.
    pub proof fn lemma_raw_round_trip(kind: BibtexKind, raw: u16)
        ensures
            Self::of_raw(kind.raw()) == Some(kind),
            Self::of_raw(raw) matches Some(k) ==> k.raw() == raw,
    {
    }
}

/// A bibliography entry.
#[derive(Debug, PartialEq, Eq, Clone, Copy)]
pub struct Entry {
    node: usize,
}

impl CstNode for Entry {
    open spec fn can_cast(kind: u16) -> bool {
        kind == BibtexKind::Entry.raw()
    }

    closed spec fn node(&self) -> int {
        self.node as int
    }

    fn cast(tree: &SyntaxTree, node: usize) -> (view: Option<Self>) {
        if node < tree.len() && !tree.is_token(node) && tree.kind(node)
            == BibtexKind::Entry.to_raw() {
            Some(Entry { node })
        } else {
            None
        }
    }

    fn syntax(&self) -> (node: usize) {
        self.node
    }
}

impl Entry {
    /// The keyword of the entry: the first child that is a token of its kind.
    pub open spec fn ty_of(t: Seq<ElementData>, node: int) -> Option<int> {
        first_child_of_kind(t, node, BibtexKind::EntryType.raw(), true)
    }

    /// The keyword of the entry, if there is one.
    pub fn ty(&self, tree: &SyntaxTree) -> (token: Option<usize>)
        requires
            tree.wf(),
            self.node() < tree@.len(),
        ensures
            match token {
                Some(i) => Self::ty_of(tree@, self.node()) == Some(i as int) && i < tree@.len(),
                None => Self::ty_of(tree@, self.node()) is None,
            },
    {
        tree.first_child_of_kind(self.node, BibtexKind::EntryType.to_raw(), true)
    }
}

/// A `@preamble` record.
#[derive(Debug, PartialEq, Eq, Clone, Copy)]
pub struct Preamble {
    node: usize,
}

impl CstNode for Preamble {
    open spec fn can_cast(kind: u16) -> bool {
        kind == BibtexKind::Preamble.raw()
    }

    closed spec fn node(&self) -> int {
        self.node as int
    }

    fn cast(tree: &SyntaxTree, node: usize) -> (view: Option<Self>) {
        if node < tree.len() && !tree.is_token(node) && tree.kind(node)
            == BibtexKind::Preamble.to_raw() {
            Some(Preamble { node })
        } else {
            None
        }
    }

    fn syntax(&self) -> (node: usize) {
        self.node
    }
}

impl Preamble {
    /// The keyword of the record: the first child that is a token of its kind.
    pub open spec fn ty_of(t: Seq<ElementData>, node: int) -> Option<int> {
        first_child_of_kind(t, node, BibtexKind::PreambleType.raw(), true)
    }

    /// The keyword of the record, if there is one.
    pub fn ty(&self, tree: &SyntaxTree) -> (token: Option<usize>)
        requires
            tree.wf(),
            self.node() < tree@.len(),
        ensures
            match token {
                Some(i) => Self::ty_of(tree@, self.node()) == Some(i as int) && i < tree@.len(),
                None => Self::ty_of(tree@, self.node()) is None,
            },
    {
        tree.first_child_of_kind(self.node, BibtexKind::PreambleType.to_raw(), true)
    }
}

/// A `@string` record.
#[derive(Debug, PartialEq, Eq, Clone, Copy)]
pub struct StringDefinition {
    node: usize,
}

impl CstNode for StringDefinition {
    open spec fn can_cast(kind: u16) -> bool {
        kind == BibtexKind::StringDefinition.raw()
    }

    closed spec fn node(&self) -> int {
        self.node as int
    }

    fn cast(tree: &SyntaxTree, node: usize) -> (view: Option<Self>) {
        if node < tree.len() && !tree.is_token(node) && tree.kind(node)
            == BibtexKind::StringDefinition.to_raw() {
            Some(StringDefinition { node })
        } else {
            None
        }
    }

    fn syntax(&self) -> (node: usize) {
        self.node
    }
}

impl StringDefinition {
    /// The keyword of the record: the first child that is a token of its kind.
    pub open spec fn ty_of(t: Seq<ElementData>, node: int) -> Option<int> {
        first_child_of_kind(t, node, BibtexKind::StringType.raw(), true)
    }

    /// The keyword of the record, if there is one.
    pub fn ty(&self, tree: &SyntaxTree) -> (token: Option<usize>)
        requires
            tree.wf(),
            self.node() < tree@.len(),
        ensures
            match token {
                Some(i) => Self::ty_of(tree@, self.node()) == Some(i as int) && i < tree@.len(),
                None => Self::ty_of(tree@, self.node()) is None,
            },
    {
        tree.first_child_of_kind(self.node, BibtexKind::StringType.to_raw(), true)
    }
}

/// A `name = value` pair of an entry.
#[derive(Debug, PartialEq, Eq, Clone, Copy)]
pub struct Field {
    node: usize,
}

impl CstNode for Field {
    open spec fn can_cast(kind: u16) -> bool {
        kind == BibtexKind::Field.raw()
    }

    closed spec fn node(&self) -> int {
        self.node as int
    }

    fn cast(tree: &SyntaxTree, node: usize) -> (view: Option<Self>) {
        if node < tree.len() && !tree.is_token(node) && tree.kind(node)
            == BibtexKind::Field.to_raw() {
            Some(Field { node })
        } else {
            None
        }
    }

    fn syntax(&self) -> (node: usize) {
        self.node
    }
}

impl Field {
    /// The name of the field: the first child that is a token of its kind.
    pub open spec fn name_of(t: Seq<ElementData>, node: int) -> Option<int> {
        first_child_of_kind(t, node, BibtexKind::Word.raw(), true)
    }

    /// The name of the field, if there is one.
    pub fn name(&self, tree: &SyntaxTree) -> (token: Option<usize>)
        requires
            tree.wf(),
            self.node() < tree@.len(),
        ensures
            match token {
                Some(i) => Self::name_of(tree@, self.node()) == Some(i as int) && i < tree@.len(),
                None => Self::name_of(tree@, self.node()) is None,
            },
    {
        tree.first_child_of_kind(self.node, BibtexKind::Word.to_raw(), true)
    }
}

/// Text between records.
#[derive(Debug, PartialEq, Eq, Clone, Copy)]
pub struct Comment {
    node: usize,
}

impl CstNode for Comment {
    open spec fn can_cast(kind: u16) -> bool {
        kind == BibtexKind::Comment.raw()
    }

    closed spec fn node(&self) -> int {
        self.node as int
    }

    fn cast(tree: &SyntaxTree, node: usize) -> (view: Option<Self>) {
        if node < tree.len() && !tree.is_token(node) && tree.kind(node)
            == BibtexKind::Comment.to_raw() {
            Some(Comment { node })
        } else {
            None
        }
    }

    fn syntax(&self) -> (node: usize) {
        self.node
    }
}

impl Comment {
    /// The text of the comment: the first child that is a token.
    pub open spec fn token_of(t: Seq<ElementData>, node: int) -> Option<int> {
        first_token_child(t, node)
    }

    /// The text of the comment, if there is one.
    pub fn token(&self, tree: &SyntaxTree) -> (token: Option<usize>)
        requires
            tree.wf(),
            self.node() < tree@.len(),
        ensures
            match token {
                Some(i) => Self::token_of(tree@, self.node()) == Some(i as int) && i < tree@.len(),
                None => Self::token_of(tree@, self.node()) is None,
            },
    {
        tree.first_token_child(self.node)
    }
}

/// A single word inside a value.
#[derive(Debug, PartialEq, Eq, Clone, Copy)]
pub struct Word {
    node: usize,
}

impl CstNode for Word {
    open spec fn can_cast(kind: u16) -> bool {
        kind == BibtexKind::Token.raw()
    }

    closed spec fn node(&self) -> int {
        self.node as int
    }

    fn cast(tree: &SyntaxTree, node: usize) -> (view: Option<Self>) {
        if node < tree.len() && !tree.is_token(node) && tree.kind(node)
            == BibtexKind::Token.to_raw() {
            Some(Word { node })
        } else {
            None
        }
    }

    fn syntax(&self) -> (node: usize) {
        self.node
    }
}

impl Word {
    /// The word: the first child that is a token.
    pub open spec fn token_of(t: Seq<ElementData>, node: int) -> Option<int> {
        first_token_child(t, node)
    }

    /// The word, if there is one.
    pub fn token(&self, tree: &SyntaxTree) -> (token: Option<usize>)
        requires
            tree.wf(),
            self.node() < tree@.len(),
        ensures
            match token {
                Some(i) => Self::token_of(tree@, self.node()) == Some(i as int) && i < tree@.len(),
                None => Self::token_of(tree@, self.node()) is None,
            },
    {
        tree.first_token_child(self.node)
    }
}

/// A command inside a value.
#[derive(Debug, PartialEq, Eq, Clone, Copy)]
pub struct Command {
    node: usize,
}

impl CstNode for Command {
    open spec fn can_cast(kind: u16) -> bool {
        kind == BibtexKind::Command.raw()
    }

    closed spec fn node(&self) -> int {
        self.node as int
    }

    fn cast(tree: &SyntaxTree, node: usize) -> (view: Option<Self>) {
        if node < tree.len() && !tree.is_token(node) && tree.kind(node)
            == BibtexKind::Command.to_raw() {
            Some(Command { node })
        } else {
            None
        }
    }

    fn syntax(&self) -> (node: usize) {
        self.node
    }
}

impl Command {
    /// The name of the command: the first child that is a token.
    pub open spec fn token_of(t: Seq<ElementData>, node: int) -> Option<int> {
        first_token_child(t, node)
    }

    /// The name of the command, if there is one.
    pub fn token(&self, tree: &SyntaxTree) -> (token: Option<usize>)
        requires
            tree.wf(),
            self.node() < tree@.len(),
        ensures
            match token {
                Some(i) => Self::token_of(tree@, self.node()) == Some(i as int) && i < tree@.len(),
                None => Self::token_of(tree@, self.node()) is None,
            },
    {
        tree.first_token_child(self.node)
    }
}

} // verus!
