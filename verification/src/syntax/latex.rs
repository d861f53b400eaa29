//! The LaTeX grammar: kinds of nodes and tokens, and typed views of nodes.

use crate::syntax::cst::{
    children, encloses, first_child_of_kind, lemma_wf_element, lemma_wf_starts, lemma_wf_within,
    well_formed, CstNode, ElementData, SyntaxTree,
};
use crate::syntax::offset::TextRange;
use vstd::prelude::*;

verus! {

/// The kinds of tokens and nodes of a LaTeX syntax tree.
#[derive(Debug, PartialEq, Eq, Clone, Copy, Hash, Structural)]
pub enum LatexKind {
    /// Blanks and tabs.
    Whitespace,
    /// An end of line.
    LineBreak,
    /// A `%` comment up to the end of its line.
    Comment,
    /// `{`
    LCurly,
    /// `}`
    RCurly,
    /// `[`
    LBrack,
    /// `]`
    RBrack,
    /// `,`
    Comma,
    /// `=`
    Eq,
    /// A run of ordinary characters.
    Word,
    /// The name of a command without a shape of its own, escape character included.
    GenericCommandName,
    /// The name of a command that defines an acronym.
    AcronymDefinitionName,
    /// The name of a command that refers to an acronym.
    AcronymReferenceName,
    /// The name of a command that refers to a color.
    ColorReferenceName,
    /// The name of a command that includes another file.
    IncludeName,
    /// The whole document.
    Root,
    /// A run of words and blanks.
    Text,
    /// The words of a key or name inside a group.
    Key,
    /// A brace-delimited group of anything.
    CurlyGroup,
    /// A brace-delimited group that holds one key.
    CurlyGroupWord,
    /// A brace-delimited group that holds a comma-separated list of keys.
    CurlyGroupWordList,
    /// A bracket-delimited group.
    BrackGroup,
    /// A command with its argument groups.
    GenericCommand,
    /// A command that defines an acronym.
    AcronymDefinition,
    /// A command that refers to an acronym.
    AcronymReference,
    /// A command that refers to a color.
    ColorReference,
    /// A command that includes another file.
    Include,
}

impl LatexKind {
    /// The tag under which the tree stores this kind.
    pub open spec fn raw(self) -> u16 {
        match self {
            LatexKind::Whitespace => 0,
            LatexKind::LineBreak => 1,
            LatexKind::Comment => 2,
            LatexKind::LCurly => 3,
            LatexKind::RCurly => 4,
            LatexKind::LBrack => 5,
            LatexKind::RBrack => 6,
            LatexKind::Comma => 7,
            LatexKind::Eq => 8,
            LatexKind::Word => 9,
            LatexKind::GenericCommandName => 10,
            LatexKind::AcronymDefinitionName => 11,
            LatexKind::AcronymReferenceName => 12,
            LatexKind::ColorReferenceName => 13,
            LatexKind::IncludeName => 14,
            LatexKind::Root => 15,
            LatexKind::Text => 16,
            LatexKind::Key => 17,
            LatexKind::CurlyGroup => 18,
            LatexKind::CurlyGroupWord => 19,
            LatexKind::CurlyGroupWordList => 20,
            LatexKind::BrackGroup => 21,
            LatexKind::GenericCommand => 22,
            LatexKind::AcronymDefinition => 23,
            LatexKind::AcronymReference => 24,
            LatexKind::ColorReference => 25,
            LatexKind::Include => 26,
        }
    }

    /// The kind that a stored tag stands for, if it stands for one.
    pub open spec fn of_raw(raw: u16) -> Option<LatexKind> {
        if raw == 0 {
            Some(LatexKind::Whitespace)
        }         else if raw == 1 {
            Some(LatexKind::LineBreak)
        }         else if raw == 2 {
            Some(LatexKind::Comment)
        }         else if raw == 3 {
            Some(LatexKind::LCurly)
        }         else if raw == 4 {
            Some(LatexKind::RCurly)
        }         else if raw == 5 {
            Some(LatexKind::LBrack)
        }         else if raw == 6 {
            Some(LatexKind::RBrack)
        }         else if raw == 7 {
            Some(LatexKind::Comma)
        }         else if raw == 8 {
            Some(LatexKind::Eq)
        }         else if raw == 9 {
            Some(LatexKind::Word)
        }         else if raw == 10 {
            Some(LatexKind::GenericCommandName)
        }         else if raw == 11 {
            Some(LatexKind::AcronymDefinitionName)
        }         else if raw == 12 {
            Some(LatexKind::AcronymReferenceName)
        }         else if raw == 13 {
            Some(LatexKind::ColorReferenceName)
        }         else if raw == 14 {
            Some(LatexKind::IncludeName)
        }         else if raw == 15 {
            Some(LatexKind::Root)
        }         else if raw == 16 {
            Some(LatexKind::Text)
        }         else if raw == 17 {
            Some(LatexKind::Key)
        }         else if raw == 18 {
            Some(LatexKind::CurlyGroup)
        }         else if raw == 19 {
            Some(LatexKind::CurlyGroupWord)
        }         else if raw == 20 {
            Some(LatexKind::CurlyGroupWordList)
        }         else if raw == 21 {
            Some(LatexKind::BrackGroup)
        }         else if raw == 22 {
            Some(LatexKind::GenericCommand)
        }         else if raw == 23 {
            Some(LatexKind::AcronymDefinition)
        }         else if raw == 24 {
            Some(LatexKind::AcronymReference)
        }         else if raw == 25 {
            Some(LatexKind::ColorReference)
        }         else if raw == 26 {
            Some(LatexKind::Include)
        } else {
            None
        }
    }

    /// The tag under which the tree stores this kind.
    pub fn to_raw(self) -> (raw: u16)
        ensures
            raw == self.raw(),
    {
        match self {
            LatexKind::Whitespace => 0,
            LatexKind::LineBreak => 1,
            LatexKind::Comment => 2,
            LatexKind::LCurly => 3,
            LatexKind::RCurly => 4,
            LatexKind::LBrack => 5,
            LatexKind::RBrack => 6,
            LatexKind::Comma => 7,
            LatexKind::Eq => 8,
            LatexKind::Word => 9,
            LatexKind::GenericCommandName => 10,
            LatexKind::AcronymDefinitionName => 11,
            LatexKind::AcronymReferenceName => 12,
            LatexKind::ColorReferenceName => 13,
            LatexKind::IncludeName => 14,
            LatexKind::Root => 15,
            LatexKind::Text => 16,
            LatexKind::Key => 17,
            LatexKind::CurlyGroup => 18,
            LatexKind::CurlyGroupWord => 19,
            LatexKind::CurlyGroupWordList => 20,
            LatexKind::BrackGroup => 21,
            LatexKind::GenericCommand => 22,
            LatexKind::AcronymDefinition => 23,
            LatexKind::AcronymReference => 24,
            LatexKind::ColorReference => 25,
            LatexKind::Include => 26,
        }
    }

    /// The kind that a stored tag stands for, if it stands for one.
    pub fn from_raw(raw: u16) -> (kind: Option<LatexKind>)
        ensures
            kind == Self::of_raw(raw),
    {
        if raw == 0 {
            Some(LatexKind::Whitespace)
        }         else if raw == 1 {
            Some(LatexKind::LineBreak)
        }         else if raw == 2 {
            Some(LatexKind::Comment)
        }         else if raw == 3 {
            Some(LatexKind::LCurly)
        }         else if raw == 4 {
            Some(LatexKind::RCurly)
        }         else if raw == 5 {
            Some(LatexKind::LBrack)
        }         else if raw == 6 {
            Some(LatexKind::RBrack)
        }         else if raw == 7 {
            Some(LatexKind::Comma)
        }         else if raw == 8 {
            Some(LatexKind::Eq)
        }         else if raw == 9 {
            Some(LatexKind::Word)
        }         else if raw == 10 {
            Some(LatexKind::GenericCommandName)
        }         else if raw == 11 {
            Some(LatexKind::AcronymDefinitionName)
        }         else if raw == 12 {
            Some(LatexKind::AcronymReferenceName)
        }         else if raw == 13 {
            Some(LatexKind::ColorReferenceName)
        }         else if raw == 14 {
            Some(LatexKind::IncludeName)
        }         else if raw == 15 {
            Some(LatexKind::Root)
        }         else if raw == 16 {
            Some(LatexKind::Text)
        }         else if raw == 17 {
            Some(LatexKind::Key)
        }         else if raw == 18 {
            Some(LatexKind::CurlyGroup)
        }         else if raw == 19 {
            Some(LatexKind::CurlyGroupWord)
        }         else if raw == 20 {
            Some(LatexKind::CurlyGroupWordList)
        }         else if raw == 21 {
            Some(LatexKind::BrackGroup)
        }         else if raw == 22 {
            Some(LatexKind::GenericCommand)
        }         else if raw == 23 {
            Some(LatexKind::AcronymDefinition)
        }         else if raw == 24 {
            Some(LatexKind::AcronymReference)
        }         else if raw == 25 {
            Some(LatexKind::ColorReference)
        }         else if raw == 26 {
            Some(LatexKind::Include)
        } else {
            None
        }
    }

    /// A kind survives the trip through its tag, and a tag that stands for
    /// a kind is the tag of that kind.
    pub proof fn lemma_raw_round_trip(kind: LatexKind, raw: u16)
        ensures
            Self::of_raw(kind.raw()) == Some(kind),
            Self::of_raw(raw) matches Some(k) ==> k.raw() == raw,
    {
    }

    /// Tokens that name a command.
    pub open spec fn spec_is_command_name(self) -> bool {
        matches!(
            self,
            LatexKind::GenericCommandName
                | LatexKind::AcronymDefinitionName
                | LatexKind::AcronymReferenceName
                | LatexKind::ColorReferenceName
                | LatexKind::IncludeName
        )
    }

    /// Nodes that are a command with its arguments.
    pub open spec fn spec_is_command(self) -> bool {
        matches!(
            self,
            LatexKind::GenericCommand
                | LatexKind::AcronymDefinition
                | LatexKind::AcronymReference
                | LatexKind::ColorReference
                | LatexKind::Include
        )
    }

    /// Tokens that carry no content: blanks, line breaks and comments.
    pub open spec fn spec_is_trivia(self) -> bool {
        matches!(self, LatexKind::Whitespace | LatexKind::LineBreak | LatexKind::Comment)
    }

    /// Nodes that hold words directly.
    pub open spec fn spec_is_text(self) -> bool {
        matches!(self, LatexKind::Text | LatexKind::Key)
    }

    /// Nodes that are delimited by braces or brackets.
    pub open spec fn spec_is_group(self) -> bool {
        matches!(
            self,
            LatexKind::CurlyGroup
                | LatexKind::CurlyGroupWord
                | LatexKind::CurlyGroupWordList
                | LatexKind::BrackGroup
        )
    }

    /// Whether a token of this kind names a command.
    #[verifier::when_used_as_spec(spec_is_command_name)]
    pub fn is_command_name(self) -> (named: bool)
        ensures
            named == self.spec_is_command_name(),
    {
        matches!(
            self,
            LatexKind::GenericCommandName
                | LatexKind::AcronymDefinitionName
                | LatexKind::AcronymReferenceName
                | LatexKind::ColorReferenceName
                | LatexKind::IncludeName
        )
    }

    /// Whether a node of this kind is a command with its arguments.
    #[verifier::when_used_as_spec(spec_is_command)]
    pub fn is_command(self) -> (command: bool)
        ensures
            command == self.spec_is_command(),
    {
        matches!(
            self,
            LatexKind::GenericCommand
                | LatexKind::AcronymDefinition
                | LatexKind::AcronymReference
                | LatexKind::ColorReference
                | LatexKind::Include
        )
    }

    /// Whether a token of this kind carries no content.
    #[verifier::when_used_as_spec(spec_is_trivia)]
    pub fn is_trivia(self) -> (trivia: bool)
        ensures
            trivia == self.spec_is_trivia(),
    {
        matches!(self, LatexKind::Whitespace | LatexKind::LineBreak | LatexKind::Comment)
    }

    /// Whether a node of this kind holds words directly.
    #[verifier::when_used_as_spec(spec_is_text)]
    pub fn is_text(self) -> (text: bool)
        ensures
            text == self.spec_is_text(),
    {
        matches!(self, LatexKind::Text | LatexKind::Key)
    }

    /// Whether a node of this kind is delimited by braces or brackets.
    #[verifier::when_used_as_spec(spec_is_group)]
    pub fn is_group(self) -> (group: bool)
        ensures
            group == self.spec_is_group(),
    {
        matches!(
            self,
            LatexKind::CurlyGroup
                | LatexKind::CurlyGroupWord
                | LatexKind::CurlyGroupWordList
                | LatexKind::BrackGroup
        )
    }
}

/// A brace-delimited argument of a command.
#[derive(Debug, PartialEq, Eq, Clone, Copy)]
pub struct CurlyGroup {
    node: usize,
}

impl CstNode for CurlyGroup {
    open spec fn can_cast(kind: u16) -> bool {
        kind == LatexKind::CurlyGroup.raw()
    }

    closed spec fn node(&self) -> int {
        self.node as int
    }

    fn cast(tree: &SyntaxTree, node: usize) -> (view: Option<Self>) {
        if node < tree.len() && !tree.is_token(node) && tree.kind(node)
            == LatexKind::CurlyGroup.to_raw() {
            Some(CurlyGroup { node })
        } else {
            None
        }
    }

    fn syntax(&self) -> (node: usize) {
        self.node
    }
}

/// A brace-delimited argument that holds one key.
#[derive(Debug, PartialEq, Eq, Clone, Copy)]
pub struct CurlyGroupWord {
    node: usize,
}

impl CstNode for CurlyGroupWord {
    open spec fn can_cast(kind: u16) -> bool {
        kind == LatexKind::CurlyGroupWord.raw()
    }

    closed spec fn node(&self) -> int {
        self.node as int
    }

    fn cast(tree: &SyntaxTree, node: usize) -> (view: Option<Self>) {
        if node < tree.len() && !tree.is_token(node) && tree.kind(node)
            == LatexKind::CurlyGroupWord.to_raw() {
            Some(CurlyGroupWord { node })
        } else {
            None
        }
    }

    fn syntax(&self) -> (node: usize) {
        self.node
    }
}

/// The words of a key or name.
#[derive(Debug, PartialEq, Eq, Clone, Copy)]
pub struct Key {
    node: usize,
}

impl CstNode for Key {
    open spec fn can_cast(kind: u16) -> bool {
        kind == LatexKind::Key.raw()
    }

    closed spec fn node(&self) -> int {
        self.node as int
    }

    fn cast(tree: &SyntaxTree, node: usize) -> (view: Option<Self>) {
        if node < tree.len() && !tree.is_token(node) && tree.kind(node)
            == LatexKind::Key.to_raw() {
            Some(Key { node })
        } else {
            None
        }
    }

    fn syntax(&self) -> (node: usize) {
        self.node
    }
}

/// A command without a shape of its own.
#[derive(Debug, PartialEq, Eq, Clone, Copy)]
pub struct GenericCommand {
    node: usize,
}

impl CstNode for GenericCommand {
    open spec fn can_cast(kind: u16) -> bool {
        kind == LatexKind::GenericCommand.raw()
    }

    closed spec fn node(&self) -> int {
        self.node as int
    }

    fn cast(tree: &SyntaxTree, node: usize) -> (view: Option<Self>) {
        if node < tree.len() && !tree.is_token(node) && tree.kind(node)
            == LatexKind::GenericCommand.to_raw() {
            Some(GenericCommand { node })
        } else {
            None
        }
    }

    fn syntax(&self) -> (node: usize) {
        self.node
    }
}

/// A command that defines an acronym.
#[derive(Debug, PartialEq, Eq, Clone, Copy)]
pub struct AcronymDefinition {
    node: usize,
}

impl CstNode for AcronymDefinition {
    open spec fn can_cast(kind: u16) -> bool {
        kind == LatexKind::AcronymDefinition.raw()
    }

    closed spec fn node(&self) -> int {
        self.node as int
    }

    fn cast(tree: &SyntaxTree, node: usize) -> (view: Option<Self>) {
        if node < tree.len() && !tree.is_token(node) && tree.kind(node)
            == LatexKind::AcronymDefinition.to_raw() {
            Some(AcronymDefinition { node })
        } else {
            None
        }
    }

    fn syntax(&self) -> (node: usize) {
        self.node
    }
}

/// A command that refers to an acronym.
#[derive(Debug, PartialEq, Eq, Clone, Copy)]
pub struct AcronymReference {
    node: usize,
}

impl CstNode for AcronymReference {
    open spec fn can_cast(kind: u16) -> bool {
        kind == LatexKind::AcronymReference.raw()
    }

    closed spec fn node(&self) -> int {
        self.node as int
    }

    fn cast(tree: &SyntaxTree, node: usize) -> (view: Option<Self>) {
        if node < tree.len() && !tree.is_token(node) && tree.kind(node)
            == LatexKind::AcronymReference.to_raw() {
            Some(AcronymReference { node })
        } else {
            None
        }
    }

    fn syntax(&self) -> (node: usize) {
        self.node
    }
}

/// A command that refers to a color.
#[derive(Debug, PartialEq, Eq, Clone, Copy)]
pub struct ColorReference {
    node: usize,
}

impl CstNode for ColorReference {
    open spec fn can_cast(kind: u16) -> bool {
        kind == LatexKind::ColorReference.raw()
    }

    closed spec fn node(&self) -> int {
        self.node as int
    }

    fn cast(tree: &SyntaxTree, node: usize) -> (view: Option<Self>) {
        if node < tree.len() && !tree.is_token(node) && tree.kind(node)
            == LatexKind::ColorReference.to_raw() {
            Some(ColorReference { node })
        } else {
            None
        }
    }

    fn syntax(&self) -> (node: usize) {
        self.node
    }
}

/// Element `i` is a token that names a command.
pub open spec fn is_command_name_at(t: Seq<ElementData>, i: int) -> bool {
    t[i].is_token && (LatexKind::of_raw(t[i].kind) matches Some(k) && k.spec_is_command_name())
}

/// Element `i` is a command node.
pub open spec fn is_command_at(t: Seq<ElementData>, i: int) -> bool {
    !t[i].is_token && (LatexKind::of_raw(t[i].kind) matches Some(k) && k.spec_is_command())
}

/// Element `i` is a node that holds words directly.
pub open spec fn is_text_at(t: Seq<ElementData>, i: int) -> bool {
    !t[i].is_token && (LatexKind::of_raw(t[i].kind) matches Some(k) && k.spec_is_text())
}

/// Element `i` is a node delimited by braces or brackets.
pub open spec fn is_group_at(t: Seq<ElementData>, i: int) -> bool {
    !t[i].is_token && (LatexKind::of_raw(t[i].kind) matches Some(k) && k.spec_is_group())
}

/// Element `i` is a token without content.
pub open spec fn is_trivia_at(t: Seq<ElementData>, i: int) -> bool {
    t[i].is_token && (LatexKind::of_raw(t[i].kind) matches Some(k) && k.spec_is_trivia())
}

/// Element `i` is a token with content.
pub open spec fn is_content_token_at(t: Seq<ElementData>, i: int) -> bool {
    t[i].is_token && !is_trivia_at(t, i)
}

/// Whether an element is a token that names a command.
pub fn is_command_name_token(tree: &SyntaxTree, index: usize) -> (named: bool)
    requires
        index < tree@.len(),
    ensures
        named == is_command_name_at(tree@, index as int),
{
    tree.is_token(index) && match LatexKind::from_raw(tree.kind(index)) {
        Some(kind) => kind.is_command_name(),
        None => false,
    }
}

/// Whether an element is a command node.
pub fn is_command_node(tree: &SyntaxTree, index: usize) -> (command: bool)
    requires
        index < tree@.len(),
    ensures
        command == is_command_at(tree@, index as int),
{
    !tree.is_token(index) && match LatexKind::from_raw(tree.kind(index)) {
        Some(kind) => kind.is_command(),
        None => false,
    }
}

/// Whether an element is a node that holds words directly.
pub fn is_text_node(tree: &SyntaxTree, index: usize) -> (text: bool)
    requires
        index < tree@.len(),
    ensures
        text == is_text_at(tree@, index as int),
{
    !tree.is_token(index) && match LatexKind::from_raw(tree.kind(index)) {
        Some(kind) => kind.is_text(),
        None => false,
    }
}

/// Whether an element is a node delimited by braces or brackets.
pub fn is_group_node(tree: &SyntaxTree, index: usize) -> (group: bool)
    requires
        index < tree@.len(),
    ensures
        group == is_group_at(tree@, index as int),
{
    !tree.is_token(index) && match LatexKind::from_raw(tree.kind(index)) {
        Some(kind) => kind.is_group(),
        None => false,
    }
}

/// Whether an element is a token with content.
pub fn is_content_token(tree: &SyntaxTree, index: usize) -> (content: bool)
    requires
        index < tree@.len(),
    ensures
        content == is_content_token_at(tree@, index as int),
{
    tree.is_token(index) && match LatexKind::from_raw(tree.kind(index)) {
        Some(kind) => !kind.is_trivia(),
        None => true,
    }
}

/// The closing brace of a group: its first child that is a `}` token.
pub open spec fn right_curly_of(t: Seq<ElementData>, group: int) -> Option<int> {
    first_child_of_kind(t, group, LatexKind::RCurly.raw(), true)
}

/// The last token with content among the elements after `node` and before
/// `n`.
pub open spec fn last_content_token_below(t: Seq<ElementData>, node: int, n: int) -> Option<int>
    decreases n,
{
    if n <= node + 1 || n <= 0 {
        None
    } else if is_content_token_at(t, n - 1) {
        Some(n - 1)
    } else {
        last_content_token_below(t, node, n - 1)
    }
}

/// The range of a node without the blanks and comments that trail it: from
/// its start to the end of its last token with content, and empty when it
/// has none.
pub open spec fn small_range_of(t: Seq<ElementData>, node: int) -> TextRange {
    match last_content_token_below(t, node, t[node].end_index) {
        Some(last) => TextRange { start: t[node].range.start, end: t[last].range.end },
        None => TextRange { start: t[node].range.start, end: t[node].range.start },
    }
}

/// The closing brace of a group, if it has one.
pub fn right_curly(tree: &SyntaxTree, group: usize) -> (brace: Option<usize>)
    requires
        tree.wf(),
        group < tree@.len(),
    ensures
        match brace {
            Some(b) => right_curly_of(tree@, group as int) == Some(b as int) && b < tree@.len(),
            None => right_curly_of(tree@, group as int) is None,
        },
{
    tree.first_child_of_kind(group, LatexKind::RCurly.to_raw(), true)
}

/// The range of a node without the blanks and comments that trail it.
pub fn small_range(tree: &SyntaxTree, node: usize) -> (range: TextRange)
    requires
        tree.wf(),
        node < tree@.len(),
    ensures
        range == small_range_of(tree@, node as int),
        range.wf(),
{
    let ghost t = tree@;
    let start = tree.range(node).start;
    let end = tree.end_index(node);
    proof {
        lemma_wf_element(t, node as int);
    }
    let mut n = end;
    while n > node + 1
        invariant
            tree.wf(),
            t == tree@,
            node < t.len(),
            node < n <= end <= t.len(),
            end == t[node as int].end_index,
            start == t[node as int].range.start,
            last_content_token_below(t, node as int, end as int) == last_content_token_below(
                t,
                node as int,
                n as int,
            ),
        decreases n,
    {
        if is_content_token(tree, n - 1) {
            proof {
                lemma_wf_starts(t, node as int, n - 1);
                lemma_wf_element(t, n - 1);
            }
            return TextRange::new(start, tree.range(n - 1).end);
        }
        n = n - 1;
    }
    TextRange::empty(start)
}

/// The token that names a command: the first element of its subtree, when
/// that is a token of a command-name kind.
pub open spec fn command_name_of(t: Seq<ElementData>, command: int) -> Option<int> {
    if command + 1 < t[command].end_index && is_command_name_at(t, command + 1) {
        Some(command + 1)
    } else {
        None
    }
}

/// The token that names the command node `command`, if it has one.
pub fn command_name(tree: &SyntaxTree, command: usize) -> (name: Option<usize>)
    requires
        tree.wf(),
        command < tree@.len(),
    ensures
        match name {
            Some(n) => command_name_of(tree@, command as int) == Some(n as int) && n < tree@.len(),
            None => command_name_of(tree@, command as int) is None,
        },
{
    proof {
        lemma_wf_element(tree@, command as int);
    }
    let end = tree.end_index(command);
    if command + 1 < end && is_command_name_token(tree, command + 1) {
        Some(command + 1)
    } else {
        None
    }
}

/// The texts of the content tokens among the first `n` entries of `list`,
/// each followed by a blank.
pub open spec fn words_buffer(t: Seq<ElementData>, list: Seq<int>, n: int) -> Seq<char>
    decreases n,
{
    if n <= 0 {
        Seq::empty()
    } else if is_content_token_at(t, list[n - 1]) {
        words_buffer(t, list, n - 1) + t[list[n - 1]].text + seq![' ']
    } else {
        words_buffer(t, list, n - 1)
    }
}

/// The text of a key: its words, joined by single blanks.
pub open spec fn key_text_of(t: Seq<ElementData>, key: int) -> Seq<char> {
    let buffer = words_buffer(t, children(t, key), children(t, key).len() as int);
    if buffer.len() > 0 {
        buffer.drop_last()
    } else {
        buffer
    }
}

impl Key {
    /// The words of the key, joined by single blanks.
    pub fn to_string(&self, tree: &SyntaxTree) -> (text: String)
        requires
            tree.wf(),
            self.node() < tree@.len(),
        ensures
            text@ == key_text_of(tree@, self.node()),
    {
        let list = tree.children(self.node);
        let ghost t = tree@;
        let ghost all = children(t, self.node as int);
        let mut buffer = String::new();
        let mut seen = false;
        let mut k: usize = 0;
        while k < list.len()
            invariant
                t == tree@,
                all == children(t, self.node as int),
                list@.len() == all.len(),
                forall|j: int| 0 <= j < list@.len() ==> list@[j] == all[j],
                forall|j: int| 0 <= j < list@.len() ==> #[trigger] list@[j] < t.len(),
                0 <= k <= list@.len(),
                !seen ==> buffer@.len() == 0 && words_buffer(t, all, k as int).len() == 0,
                seen ==> buffer@ + seq![' '] == words_buffer(t, all, k as int),
            decreases list@.len() - k,
        {
            let child = list[k];
            if is_content_token(tree, child) {
                let ghost before = buffer@;
                if seen {
                    proof {
                        reveal_strlit(" ");
                        assert(" "@ =~= seq![' ']);
                    }
                    buffer.append(" ");
                }
                buffer.append(tree.text(child));
                proof {
                    let word = t[child as int].text;
                    if seen {
                        assert(buffer@ + seq![' '] =~= (before + seq![' ']) + word + seq![' ']);
                    } else {
                        assert(buffer@ + seq![' '] =~= Seq::<char>::empty() + word + seq![' ']);
                        assert(words_buffer(t, all, k as int) =~= Seq::<char>::empty());
                    }
                }
                seen = true;
            }
            k = k + 1;
        }
        proof {
            if seen {
                assert((buffer@ + seq![' ']).drop_last() =~= buffer@);
            } else {
                assert(buffer@ =~= words_buffer(t, all, all.len() as int));
            }
        }
        buffer
    }
}

impl CurlyGroupWord {
    /// The key inside the group: its first child that is a key.
    pub open spec fn key_of(t: Seq<ElementData>, group: int) -> Option<int> {
        first_child_of_kind(t, group, LatexKind::Key.raw(), false)
    }

    /// The key inside the group, if it holds one.
    pub fn key(&self, tree: &SyntaxTree) -> (key: Option<Key>)
        requires
            tree.wf(),
            self.node() < tree@.len(),
        ensures
            match key {
                Some(k) => Self::key_of(tree@, self.node()) == Some(k.node()) && k.node()
                    < tree@.len(),
                None => Self::key_of(tree@, self.node()) is None,
            },
    {
        match tree.first_child_of_kind(self.node, LatexKind::Key.to_raw(), false) {
            Some(node) => Some(Key { node }),
            None => None,
        }
    }
}

impl AcronymDefinition {
    /// The group that names the acronym: the first child that is a group
    /// of one key.
    pub open spec fn name_of(t: Seq<ElementData>, definition: int) -> Option<int> {
        first_child_of_kind(t, definition, LatexKind::CurlyGroupWord.raw(), false)
    }

    /// The group that names the acronym, if the definition has one.
    pub fn name(&self, tree: &SyntaxTree) -> (name: Option<CurlyGroupWord>)
        requires
            tree.wf(),
            self.node() < tree@.len(),
        ensures
            match name {
                Some(g) => Self::name_of(tree@, self.node()) == Some(g.node()) && g.node()
                    < tree@.len(),
                None => Self::name_of(tree@, self.node()) is None,
            },
    {
        match tree.first_child_of_kind(self.node, LatexKind::CurlyGroupWord.to_raw(), false) {
            Some(node) => Some(CurlyGroupWord { node }),
            None => None,
        }
    }
}

impl GenericCommand {
    /// The token that names the command, if it has one.
    pub fn name(&self, tree: &SyntaxTree) -> (name: Option<usize>)
        requires
            tree.wf(),
            self.node() < tree@.len(),
        ensures
            match name {
                Some(n) => command_name_of(tree@, self.node()) == Some(n as int) && n
                    < tree@.len(),
                None => command_name_of(tree@, self.node()) is None,
            },
    {
        command_name(tree, self.node)
    }
}

/// A group that is delimited by braces.
pub trait HasCurly: CstNode {

}

impl HasCurly for CurlyGroup {

}

impl HasCurly for CurlyGroupWord {

}

/// A group follows `group` under the same parent and starts at or before
/// `offset`.
pub open spec fn next_group_reached(t: Seq<ElementData>, group: int, offset: u32) -> bool {
    let next = t[group].end_index;
    &&& next < t.len()
    &&& t[next].parent == t[group].parent
    &&& is_group_at(t, next)
    &&& t[next].range.start <= offset
}

/// Whether `offset` lies inside the braces of `group`: from the position of
/// the opening brace up to, but not beyond, the last token with content,
/// which is the closing brace of a closed group. In a group that was never
/// closed the end of the group counts as inside as well, unless a group
/// that follows it starts there.
pub open spec fn inside_curly(t: Seq<ElementData>, group: int, offset: u32) -> bool {
    small_range_of(t, group).spec_contains(offset) || (right_curly_of(t, group) is None
        && t[group].range.spec_contains_inclusive(offset) && !next_group_reached(t, group, offset))
}

/// The range of a node without what trails it starts where the node starts
/// and ends no later than the node does.
pub proof fn lemma_small_range(t: Seq<ElementData>, node: int)
    requires
        well_formed(t),
        0 <= node < t.len(),
    ensures
        small_range_of(t, node).start == t[node].range.start,
        small_range_of(t, node).start <= small_range_of(t, node).end <= t[node].range.end,
{
    lemma_wf_element(t, node);
    lemma_last_content_token(t, node, t[node].end_index);
    match last_content_token_below(t, node, t[node].end_index) {
        Some(last) => {
            assert(encloses(t, node, last));
            lemma_wf_within(t, node, last);
            lemma_wf_starts(t, node, last);
            lemma_wf_element(t, last);
        },
        None => {},
    }
}

/// The last token with content below `n` lies after `node` and before `n`.
proof fn lemma_last_content_token(t: Seq<ElementData>, node: int, n: int)
    ensures
        last_content_token_below(t, node, n) matches Some(last) ==> node < last < n
            && is_content_token_at(t, last),
    decreases n,
{
    if n > node + 1 && n > 0 && !is_content_token_at(t, n - 1) {
        lemma_last_content_token(t, node, n - 1);
    }
}

/// An offset at or after the end of a closed group is not inside its
/// braces, and neither is one at or after the start of a group that
/// follows.
pub proof fn lemma_outside_curly(t: Seq<ElementData>, group: int, offset: u32)
    requires
        well_formed(t),
        0 <= group < t.len(),
        offset >= t[group].range.end,
        right_curly_of(t, group) is Some || next_group_reached(t, group, offset),
    ensures
        !inside_curly(t, group, offset),
{
    lemma_small_range(t, group);
}

/// Whether a group follows `group` under the same parent and starts at or
/// before `offset`.
pub fn is_next_group_reached(tree: &SyntaxTree, group: usize, offset: u32) -> (reached: bool)
    requires
        tree.wf(),
        group < tree@.len(),
    ensures
        reached == next_group_reached(tree@, group as int, offset),
{
    proof {
        lemma_wf_element(tree@, group as int);
    }
    let next = tree.end_index(group);
    if next >= tree.len() || !is_group_node(tree, next) || tree.range(next).start > offset {
        return false;
    }
    match (tree.parent(next), tree.parent(group)) {
        (Some(a), Some(b)) => a == b,
        (None, None) => true,
        _ => false,
    }
}

/// A text without its first character, which for a command name is the
/// escape character.
pub open spec fn without_escape(text: Seq<char>) -> Seq<char> {
    if text.len() > 0 {
        text.subrange(1, text.len() as int)
    } else {
        text
    }
}

/// The text of a token without its first character.
pub fn token_text_without_escape(tree: &SyntaxTree, token: usize) -> (name: &str)
    requires
        token < tree@.len(),
    ensures
        name@ == without_escape(tree@[token as int].text),
{
    let text = tree.text(token);
    let len = text.unicode_len();
    if len > 0 {
        text.substring_char(1, len)
    } else {
        text
    }
}

/// A text without its first character.
pub fn text_without_escape<'a>(text: &'a str) -> (rest: &'a str)
    ensures
        rest@ == without_escape(text@),
{
    let len = text.unicode_len();
    if len > 0 {
        text.substring_char(1, len)
    } else {
        text
    }
}

/// Token `i` names a command and `offset` lies inside or right after it.
pub open spec fn is_name_around(t: Seq<ElementData>, i: int, offset: u32) -> bool {
    is_command_name_at(t, i) && t[i].range.start < offset <= t[i].range.end
}

/// The first command name at or after index `k` that `offset` lies inside
/// or right after.
pub open spec fn name_around_from(t: Seq<ElementData>, offset: u32, k: int) -> Option<int>
    decreases t.len() - k,
{
    if k < 0 || k >= t.len() {
        None
    } else if is_name_around(t, k, offset) {
        Some(k)
    } else {
        name_around_from(t, offset, k + 1)
    }
}

/// The first command name that `offset` lies inside or right after.
pub fn find_name_around(tree: &SyntaxTree, offset: u32) -> (name: Option<usize>)
    ensures
        match name {
            Some(i) => name_around_from(tree@, offset, 0) == Some(i as int) && i < tree@.len()
                && is_name_around(tree@, i as int, offset),
            None => name_around_from(tree@, offset, 0) is None,
        },
{
    let mut k: usize = 0;
    while k < tree.len()
        invariant
            0 <= k <= tree@.len(),
            name_around_from(tree@, offset, 0) == name_around_from(tree@, offset, k as int),
        decreases tree@.len() - k,
    {
        let range = tree.range(k);
        if is_command_name_token(tree, k) && range.start < offset && offset <= range.end {
            return Some(k);
        }
        k = k + 1;
    }
    None
}

/// The range of token `i` without its first byte, the escape character.
pub open spec fn name_range(t: Seq<ElementData>, i: int) -> TextRange {
    TextRange { start: (t[i].range.start + 1) as u32, end: t[i].range.end }
}

} // verus!
