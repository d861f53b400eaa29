//! The text that the user is typing at the cursor, read off the syntax tree.

use crate::features::cursor::is_latex_token;
use crate::line_index::position_to_offset;
use crate::syntax::bibtex::{Command, Comment, Entry, Field, Preamble, StringDefinition, Word};
use crate::syntax::cst::{
    children, deepest_node_at, lemma_wf_root, CstNode, ElementData, SyntaxTree,
};
use crate::syntax::latex::{
    command_name, command_name_of, find_name_around, is_command_at, is_command_node, is_text_at,
    is_text_node, name_around_from, text_without_escape, token_text_without_escape,
    without_escape, LatexKind,
};
use crate::syntax::text::Position;
use crate::workspace::{Document, DocumentData};
use vstd::prelude::*;

verus! {

/// The last word among the first `n` entries of `list` that starts before
/// `offset`.
pub open spec fn last_word_before(t: Seq<ElementData>, list: Seq<int>, offset: u32, n: int)
    -> Option<int>
    decreases n,
{
    if n <= 0 {
        None
    } else if is_latex_token(t, list[n - 1], LatexKind::Word) && t[list[n - 1]].range.start
        < offset {
        Some(list[n - 1])
    } else {
        last_word_before(t, list, offset, n - 1)
    }
}

/// The text of an optional token, and the empty text where there is none.
pub open spec fn text_or_empty(t: Seq<ElementData>, token: Option<int>) -> Seq<char> {
    match token {
        Some(i) => t[i].text,
        None => Seq::empty(),
    }
}

/// The text of an optional token if its range holds `offset`, and the
/// empty text otherwise.
pub open spec fn text_if_at(t: Seq<ElementData>, token: Option<int>, offset: u32) -> Seq<char> {
    match token {
        Some(i) => if t[i].range.spec_contains_inclusive(offset) {
            t[i].text
        } else {
            Seq::empty()
        },
        None => Seq::empty(),
    }
}

/// The text that the user is typing at `offset` in a LaTeX tree.
///
/// A command name that the offset lies inside or right after gives its
/// text without the escape character, wherever it stands. Otherwise the
/// most deeply nested node around the offset decides: a command gives its
/// name without the escape character, a node of words its last word that
/// starts before the offset, and any other node the empty text. There is
/// no query where the offset lies outside the tree, nor in a node of words
/// without a word before the offset.
pub open spec fn latex_query(t: Seq<ElementData>, offset: u32) -> Option<Seq<char>> {
    match name_around_from(t, offset, 0) {
        Some(name) => Some(without_escape(t[name].text)),
        None => if !t[0].range.spec_contains_inclusive(offset) {
            None
        } else {
            let node = deepest_node_at(t, 0, offset);
            if is_command_at(t, node) {
                Some(without_escape(text_or_empty(t, command_name_of(t, node))))
            } else if is_text_at(t, node) {
                match last_word_before(
                    t,
                    children(t, node),
                    offset,
                    children(t, node).len() as int,
                ) {
                    Some(word) => Some(t[word].text),
                    None => None,
                }
            } else {
                Some(Seq::empty())
            }
        },
    }
}

/// The text that the user is typing at `offset` in a BibTeX tree.
///
/// The most deeply nested node around the offset decides. A record gives
/// its keyword without the marker, and a field its name, if the offset
/// lies on that token and the empty text if not. A comment and a word give
/// their text, a command its name without the escape character, and any
/// other node the empty text. There is no query where the offset lies
/// outside the tree.
pub open spec fn bibtex_query(t: Seq<ElementData>, offset: u32) -> Option<Seq<char>> {
    if !t[0].range.spec_contains_inclusive(offset) {
        None
    } else {
        let node = deepest_node_at(t, 0, offset);
        let kind = t[node].kind;
        Some(
            if Preamble::can_cast(kind) {
                without_escape(text_if_at(t, Preamble::ty_of(t, node), offset))
            } else if StringDefinition::can_cast(kind) {
                without_escape(text_if_at(t, StringDefinition::ty_of(t, node), offset))
            } else if Entry::can_cast(kind) {
                without_escape(text_if_at(t, Entry::ty_of(t, node), offset))
            } else if Field::can_cast(kind) {
                text_if_at(t, Field::name_of(t, node), offset)
            } else if Comment::can_cast(kind) {
                text_or_empty(t, Comment::token_of(t, node))
            } else if Word::can_cast(kind) {
                text_or_empty(t, Word::token_of(t, node))
            } else if Command::can_cast(kind) {
                without_escape(text_or_empty(t, Command::token_of(t, node)))
            } else {
                Seq::empty()
            },
        )
    }
}

/// The text that the user is typing at a position of a document; none
/// where the position names no boundary of the text.
pub open spec fn document_query(document: Document, position: Position) -> Option<Seq<char>> {
    match position_to_offset(document.source(), position) {
        Some(offset) => if document.is_latex() {
            latex_query(document.tree(), offset)
        } else {
            bibtex_query(document.tree(), offset)
        },
        None => None,
    }
}

/// The last word among the children of `node` that starts before `offset`.
pub fn find_last_word_before(tree: &SyntaxTree, node: usize, offset: u32) -> (word: Option<usize>)
    requires
        tree.wf(),
        node < tree@.len(),
    ensures
        match word {
            Some(i) => last_word_before(
                tree@,
                children(tree@, node as int),
                offset,
                children(tree@, node as int).len() as int,
            ) == Some(i as int) && i < tree@.len(),
            None => last_word_before(
                tree@,
                children(tree@, node as int),
                offset,
                children(tree@, node as int).len() as int,
            ) is None,
        },
{
    let list = tree.children(node);
    let ghost t = tree@;
    let ghost all = children(t, node as int);
    let word = LatexKind::Word.to_raw();
    let mut n: usize = list.len();
    while n > 0
        invariant
            t == tree@,
            all == children(t, node as int),
            word == LatexKind::Word.raw(),
            list@.len() == all.len(),
            forall|j: int| 0 <= j < list@.len() ==> list@[j] == all[j],
            forall|j: int| 0 <= j < list@.len() ==> #[trigger] list@[j] < t.len(),
            0 <= n <= list@.len(),
            last_word_before(t, all, offset, all.len() as int) == last_word_before(
                t,
                all,
                offset,
                n as int,
            ),
        decreases n,
    {
        let child = list[n - 1];
        if tree.is_token(child) && tree.kind(child) == word && tree.range(child).start < offset {
            return Some(child);
        }
        n = n - 1;
    }
    None
}

/// The text of an optional token, and the empty text where there is none.
pub fn token_text_or_empty<'a>(tree: &'a SyntaxTree, token: Option<usize>) -> (text: &'a str)
    requires
        token matches Some(i) ==> i < tree@.len(),
    ensures
        text@ == text_or_empty(
            tree@,
            match token {
                Some(i) => Some(i as int),
                None => None,
            },
        ),
{
    match token {
        Some(token) => tree.text(token),
        None => {
            proof {
                reveal_strlit("");
            }
            ""
        },
    }
}

/// The text of an optional token if its range holds `offset`, and the
/// empty text otherwise.
pub fn token_text_if_at<'a>(tree: &'a SyntaxTree, token: Option<usize>, offset: u32) -> (text:
    &'a str)
    requires
        token matches Some(i) ==> i < tree@.len(),
    ensures
        text@ == text_if_at(
            tree@,
            match token {
                Some(i) => Some(i as int),
                None => None,
            },
            offset,
        ),
{
    proof {
        reveal_strlit("");
    }
    match token {
        Some(token) => if tree.range(token).contains_inclusive(offset) {
            tree.text(token)
        } else {
            ""
        },
        None => "",
    }
}

/// The text that the user is typing at `offset` in a LaTeX tree.
pub fn get_latex_query<'a>(tree: &'a SyntaxTree, offset: u32) -> (query: Option<&'a str>)
    requires
        tree.wf(),
    ensures
        match query {
            Some(q) => latex_query(tree@, offset) == Some(q@),
            None => latex_query(tree@, offset) is None,
        },
{
    proof {
        lemma_wf_root(tree@);
        reveal_strlit("");
    }
    if let Some(name) = find_name_around(tree, offset) {
        return Some(token_text_without_escape(tree, name));
    }
    if !tree.range(0).contains_inclusive(offset) {
        return None;
    }
    let node = tree.deepest_node_at(offset);
    if is_command_node(tree, node) {
        let name = command_name(tree, node);
        Some(text_without_escape(token_text_or_empty(tree, name)))
    } else if is_text_node(tree, node) {
        match find_last_word_before(tree, node, offset) {
            Some(word) => Some(tree.text(word)),
            None => None,
        }
    } else {
        Some("")
    }
}

/// The text that the user is typing at `offset` in a BibTeX tree.
pub fn get_bibtex_query<'a>(tree: &'a SyntaxTree, offset: u32) -> (query: Option<&'a str>)
    requires
        tree.wf(),
    ensures
        match query {
            Some(q) => bibtex_query(tree@, offset) == Some(q@),
            None => bibtex_query(tree@, offset) is None,
        },
{
    proof {
        lemma_wf_root(tree@);
        reveal_strlit("");
    }
    if !tree.range(0).contains_inclusive(offset) {
        return None;
    }
    let node = tree.deepest_node_at(offset);
    if let Some(record) = Preamble::cast(tree, node) {
        return Some(text_without_escape(token_text_if_at(tree, record.ty(tree), offset)));
    }
    if let Some(record) = StringDefinition::cast(tree, node) {
        return Some(text_without_escape(token_text_if_at(tree, record.ty(tree), offset)));
    }
    if let Some(entry) = Entry::cast(tree, node) {
        return Some(text_without_escape(token_text_if_at(tree, entry.ty(tree), offset)));
    }
    if let Some(field) = Field::cast(tree, node) {
        return Some(token_text_if_at(tree, field.name(tree), offset));
    }
    if let Some(comment) = Comment::cast(tree, node) {
        return Some(token_text_or_empty(tree, comment.token(tree)));
    }
    if let Some(word) = Word::cast(tree, node) {
        return Some(token_text_or_empty(tree, word.token(tree)));
    }
    if let Some(command) = Command::cast(tree, node) {
        return Some(text_without_escape(token_text_or_empty(tree, command.token(tree))));
    }
    Some("")
}

/// The text that the user is typing at a position of a document.
pub fn get_document_query<'a>(document: &'a Document, position: Position) -> (query: Option<
    &'a str,
>)
    requires
        document.wf(),
    ensures
        match query {
            Some(q) => document_query(*document, position) == Some(q@),
            None => document_query(*document, position) is None,
        },
{
    let offset = match document.line_index().position_to_offset(position) {
        Some(offset) => offset,
        None => {
            return None;
        },
    };
    proof {
        document.lemma_wf();
    }
    match document.data() {
        DocumentData::Latex(tree) => get_latex_query(tree, offset),
        DocumentData::Bibtex(tree) => get_bibtex_query(tree, offset),
    }
}

} // verus!
