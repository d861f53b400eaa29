//! Renaming a command in every document of the request.

use crate::cancel::is_canceled;
use crate::edit::{TextChange, TextEdit, WorkspaceEdit};
use crate::features::cursor::{
    command_range_of, Cursor, CursorContext, HasPosition, RenameParams,
};
use crate::line_index::range_to_positions;
use crate::strings::str_eq;
use crate::syntax::cst::{lemma_wf_element, ElementData};
use crate::syntax::latex::{is_command_name_at, is_command_name_token, name_range};
use crate::syntax::offset::{utf8_len, TextRange};
use crate::syntax::text::Range;
use crate::workspace::Document;
use cancellation::CancellationToken;
use vstd::prelude::*;

verus! {

/// The range of the command name under the cursor, in positions of the
/// main document.
pub open spec fn rename_range<P>(context: CursorContext<P>) -> Option<Range> {
    match command_range_of(context.tree(), context.cursor(), context.offset()) {
        Some(range) => range_to_positions(context.request().main_of().source(), range),
        None => None,
    }
}

/// Element `i` is a command name with the text `name`.
pub open spec fn is_rename_match(t: Seq<ElementData>, i: int, name: Seq<char>) -> bool {
    is_command_name_at(t, i) && t[i].text == name
}

/// The edits that rename the command `name` among the first `n` elements
/// of a tree over the text `text`: one for each command name with that
/// text, in document order, replacing the name without its escape
/// character. There are none at all if one of the ranges cannot be
/// expressed in positions of the text.
pub open spec fn tree_edits_below(
    text: Seq<char>,
    t: Seq<ElementData>,
    name: Seq<char>,
    new_name: Seq<char>,
    n: int,
) -> Option<Seq<TextChange>>
    decreases n,
{
    if n <= 0 {
        Some(Seq::empty())
    } else {
        match tree_edits_below(text, t, name, new_name, n - 1) {
            Some(edits) => if is_rename_match(t, n - 1, name) {
                match range_to_positions(text, name_range(t, n - 1)) {
                    Some(range) => Some(edits.push(TextChange { range, new_text: new_name })),
                    None => None,
                }
            } else {
                Some(edits)
            },
            None => None,
        }
    }
}

/// The edits that rename the command `name` in a document; a BibTeX
/// document has none.
pub open spec fn document_edits(document: Document, name: Seq<char>, new_name: Seq<char>) -> Option<
    Seq<TextChange>,
> {
    if document.is_latex() {
        tree_edits_below(
            document.source(),
            document.tree(),
            name,
            new_name,
            document.tree().len() as int,
        )
    } else {
        Some(Seq::empty())
    }
}

/// The edits that rename the command `name` in the first `n` documents:
/// each document with at least one edit is mapped to its edits. There is
/// no mapping at all if the edits of one document cannot be expressed.
pub open spec fn subset_changes(
    documents: Seq<Document>,
    name: Seq<char>,
    new_name: Seq<char>,
    n: int,
) -> Option<Map<Seq<char>, Seq<TextChange>>>
    decreases n,
{
    if n <= 0 {
        Some(Map::empty())
    } else {
        match (
            subset_changes(documents, name, new_name, n - 1),
            document_edits(documents[n - 1], name, new_name),
        ) {
            (Some(changes), Some(edits)) => if edits.len() > 0 {
                Some(changes.insert(documents[n - 1].uri_of(), edits))
            } else {
                Some(changes)
            },
            _ => None,
        }
    }
}

/// What renaming the command under the cursor comes to: nothing unless the
/// cursor lies on a command name of a LaTeX document, and else the edits of
/// every document of the request that uses a command of that name.
pub open spec fn rename_changes(context: CursorContext<RenameParams>) -> Option<
    Map<Seq<char>, Seq<TextChange>>,
> {
    match (rename_range(context), context.cursor()) {
        (Some(_), Cursor::Latex(token)) => subset_changes(
            context.request().subset.documents@,
            context.tree()[token as int].text,
            context.request().params.new_name@,
            context.request().subset.documents@.len() as int,
        ),
        _ => None,
    }
}

/// Every command name with the text `name` has its edit in the list: the
/// edit replaces the range of the token without its first byte, in
/// positions of the text, by the new name.
pub proof fn lemma_edits_cover_matches(
    text: Seq<char>,
    t: Seq<ElementData>,
    name: Seq<char>,
    new_name: Seq<char>,
    n: int,
    i: int,
)
    requires
        tree_edits_below(text, t, name, new_name, n) is Some,
        0 <= i < n,
        is_rename_match(t, i, name),
    ensures
        range_to_positions(text, name_range(t, i)) is Some,
        tree_edits_below(text, t, name, new_name, n)->0.contains(
            TextChange {
                range: range_to_positions(text, name_range(t, i))->0,
                new_text: new_name,
            },
        ),
    decreases n,
{
    let edits = tree_edits_below(text, t, name, new_name, n)->0;
    let before = tree_edits_below(text, t, name, new_name, n - 1)->0;
    if i == n - 1 {
        assert(edits[edits.len() - 1] == TextChange {
            range: range_to_positions(text, name_range(t, i))->0,
            new_text: new_name,
        });
    } else {
        lemma_edits_cover_matches(text, t, name, new_name, n - 1, i);
        let edit = TextChange {
            range: range_to_positions(text, name_range(t, i))->0,
            new_text: new_name,
        };
        let k = choose|k: int| 0 <= k < before.len() && before[k] == edit;
        assert(edits[k] == edit);
    }
}

/// Every edit of the list replaces the range of some command name with the
/// text `name`, without its first byte, by the new name.
pub proof fn lemma_edits_come_from_matches(
    text: Seq<char>,
    t: Seq<ElementData>,
    name: Seq<char>,
    new_name: Seq<char>,
    n: int,
    k: int,
)
    requires
        tree_edits_below(text, t, name, new_name, n) is Some,
        0 <= k < tree_edits_below(text, t, name, new_name, n)->0.len(),
    ensures
        tree_edits_below(text, t, name, new_name, n)->0[k].new_text == new_name,
        exists|i: int|
            0 <= i < n && #[trigger] is_rename_match(t, i, name) && range_to_positions(
                text,
                name_range(t, i),
            ) == Some(tree_edits_below(text, t, name, new_name, n)->0[k].range),
    decreases n,
{
    let edits = tree_edits_below(text, t, name, new_name, n)->0;
    let before = tree_edits_below(text, t, name, new_name, n - 1)->0;
    if k < before.len() {
        lemma_edits_come_from_matches(text, t, name, new_name, n - 1, k);
        let i = choose|i: int|
            0 <= i < n - 1 && #[trigger] is_rename_match(t, i, name) && range_to_positions(
                text,
                name_range(t, i),
            ) == Some(before[k].range);
        assert(is_rename_match(t, i, name));
    } else {
        assert(is_rename_match(t, n - 1, name));
    }
}

/// A document with a use of the command is mapped to its edits, provided
/// that no later document of the request goes by the same name.
pub proof fn lemma_changes_cover_documents(
    documents: Seq<Document>,
    name: Seq<char>,
    new_name: Seq<char>,
    n: int,
    k: int,
)
    requires
        subset_changes(documents, name, new_name, n) is Some,
        0 <= k < n,
        forall|j: int| k < j < n ==> (#[trigger] documents[j]).uri_of() != documents[k].uri_of(),
    ensures
        document_edits(documents[k], name, new_name) is Some,
        document_edits(documents[k], name, new_name)->0.len() > 0 ==> {
            let changes = subset_changes(documents, name, new_name, n)->0;
            &&& changes.contains_key(documents[k].uri_of())
            &&& changes[documents[k].uri_of()] == document_edits(documents[k], name, new_name)->0
        },
    decreases n,
{
    if k < n - 1 {
        assert(documents[n - 1].uri_of() != documents[k].uri_of());
        lemma_changes_cover_documents(documents, name, new_name, n - 1, k);
    }
}

/// Only documents with a use of the command are mapped, each to its edits.
pub proof fn lemma_changes_come_from_documents(
    documents: Seq<Document>,
    name: Seq<char>,
    new_name: Seq<char>,
    n: int,
    uri: Seq<char>,
)
    requires
        subset_changes(documents, name, new_name, n) is Some,
        subset_changes(documents, name, new_name, n)->0.contains_key(uri),
    ensures
        exists|k: int|
            0 <= k < n && (#[trigger] documents[k]).uri_of() == uri && document_edits(
                documents[k],
                name,
                new_name,
            ) is Some && document_edits(documents[k], name, new_name)->0.len() > 0
                && subset_changes(documents, name, new_name, n)->0[uri] == document_edits(
                documents[k],
                name,
                new_name,
            )->0,
    decreases n,
{
    if n > 0 {
        let edits = document_edits(documents[n - 1], name, new_name)->0;
        if edits.len() > 0 && documents[n - 1].uri_of() == uri {
            assert(documents[n - 1].uri_of() == uri);
        } else {
            lemma_changes_come_from_documents(documents, name, new_name, n - 1, uri);
            let k = choose|k: int|
                0 <= k < n - 1 && (#[trigger] documents[k]).uri_of() == uri && document_edits(
                    documents[k],
                    name,
                    new_name,
                ) is Some && document_edits(documents[k], name, new_name)->0.len() > 0
                    && subset_changes(documents, name, new_name, n - 1)->0[uri] == document_edits(
                    documents[k],
                    name,
                    new_name,
                )->0;
            assert(documents[k].uri_of() == uri);
        }
    }
}

/// The range that a rename at the cursor would replace: the command name
/// under the cursor without its escape character. `None` says that nothing
/// can be renamed here. The cancellation token is not asked.
pub fn prepare_command_rename<P: HasPosition>(
    context: &CursorContext<P>,
    _cancellation_token: &CancellationToken,
) -> (range: Option<Range>)
    requires
        context.wf(),
    ensures
        range == rename_range(*context),
{
    prepare_command_rename_at(context)
}

/// The range that a rename at the cursor would replace.
fn prepare_command_rename_at<P>(context: &CursorContext<P>) -> (range: Option<Range>)
    requires
        context.wf(),
    ensures
        range == rename_range(*context),
{
    let tree = context.main_tree();
    proof {
        context.lemma_cursor();
    }
    let range = match context.cursor().command_range(tree, context.offset()) {
        Some(range) => range,
        None => {
            return None;
        },
    };
    context.request().main_document().line_index().range_to_positions(range)
}

/// The edits that rename the command `name` in one document.
pub fn collect_document_edits(document: &Document, name: &str, new_name: &str) -> (edits: Option<
    Vec<TextEdit>,
>)
    requires
        document.wf(),
        utf8_len(name@) > 0,
    ensures
        match edits {
            Some(list) => document_edits(*document, name@, new_name@) == Some(list.deep_view()),
            None => document_edits(*document, name@, new_name@) is None,
        },
{
    let mut edits: Vec<TextEdit> = Vec::new();
    let tree = match document.data().as_latex() {
        Some(tree) => tree,
        None => {
            assert(edits.deep_view() =~= Seq::<TextChange>::empty());
            return Some(edits);
        },
    };
    let ghost t = tree@;
    let ghost text = document.source();
    proof {
        document.lemma_wf();
    }
    let index = document.line_index();
    let mut k: usize = 0;
    assert(edits.deep_view() =~= Seq::<TextChange>::empty());
    while k < tree.len()
        invariant
            tree.wf(),
            index.wf(),
            index.text() == text,
            text == document.source(),
            t == tree@,
            t == document.tree(),
            document.is_latex(),
            utf8_len(name@) > 0,
            0 <= k <= t.len(),
            tree_edits_below(text, t, name@, new_name@, k as int) == Some(edits.deep_view()),
        decreases t.len() - k,
    {
        if is_command_name_token(tree, k) && str_eq(tree.text(k), name) {
            proof {
                lemma_wf_element(t, k as int);
            }
            let range = tree.range(k);
            let shifted = TextRange::new(range.start + 1, range.end);
            match index.range_to_positions(shifted) {
                Some(positions) => {
                    let ghost before = edits.deep_view();
                    let edit = TextEdit::new(positions, new_name.to_owned());
                    edits.push(edit);
                    assert(edits.deep_view() =~= before.push(edit.deep_view()));
                },
                None => {
                    proof {
                        lemma_edits_stay_none(
                            text,
                            t,
                            name@,
                            new_name@,
                            k as int + 1,
                            t.len() as int,
                        );
                    }
                    return None;
                },
            }
        }
        k = k + 1;
    }
    Some(edits)
}

/// Once the edits of a tree cannot be expressed they cannot be expressed
/// for any longer part of it.
proof fn lemma_edits_stay_none(
    text: Seq<char>,
    t: Seq<ElementData>,
    name: Seq<char>,
    new_name: Seq<char>,
    k: int,
    n: int,
)
    requires
        0 <= k <= n,
        tree_edits_below(text, t, name, new_name, k) is None,
    ensures
        tree_edits_below(text, t, name, new_name, n) is None,
    decreases n - k,
{
    if k < n {
        lemma_edits_stay_none(text, t, name, new_name, k, n - 1);
    }
}

/// Adds the edits of one document to the edit set, once the cancellation
/// token has been asked. A canceled request, and edits that cannot be
/// expressed, leave the set as it is and give `None`.
pub fn add_document_edits(
    changes: &mut WorkspaceEdit,
    document: &Document,
    name: &str,
    new_name: &str,
    canceled: bool,
) -> (done: Option<()>)
    requires
        document.wf(),
        utf8_len(name@) > 0,
    ensures
        done is Some <==> !canceled && document_edits(*document, name@, new_name@) is Some,
        done is None ==> final(changes)@ == old(changes)@,
        done is Some ==> final(changes)@ == ({
            let edits = document_edits(*document, name@, new_name@)->0;
            if edits.len() > 0 {
                old(changes)@.insert(document.uri_of(), edits)
            } else {
                old(changes)@
            }
        }),
{
    if canceled {
        return None;
    }
    let edits = match collect_document_edits(document, name, new_name) {
        Some(edits) => edits,
        None => {
            return None;
        },
    };
    if edits.len() > 0 {
        changes.insert(document.uri().to_owned(), edits);
    }
    Some(())
}

/// Renames the command under the cursor in every document of the request,
/// asking the cancellation token, if there is one, before each document.
fn rename_in_documents(
    context: &CursorContext<RenameParams>,
    cancellation_token: Option<&CancellationToken>,
) -> (edit: Option<WorkspaceEdit>)
    requires
        context.wf(),
    ensures
        edit matches Some(e) ==> rename_changes(*context) == Some(e@),
        cancellation_token is None && edit is None ==> rename_changes(*context) is None,
{
    if prepare_command_rename_at(context).is_none() {
        return None;
    }
    let token = match context.cursor().as_latex() {
        Some(token) => token,
        None => {
            return None;
        },
    };
    let tree = context.main_tree();
    proof {
        context.lemma_cursor();
        lemma_wf_element(tree@, token as int);
    }
    let name = tree.text(token);
    let new_name = context.request().params.new_name.as_str();
    let documents = &context.request().subset.documents;
    let mut changes = WorkspaceEdit::new();
    let mut d: usize = 0;
    while d < documents.len()
        invariant
            context.wf(),
            documents == &context.request().subset.documents,
            utf8_len(name@) > 0,
            0 <= d <= documents@.len(),
            rename_changes(*context) == subset_changes(
                documents@,
                name@,
                new_name@,
                documents@.len() as int,
            ),
            subset_changes(documents@, name@, new_name@, d as int) == Some(changes@),
        decreases documents@.len() - d,
    {
        let canceled = match cancellation_token {
            Some(cancellation_token) => is_canceled(cancellation_token),
            None => false,
        };
        if add_document_edits(&mut changes, &documents[d], name, new_name, canceled).is_none() {
            proof {
                if !canceled {
                    assert(document_edits(documents@[d as int], name@, new_name@) is None);
                    assert(subset_changes(documents@, name@, new_name@, d as int + 1) is None);
                    lemma_changes_stay_none(
                        documents@,
                        name@,
                        new_name@,
                        d as int + 1,
                        documents@.len() as int,
                    );
                }
            }
            return None;
        }
        d = d + 1;
    }
    Some(changes)
}

/// Once the edits of some document cannot be expressed there is no mapping
/// for any longer run of documents.
proof fn lemma_changes_stay_none(
    documents: Seq<Document>,
    name: Seq<char>,
    new_name: Seq<char>,
    k: int,
    n: int,
)
    requires
        0 <= k <= n,
        subset_changes(documents, name, new_name, k) is None,
    ensures
        subset_changes(documents, name, new_name, n) is None,
    decreases n - k,
{
    if k < n {
        lemma_changes_stay_none(documents, name, new_name, k, n - 1);
    }
}

/// Renaming once the cancellation token has been asked: a canceled request
/// gives `None`, and a request that goes on unchecked gives the edits of
/// every document, or `None` where nothing can be renamed at the cursor or
/// an edit cannot be expressed in positions.
pub fn rename_command_unless(context: &CursorContext<RenameParams>, canceled: bool) -> (edit:
    Option<WorkspaceEdit>)
    requires
        context.wf(),
    ensures
        match edit {
            Some(e) => !canceled && rename_changes(*context) == Some(e@),
            None => canceled || rename_changes(*context) is None,
        },
{
    if canceled {
        return None;
    }
    rename_in_documents(context, None)
}

/// Renames the command under the cursor in every document of the request.
///
/// `None` says that nothing can be renamed at the cursor, that the request
/// was canceled, or that an edit cannot be expressed in positions. The
/// token is asked on entry and again before each document.
pub fn rename_command(
    context: &CursorContext<RenameParams>,
    cancellation_token: &CancellationToken,
) -> (edit: Option<WorkspaceEdit>)
    requires
        context.wf(),
    ensures
        edit matches Some(e) ==> rename_changes(*context) == Some(e@),
{
    if is_canceled(cancellation_token) {
        return None;
    }
    rename_in_documents(context, Some(cancellation_token))
}

} // verus!
