//! Completion of acronym names inside a command that refers to an acronym.

use crate::cancel::is_canceled;
use crate::features::completion::types::{
    push_candidate, Candidate, CandidateData, InternalCompletionItem, InternalCompletionItemData,
};
use crate::features::cursor::{curly_group_word_of, CompletionParams, CursorContext};
use crate::syntax::cst::{lemma_wf_element, lemma_wf_parent, CstNode, ElementData, SyntaxTree};
use crate::syntax::offset::TextRange;
use crate::syntax::latex::{key_text_of, AcronymDefinition, AcronymReference, CurlyGroupWord};
use crate::workspace::{Document};
use cancellation::CancellationToken;
use vstd::prelude::*;

verus! {

/// The name that element `i` defines, if it is an acronym definition whose
/// first group of one key holds a key.
pub open spec fn acronym_name_at(t: Seq<ElementData>, i: int) -> Option<Seq<char>> {
    if !t[i].is_token && AcronymDefinition::can_cast(t[i].kind) {
        match AcronymDefinition::name_of(t, i) {
            Some(group) => match CurlyGroupWord::key_of(t, group) {
                Some(key) => Some(key_text_of(t, key)),
                None => None,
            },
            None => None,
        }
    } else {
        None
    }
}

/// The names that the first `n` elements of a tree define, in document
/// order.
pub open spec fn acronym_names_below(t: Seq<ElementData>, n: int) -> Seq<Seq<char>>
    decreases n,
{
    if n <= 0 {
        Seq::empty()
    } else {
        match acronym_name_at(t, n - 1) {
            Some(name) => acronym_names_below(t, n - 1).push(name),
            None => acronym_names_below(t, n - 1),
        }
    }
}

/// The names that a document defines; none for a BibTeX document.
pub open spec fn document_acronyms(document: Document) -> Seq<Seq<char>> {
    if document.is_latex() {
        acronym_names_below(document.tree(), document.tree().len() as int)
    } else {
        Seq::empty()
    }
}

/// The names that the first `n` documents define, document by document.
pub open spec fn subset_acronyms(documents: Seq<Document>, n: int) -> Seq<Seq<char>>
    decreases n,
{
    if n <= 0 {
        Seq::empty()
    } else {
        subset_acronyms(documents, n - 1) + document_acronyms(documents[n - 1])
    }
}

/// One candidate for each of the first `n` names, in their order.
pub open spec fn acronym_candidates(range: TextRange, names: Seq<Seq<char>>, n: int) -> Seq<
    Candidate,
>
    decreases n,
{
    if n <= 0 {
        Seq::empty()
    } else {
        acronym_candidates(range, names, n - 1).push(
            Candidate { range, data: CandidateData::Acronym { name: names[n - 1] } },
        )
    }
}

/// The range that an acronym name replaces at the cursor: that of the word
/// under the cursor in a group of one key whose parent refers to an
/// acronym.
pub open spec fn acronym_range<P>(context: CursorContext<P>) -> Option<TextRange> {
    let t = context.tree();
    match curly_group_word_of(t, context.cursor(), context.offset()) {
        Some((_, range, group)) => match t[group].parent {
            Some(parent) => if AcronymReference::can_cast(t[parent].kind) {
                Some(range)
            } else {
                None
            },
            None => None,
        },
        None => None,
    }
}

/// What acronym completion contributes: every acronym name defined in the
/// documents of the request at the range under the cursor, and nothing
/// where the cursor is not in an acronym reference.
pub open spec fn acronym_completion<P>(context: CursorContext<P>) -> Option<Seq<Candidate>> {
    match acronym_range(context) {
        Some(range) => {
            let documents = context.request().subset.documents@;
            let names = subset_acronyms(documents, documents.len() as int);
            Some(acronym_candidates(range, names, names.len() as int))
        },
        None => None,
    }
}

/// Appends the acronym names that a tree defines to `names`.
pub fn collect_acronyms(tree: &SyntaxTree, names: &mut Vec<String>)
    requires
        tree.wf(),
    ensures
        final(names).deep_view() == old(names).deep_view() + acronym_names_below(
            tree@,
            tree@.len() as int,
        ),
{
    let ghost t = tree@;
    let mut k: usize = 0;
    while k < tree.len()
        invariant
            tree.wf(),
            t == tree@,
            0 <= k <= t.len(),
            names.deep_view() == old(names).deep_view() + acronym_names_below(t, k as int),
        decreases t.len() - k,
    {
        let ghost before = names.deep_view();
        if let Some(definition) = AcronymDefinition::cast(tree, k) {
            if let Some(group) = definition.name(tree) {
                if let Some(key) = group.key(tree) {
                    let name = key.to_string(tree);
                    names.push(name);
                    assert(names.deep_view() =~= before.push(name@));
                }
            }
        }
        k = k + 1;
        assert(names.deep_view() =~= old(names).deep_view() + acronym_names_below(t, k as int));
    }
}

/// Acronym completion once the cancellation token has been asked: a
/// canceled request contributes nothing.
pub fn complete_acronyms_unless(
    context: &CursorContext<CompletionParams>,
    items: &mut Vec<InternalCompletionItem>,
    canceled: bool,
) -> (done: Option<()>)
    requires
        context.wf(),
    ensures
        done is Some <==> !canceled && acronym_completion(*context) is Some,
        done is Some ==> final(items).deep_view() == old(items).deep_view() + acronym_completion(
            *context,
        )->0,
        done is None ==> final(items).deep_view() == old(items).deep_view(),
{
    if canceled {
        return None;
    }
    let (_, range, group) = match context.find_curly_group_word() {
        Some(found) => found,
        None => {
            return None;
        },
    };
    let tree = context.main_tree();
    let node = group.syntax();
    proof {
        lemma_wf_element(tree@, node as int);
        if node > 0 {
            lemma_wf_parent(tree@, node as int);
        }
    }
    let parent = match tree.parent(node) {
        Some(parent) => parent,
        None => {
            return None;
        },
    };
    if AcronymReference::cast(tree, parent).is_none() {
        return None;
    }
    let documents = &context.request().subset.documents;
    let mut names: Vec<String> = Vec::new();
    let mut d: usize = 0;
    while d < documents.len()
        invariant
            context.wf(),
            documents == &context.request().subset.documents,
            0 <= d <= documents@.len(),
            names.deep_view() == subset_acronyms(documents@, d as int),
        decreases documents@.len() - d,
    {
        let ghost before = names.deep_view();
        let document = &documents[d];
        proof {
            document.lemma_wf();
        }
        if let Some(tree) = document.data().as_latex() {
            collect_acronyms(tree, &mut names);
        }
        d = d + 1;
    }
    let ghost all = names.deep_view();
    let mut k: usize = 0;
    while k < names.len()
        invariant
            0 <= k <= names@.len(),
            all == names.deep_view(),
            items.deep_view() == old(items).deep_view() + acronym_candidates(range, all, k as int),
        decreases names@.len() - k,
    {
        let name = names[k].clone();
        assert(name@ == all[k as int]);
        push_candidate(
            items,
            InternalCompletionItem::new(range, InternalCompletionItemData::Acronym { name }),
        );
        k = k + 1;
        assert(items.deep_view() =~= old(items).deep_view() + acronym_candidates(
            range,
            all,
            k as int,
        ));
    }
    Some(())
}

/// Appends a candidate for every acronym defined in the documents of the
/// request when the cursor lies in the argument of a command that refers to
/// an acronym. A canceled request, and a cursor elsewhere, leave the list
/// as it is and give `None`.
pub fn complete_acronyms(
    context: &CursorContext<CompletionParams>,
    items: &mut Vec<InternalCompletionItem>,
    cancellation_token: &CancellationToken,
) -> (done: Option<()>)
    requires
        context.wf(),
    ensures
        done is Some ==> acronym_completion(*context) is Some,
        done is Some ==> final(items).deep_view() == old(items).deep_view() + acronym_completion(
            *context,
        )->0,
        done is None ==> final(items).deep_view() == old(items).deep_view(),
{
    let canceled = is_canceled(cancellation_token);
    complete_acronyms_unless(context, items, canceled)
}

} // verus!
