//! Completion of color names inside a command that refers to a color.

use crate::cancel::is_canceled;
use crate::features::completion::types::{
    push_candidate, Candidate, CandidateData, InternalCompletionItem, InternalCompletionItemData,
};
use crate::features::cursor::{curly_group_word_of, CompletionParams, CursorContext};
use crate::syntax::cst::{lemma_wf_element, lemma_wf_parent, CstNode};
use crate::syntax::offset::TextRange;
use crate::syntax::latex::ColorReference;
use cancellation::CancellationToken;
use vstd::prelude::*;

verus! {

/// One candidate for each of the first `n` color names, in their order.
pub open spec fn color_candidates(range: TextRange, colors: Seq<String>, n: int) -> Seq<Candidate>
    decreases n,
{
    if n <= 0 {
        Seq::empty()
    } else {
        color_candidates(range, colors, n - 1).push(
            Candidate { range, data: CandidateData::Color { name: colors[n - 1]@ } },
        )
    }
}

/// The range that a color name replaces at the cursor: that of the word
/// under the cursor in a group of one key whose parent refers to a color.
pub open spec fn color_range<P>(context: CursorContext<P>) -> Option<TextRange> {
    let t = context.tree();
    match curly_group_word_of(t, context.cursor(), context.offset()) {
        Some((_, range, group)) => match t[group].parent {
            Some(parent) => if ColorReference::can_cast(t[parent].kind) {
                Some(range)
            } else {
                None
            },
            None => None,
        },
        None => None,
    }
}

/// What color completion contributes: every known color name at the range
/// under the cursor, and nothing where the cursor is not in a color
/// reference.
pub open spec fn color_completion<P>(context: CursorContext<P>) -> Option<Seq<Candidate>> {
    match color_range(context) {
        Some(range) => Some(
            color_candidates(
                range,
                context.request().data.colors@,
                context.request().data.colors@.len() as int,
            ),
        ),
        None => None,
    }
}

/// Color completion once the cancellation token has been asked: a canceled
/// request contributes nothing.
pub fn complete_colors_unless(
    context: &CursorContext<CompletionParams>,
    items: &mut Vec<InternalCompletionItem>,
    canceled: bool,
) -> (done: Option<()>)
    requires
        context.wf(),
    ensures
        done is Some <==> !canceled && color_completion(*context) is Some,
        done is Some ==> final(items).deep_view() == old(items).deep_view() + color_completion(
            *context,
        )->0,
        done is None ==> final(items).deep_view() == old(items).deep_view(),
{
    if canceled {
        return None;
    }
    let (_, range, group) = match context.find_curly_group_word() {
        Some(found) => found,
        None => {
            return None;
        },
    };
    let tree = context.main_tree();
    let node = group.syntax();
    proof {
        lemma_wf_element(tree@, node as int);
        if node > 0 {
            lemma_wf_parent(tree@, node as int);
        }
    }
    let parent = match tree.parent(node) {
        Some(parent) => parent,
        None => {
            return None;
        },
    };
    if ColorReference::cast(tree, parent).is_none() {
        return None;
    }
    let colors = &context.request().data.colors;
    let mut k: usize = 0;
    while k < colors.len()
        invariant
            0 <= k <= colors@.len(),
            items.deep_view() == old(items).deep_view() + color_candidates(
                range,
                colors@,
                k as int,
            ),
        decreases colors@.len() - k,
    {
        let ghost before = items.deep_view();
        let name = colors[k].clone();
        push_candidate(
            items,
            InternalCompletionItem::new(range, InternalCompletionItemData::Color { name }),
        );
        k = k + 1;
        assert(items.deep_view() =~= old(items).deep_view() + color_candidates(
            range,
            colors@,
            k as int,
        ));
    }
    Some(())
}

/// Appends a candidate for every known color name when the cursor lies in
/// the argument of a command that refers to a color. A canceled request,
/// and a cursor elsewhere, leave the list as it is and give `None`.
pub fn complete_colors(
    context: &CursorContext<CompletionParams>,
    items: &mut Vec<InternalCompletionItem>,
    cancellation_token: &CancellationToken,
) -> (done: Option<()>)
    requires
        context.wf(),
    ensures
        done is Some ==> color_completion(*context) is Some,
        done is Some ==> final(items).deep_view() == old(items).deep_view() + color_completion(
            *context,
        )->0,
        done is None ==> final(items).deep_view() == old(items).deep_view(),
{
    let canceled = is_canceled(cancellation_token);
    complete_colors_unless(context, items, canceled)
}

} // verus!
