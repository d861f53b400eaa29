//! Completion providers. Each appends its candidates to a shared list.

pub mod acronym_ref;
pub mod argument;
pub mod color;
pub mod types;

use crate::cancel::is_canceled;
use crate::completion::latex::command_symbol::{
    command_symbol_completion, LatexCommandSymbolCompletionProvider,
};
use crate::completion::quality::{
    lemma_ordered_empty, ordered_by_quality, OrderByQualityCompletionProvider,
};
use crate::completion::query::document_query;
use crate::features::completion::acronym_ref::{acronym_completion, complete_acronyms_unless};
use crate::features::completion::argument::{argument_completion, complete_arguments_unless};
use crate::features::completion::color::{color_completion, complete_colors_unless};
use crate::features::completion::types::{Candidate, InternalCompletionItem};
use crate::features::cursor::{
    lemma_no_token_outside_content, CompletionParams, CursorContext, FeatureRequest,
};
use crate::line_index::position_to_offset;
use crate::syntax::cst::{lemma_wf_within_root, well_formed, ElementData};
use crate::syntax::latex::name_around_from;
use cancellation::CancellationToken;
use vstd::prelude::*;

verus! {

/// What a provider contributes to the merged list: its candidates if it
/// ran and found its place, and nothing otherwise.
pub open spec fn contribution(ran: bool, completion: Option<Seq<Candidate>>) -> Seq<Candidate> {
    match completion {
        Some(candidates) => if ran {
            candidates
        } else {
            Seq::empty()
        },
        None => Seq::empty(),
    }
}

/// The merged list of a request: the contributions of the providers in the
/// order of the roster, which is acronyms, arguments, colors and command
/// symbols. The three flags say which of the first three providers ran;
/// the provider of command symbols always runs.
pub open spec fn merged_candidates(
    context: CursorContext<CompletionParams>,
    acronyms: bool,
    arguments: bool,
    colors: bool,
) -> Seq<Candidate> {
    contribution(acronyms, acronym_completion(context)) + contribution(
        arguments,
        argument_completion(context),
    ) + contribution(colors, color_completion(context)) + command_symbol_completion(
        *context.request(),
    )
}

/// The answer to a completion request: the merged list in descending order
/// of the score against the text at the cursor, candidates of one score in
/// the order of the merged list.
pub open spec fn completion_of(
    context: CursorContext<CompletionParams>,
    acronyms: bool,
    arguments: bool,
    colors: bool,
) -> Seq<Candidate> {
    ordered_by_quality(
        document_query(context.request().main_of(), context.request().params.position),
        merged_candidates(context, acronyms, arguments, colors),
    )
}

/// Runs the roster on a resolved request, given for each provider that
/// heeds cancellation whether the token was tripped when it was asked.
pub fn complete_in_context(
    context: &CursorContext<CompletionParams>,
    acronyms_canceled: bool,
    arguments_canceled: bool,
    colors_canceled: bool,
) -> (items: Vec<InternalCompletionItem>)
    requires
        context.wf(),
    ensures
        items.deep_view() == completion_of(
            *context,
            !acronyms_canceled,
            !arguments_canceled,
            !colors_canceled,
        ),
{
    let mut items: Vec<InternalCompletionItem> = Vec::new();
    assert(items.deep_view() =~= Seq::<Candidate>::empty());
    complete_acronyms_unless(context, &mut items, acronyms_canceled);
    complete_arguments_unless(context, &mut items, arguments_canceled);
    complete_colors_unless(context, &mut items, colors_canceled);
    let mut symbols = LatexCommandSymbolCompletionProvider::execute(context.request());
    let ghost before = items.deep_view();
    let ghost added = symbols.deep_view();
    items.append(&mut symbols);
    assert(items.deep_view() =~= before + added);
    assert(items.deep_view() =~= merged_candidates(
        *context,
        !acronyms_canceled,
        !arguments_canceled,
        !colors_canceled,
    ));
    OrderByQualityCompletionProvider::execute(context.request(), items)
}

/// Answers a completion request: resolves the cursor, runs the providers
/// of the roster in order, each after asking the cancellation token, and
/// orders the merged list by quality. A provider that finds the request
/// canceled contributes nothing; what the others found stays.
pub fn complete(
    request: FeatureRequest<CompletionParams>,
    cancellation_token: &CancellationToken,
) -> (items: Vec<InternalCompletionItem>)
    requires
        request.wf(),
    ensures
        exists|acronyms: bool, arguments: bool, colors: bool|
            items.deep_view() == #[trigger] completion_of(
                CursorContext::<CompletionParams>::resolved(request),
                acronyms,
                arguments,
                colors,
            ),
{
    let context = CursorContext::new(request);
    let acronyms = is_canceled(cancellation_token);
    let arguments = is_canceled(cancellation_token);
    let colors = is_canceled(cancellation_token);
    let items = complete_in_context(&context, acronyms, arguments, colors);
    assert(items.deep_view() == completion_of(
        CursorContext::<CompletionParams>::resolved(request),
        !acronyms,
        !arguments,
        !colors,
    ));
    items
}

/// Without a token under the cursor no provider of the cursor context
/// contributes a candidate.
pub proof fn lemma_nothing_without_token<P>(context: CursorContext<P>)
    requires
        context.cursor() is Nothing,
    ensures
        acronym_completion(context) is None,
        argument_completion(context) is None,
        color_completion(context) is None,
{
}

/// Where the offset lies after the end of the main document there is no
/// token under the cursor, and no provider of the cursor context
/// contributes a candidate.
pub proof fn lemma_nothing_outside_content<P>(context: CursorContext<P>)
    requires
        context.wf(),
        context.offset() > context.tree()[0].range.end,
    ensures
        context.cursor() is Nothing,
        acronym_completion(context) is None,
        argument_completion(context) is None,
        color_completion(context) is None,
{
    context.request().main_of().lemma_wf();
    lemma_no_token_outside_content(context.request().main_of().parsed(), context.offset());
}

/// No command name lies around an offset after the end of a tree.
pub proof fn lemma_no_name_outside_content(t: Seq<ElementData>, offset: u32, k: int)
    requires
        well_formed(t),
        offset > t[0].range.end,
        0 <= k,
    ensures
        name_around_from(t, offset, k) is None,
    decreases t.len() - k,
{
    if k < t.len() {
        lemma_wf_within_root(t, k);
        lemma_no_name_outside_content(t, offset, k + 1);
    }
}

/// Where the position of a request names no boundary of the main document,
/// no command symbol is offered.
pub proof fn lemma_no_symbols_outside_content(request: FeatureRequest<CompletionParams>)
    requires
        position_to_offset(request.main_of().source(), request.params.position) is None,
    ensures
        command_symbol_completion(request) == Seq::<Candidate>::empty(),
{
}

/// A request whose position names no boundary of the main document is
/// answered with an empty list, whichever providers run.
pub proof fn lemma_completion_outside_content(
    request: FeatureRequest<CompletionParams>,
    acronyms: bool,
    arguments: bool,
    colors: bool,
)
    requires
        position_to_offset(request.main_of().source(), request.params.position) is None,
    ensures
        completion_of(
            CursorContext::<CompletionParams>::resolved(request),
            acronyms,
            arguments,
            colors,
        ) == Seq::<Candidate>::empty(),
{
    let context = CursorContext::<CompletionParams>::resolved(request);
    CursorContext::<CompletionParams>::lemma_resolved(request);
    lemma_nothing_without_token(context);
    lemma_no_symbols_outside_content(request);
    assert(merged_candidates(context, acronyms, arguments, colors) =~= Seq::<Candidate>::empty());
    lemma_ordered_empty(document_query(request.main_of(), request.params.position));
}

} // verus!
