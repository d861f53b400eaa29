//! Completion of command symbols from the symbol database.

use crate::component_db::{CommandSymbol, Component};
use crate::features::completion::types::{
    clone_text, push_candidate, Candidate, CandidateData, InternalCompletionItem,
    InternalCompletionItemData,
};
use crate::features::cursor::{CompletionParams, FeatureRequest};
use crate::line_index::position_to_offset;
use crate::strings::str_eq;
use crate::syntax::latex::{find_name_around, name_around_from, name_range};
use crate::syntax::offset::TextRange;
use vstd::prelude::*;

verus! {

/// Offers the commands of the symbol database whose component is linked.
pub struct LatexCommandSymbolCompletionProvider;

/// The component is known by the file name `file`.
pub open spec fn has_file(component: Component, file: Seq<char>) -> bool {
    exists|j: int|
        0 <= j < component.file_names@.len() && (#[trigger] component.file_names@[j])@ == file
}

/// One of the components is known by the file name `file`.
pub open spec fn is_linked(components: Seq<Component>, file: Seq<char>) -> bool {
    exists|i: int| 0 <= i < components.len() && has_file(#[trigger] components[i], file)
}

/// A symbol is offered if it is built in or if its component is linked.
pub open spec fn is_offered(components: Seq<Component>, symbol: CommandSymbol) -> bool {
    match symbol.component {
        Some(file) => is_linked(components, file@),
        None => true,
    }
}

/// One candidate for each of the first `n` symbols that is offered, in
/// their order.
pub open spec fn symbol_candidates(
    range: TextRange,
    components: Seq<Component>,
    symbols: Seq<CommandSymbol>,
    n: int,
) -> Seq<Candidate>
    decreases n,
{
    if n <= 0 {
        Seq::empty()
    } else if is_offered(components, symbols[n - 1]) {
        symbol_candidates(range, components, symbols, n - 1).push(
            Candidate {
                range,
                data: CandidateData::CommandSymbol {
                    name: symbols[n - 1].command@,
                    component: symbols[n - 1].component.deep_view(),
                    image: symbols[n - 1].image.deep_view(),
                },
            },
        )
    } else {
        symbol_candidates(range, components, symbols, n - 1)
    }
}

/// What command-symbol completion contributes: where the cursor lies
/// inside or right after a command name of a LaTeX document, every symbol
/// that is built in or comes from a linked component, at the range of the
/// name without its escape character; nothing elsewhere.
pub open spec fn command_symbol_completion(request: FeatureRequest<CompletionParams>) -> Seq<
    Candidate,
> {
    let document = request.main_of();
    match position_to_offset(document.source(), request.params.position) {
        Some(offset) => if document.is_latex() {
            match name_around_from(document.tree(), offset, 0) {
                Some(name) => symbol_candidates(
                    name_range(document.tree(), name),
                    request.data.components@,
                    request.data.symbols@,
                    request.data.symbols@.len() as int,
                ),
                None => Seq::empty(),
            }
        } else {
            Seq::empty()
        },
        None => Seq::empty(),
    }
}

/// Whether a component is known by a file name.
pub fn component_has_file(component: &Component, file: &str) -> (found: bool)
    ensures
        found == has_file(*component, file@),
{
    let mut j: usize = 0;
    while j < component.file_names.len()
        invariant
            0 <= j <= component.file_names@.len(),
            forall|k: int| 0 <= k < j ==> (#[trigger] component.file_names@[k])@ != file@,
        decreases component.file_names@.len() - j,
    {
        if str_eq(component.file_names[j].as_str(), file) {
            return true;
        }
        j = j + 1;
    }
    false
}

/// Whether one of the components is known by a file name.
pub fn components_have_file(components: &Vec<Component>, file: &str) -> (found: bool)
    ensures
        found == is_linked(components@, file@),
{
    let mut i: usize = 0;
    while i < components.len()
        invariant
            0 <= i <= components@.len(),
            forall|k: int| 0 <= k < i ==> !has_file(#[trigger] components@[k], file@),
        decreases components@.len() - i,
    {
        if component_has_file(&components[i], file) {
            return true;
        }
        i = i + 1;
    }
    false
}

impl LatexCommandSymbolCompletionProvider {
    /// The command symbols to offer at the position of a request.
    pub fn execute(request: &FeatureRequest<CompletionParams>) -> (items: Vec<
        InternalCompletionItem,
    >)
        requires
            request.wf(),
        ensures
            items.deep_view() == command_symbol_completion(*request),
    {
        let mut items: Vec<InternalCompletionItem> = Vec::new();
        assert(items.deep_view() =~= Seq::<Candidate>::empty());
        let document = request.main_document();
        let offset = match document.line_index().position_to_offset(request.params.position) {
            Some(offset) => offset,
            None => {
                return items;
            },
        };
        let tree = match document.data().as_latex() {
            Some(tree) => tree,
            None => {
                return items;
            },
        };
        let name = match find_name_around(tree, offset) {
            Some(name) => name,
            None => {
                return items;
            },
        };
        let found = tree.range(name);
        let range = TextRange::new(found.start + 1, found.end);
        let components = &request.data.components;
        let symbols = &request.data.symbols;
        let mut k: usize = 0;
        while k < symbols.len()
            invariant
                components == &request.data.components,
                symbols == &request.data.symbols,
                0 <= k <= symbols@.len(),
                items.deep_view() == symbol_candidates(range, components@, symbols@, k as int),
            decreases symbols@.len() - k,
        {
            let symbol = &symbols[k];
            let offered = match &symbol.component {
                Some(file) => components_have_file(components, file.as_str()),
                None => true,
            };
            if offered {
                push_candidate(
                    &mut items,
                    InternalCompletionItem::new(
                        range,
                        InternalCompletionItemData::CommandSymbol {
                            name: symbol.command.clone(),
                            component: clone_text(&symbol.component),
                            image: clone_text(&symbol.image),
                        },
                    ),
                );
            }
            k = k + 1;
        }
        items
    }
}

} // verus!
