//! Completion of the values that a linked component suggests for an
//! argument of a command.

use crate::cancel::is_canceled;
use crate::component_db::{Component, ComponentArgument, ComponentCommand, ComponentParameter};
use crate::features::completion::types::{
    clone_text, push_candidate, Candidate, CandidateData, InternalCompletionItem,
    InternalCompletionItemData,
};
use crate::features::cursor::{is_latex_token, CompletionParams, Cursor, CursorContext};
use crate::strings::str_eq;
use crate::syntax::cst::{
    children, first_index_from, lemma_wf_element, lemma_wf_parent, CstNode, ElementData,
    SyntaxTree,
};
use crate::syntax::latex::{
    command_name_of, inside_curly, token_text_without_escape, without_escape, CurlyGroup,
    GenericCommand, LatexKind,
};
use crate::syntax::offset::TextRange;
use cancellation::CancellationToken;
use vstd::prelude::*;

verus! {

/// The brace group around a token: its parent, or else the parent of its
/// parent, whichever is a brace group first.
pub open spec fn argument_group_of(t: Seq<ElementData>, token: int) -> Option<int> {
    match t[token].parent {
        Some(parent) => if CurlyGroup::can_cast(t[parent].kind) {
            Some(parent)
        } else {
            match t[parent].parent {
                Some(outer) => if CurlyGroup::can_cast(t[outer].kind) {
                    Some(outer)
                } else {
                    None
                },
                None => None,
            }
        },
        None => None,
    }
}

/// The test that an element is a brace group that covers `range`.
pub open spec fn is_group_with_range(t: Seq<ElementData>, range: TextRange) -> spec_fn(
    int,
) -> bool {
    |c: int| !t[c].is_token && CurlyGroup::can_cast(t[c].kind) && t[c].range == range
}

/// Number of brace groups among the first `n` entries of `list`.
pub open spec fn groups_before(t: Seq<ElementData>, list: Seq<int>, n: int) -> int
    decreases n,
{
    if n <= 0 {
        0
    } else if !t[list[n - 1]].is_token && CurlyGroup::can_cast(t[list[n - 1]].kind) {
        groups_before(t, list, n - 1) + 1
    } else {
        groups_before(t, list, n - 1)
    }
}

/// The zero-based place of the first brace group with the range `range`
/// among the brace groups that are children of `command`.
pub open spec fn argument_index_of(t: Seq<ElementData>, command: int, range: TextRange) -> Option<
    int,
> {
    let list = children(t, command);
    match first_index_from(list, is_group_with_range(t, range), 0) {
        Some(k) => Some(groups_before(t, list, k)),
        None => None,
    }
}

/// Where argument completion applies: the range to replace, the name of
/// the command without its escape character, and the place of the argument
/// under the cursor among the brace groups of the command.
pub open spec fn argument_target(t: Seq<ElementData>, cursor: Cursor, offset: u32) -> Option<
    (TextRange, Seq<char>, int),
> {
    match cursor {
        Cursor::Latex(token) => {
            let range = if is_latex_token(t, token as int, LatexKind::Word) {
                t[token as int].range
            } else {
                TextRange { start: offset, end: offset }
            };
            match argument_group_of(t, token as int) {
                Some(group) => if inside_curly(t, group, offset) {
                    match t[group].parent {
                        Some(command) => if GenericCommand::can_cast(t[command].kind) {
                            match (
                                argument_index_of(t, command, t[group].range),
                                command_name_of(t, command),
                            ) {
                                (Some(index), Some(name)) => Some(
                                    (range, without_escape(t[name].text), index),
                                ),
                                _ => None,
                            }
                        } else {
                            None
                        },
                        None => None,
                    }
                } else {
                    None
                },
                None => None,
            }
        },
        _ => None,
    }
}

/// One candidate for each of the first `n` values of a parameter.
pub open spec fn parameter_candidates(range: TextRange, values: Seq<ComponentArgument>, n: int)
    -> Seq<Candidate>
    decreases n,
{
    if n <= 0 {
        Seq::empty()
    } else {
        parameter_candidates(range, values, n - 1).push(
            Candidate {
                range,
                data: CandidateData::Argument {
                    name: values[n - 1].name@,
                    image: values[n - 1].image.deep_view(),
                },
            },
        )
    }
}

/// What one declared command contributes: the values of its parameter at
/// `index` if it has the name `name` and that many parameters.
pub open spec fn command_candidates(
    range: TextRange,
    command: ComponentCommand,
    name: Seq<char>,
    index: int,
) -> Seq<Candidate> {
    if command.name@ == name && 0 <= index < command.parameters@.len() {
        parameter_candidates(
            range,
            command.parameters@[index].0@,
            command.parameters@[index].0@.len() as int,
        )
    } else {
        Seq::empty()
    }
}

/// What the first `n` commands of a component contribute, in their order.
pub open spec fn commands_candidates(
    range: TextRange,
    commands: Seq<ComponentCommand>,
    name: Seq<char>,
    index: int,
    n: int,
) -> Seq<Candidate>
    decreases n,
{
    if n <= 0 {
        Seq::empty()
    } else {
        commands_candidates(range, commands, name, index, n - 1) + command_candidates(
            range,
            commands[n - 1],
            name,
            index,
        )
    }
}

/// What the first `n` components contribute, in their order.
pub open spec fn components_candidates(
    range: TextRange,
    components: Seq<Component>,
    name: Seq<char>,
    index: int,
    n: int,
) -> Seq<Candidate>
    decreases n,
{
    if n <= 0 {
        Seq::empty()
    } else {
        components_candidates(range, components, name, index, n - 1) + commands_candidates(
            range,
            components[n - 1].commands@,
            name,
            index,
            components[n - 1].commands@.len() as int,
        )
    }
}

/// What argument completion contributes: for the argument under the
/// cursor, the values that the linked components suggest for the parameter
/// at its place, and nothing where the cursor is not in an argument of a
/// command.
pub open spec fn argument_completion<P>(context: CursorContext<P>) -> Option<Seq<Candidate>> {
    match argument_target(context.tree(), context.cursor(), context.offset()) {
        Some((range, name, index)) => Some(
            components_candidates(
                range,
                context.request().data.components@,
                name,
                index,
                context.request().data.components@.len() as int,
            ),
        ),
        None => None,
    }
}

/// The place of the first brace group with the range `range` among the
/// brace groups that are children of `command`.
pub fn argument_index(tree: &SyntaxTree, command: usize, range: TextRange) -> (index: Option<usize>)
    requires
        tree.wf(),
        command < tree@.len(),
    ensures
        match index {
            Some(i) => argument_index_of(tree@, command as int, range) == Some(i as int),
            None => argument_index_of(tree@, command as int, range) is None,
        },
{
    let list = tree.children(command);
    let ghost t = tree@;
    let ghost all = children(t, command as int);
    let ghost p = is_group_with_range(t, range);
    let group = LatexKind::CurlyGroup.to_raw();
    let mut count: usize = 0;
    let mut k: usize = 0;
    while k < list.len()
        invariant
            t == tree@,
            all == children(t, command as int),
            p == is_group_with_range(t, range),
            group == LatexKind::CurlyGroup.raw(),
            list@.len() == all.len(),
            forall|j: int| 0 <= j < list@.len() ==> list@[j] == all[j],
            forall|j: int| 0 <= j < list@.len() ==> #[trigger] list@[j] < t.len(),
            0 <= k <= list@.len(),
            count == groups_before(t, all, k as int),
            count <= k,
            first_index_from(all, p, 0) == first_index_from(all, p, k as int),
        decreases list@.len() - k,
    {
        let child = list[k];
        if !tree.is_token(child) && tree.kind(child) == group {
            let found = tree.range(child);
            if found.start == range.start && found.end == range.end {
                assert(p(all[k as int]));
                return Some(count);
            }
            count = count + 1;
        }
        assert(!p(all[k as int]));
        k = k + 1;
    }
    None
}

/// Appends a candidate for every value of a parameter.
pub fn push_parameter(
    items: &mut Vec<InternalCompletionItem>,
    range: TextRange,
    parameter: &ComponentParameter,
)
    ensures
        final(items).deep_view() == old(items).deep_view() + parameter_candidates(
            range,
            parameter.0@,
            parameter.0@.len() as int,
        ),
{
    let values = &parameter.0;
    let mut k: usize = 0;
    while k < values.len()
        invariant
            values == &parameter.0,
            0 <= k <= values@.len(),
            items.deep_view() == old(items).deep_view() + parameter_candidates(
                range,
                values@,
                k as int,
            ),
        decreases values@.len() - k,
    {
        let value = &values[k];
        let item = InternalCompletionItem::new(
            range,
            InternalCompletionItemData::Argument {
                name: value.name.clone(),
                image: clone_text(&value.image),
            },
        );
        push_candidate(items, item);
        k = k + 1;
        assert(items.deep_view() =~= old(items).deep_view() + parameter_candidates(
            range,
            values@,
            k as int,
        ));
    }
}

/// Appends what the commands of a component contribute.
pub fn push_commands(
    items: &mut Vec<InternalCompletionItem>,
    range: TextRange,
    commands: &Vec<ComponentCommand>,
    name: &str,
    index: usize,
)
    ensures
        final(items).deep_view() == old(items).deep_view() + commands_candidates(
            range,
            commands@,
            name@,
            index as int,
            commands@.len() as int,
        ),
{
    let mut k: usize = 0;
    while k < commands.len()
        invariant
            0 <= k <= commands@.len(),
            items.deep_view() == old(items).deep_view() + commands_candidates(
                range,
                commands@,
                name@,
                index as int,
                k as int,
            ),
        decreases commands@.len() - k,
    {
        let ghost before = items.deep_view();
        let command = &commands[k];
        if str_eq(command.name.as_str(), name) && index < command.parameters.len() {
            push_parameter(items, range, &command.parameters[index]);
        }
        k = k + 1;
        assert(items.deep_view() =~= old(items).deep_view() + commands_candidates(
            range,
            commands@,
            name@,
            index as int,
            k as int,
        ));
    }
}

/// Argument completion once the cancellation token has been asked: a
/// canceled request contributes nothing.
pub fn complete_arguments_unless(
    context: &CursorContext<CompletionParams>,
    items: &mut Vec<InternalCompletionItem>,
    canceled: bool,
) -> (done: Option<()>)
    requires
        context.wf(),
    ensures
        done is Some <==> !canceled && argument_completion(*context) is Some,
        done is Some ==> final(items).deep_view() == old(items).deep_view() + argument_completion(
            *context,
        )->0,
        done is None ==> final(items).deep_view() == old(items).deep_view(),
{
    if canceled {
        return None;
    }
    let token = match context.cursor().as_latex() {
        Some(token) => token,
        None => {
            return None;
        },
    };
    let tree = context.main_tree();
    let ghost t = tree@;
    proof {
        context.lemma_cursor();
        lemma_wf_element(t, token as int);
    }
    let range = if tree.is_token(token) && tree.kind(token) == LatexKind::Word.to_raw() {
        tree.range(token)
    } else {
        TextRange::empty(context.offset())
    };
    let parent = match tree.parent(token) {
        Some(parent) => parent,
        None => {
            return None;
        },
    };
    proof {
        lemma_wf_parent(t, token as int);
        lemma_wf_element(t, parent as int);
        if parent > 0 {
            lemma_wf_parent(t, parent as int);
        }
    }
    let group = match CurlyGroup::cast(tree, parent) {
        Some(group) => group,
        None => {
            let outer = match tree.parent(parent) {
                Some(outer) => outer,
                None => {
                    return None;
                },
            };
            match CurlyGroup::cast(tree, outer) {
                Some(group) => group,
                None => {
                    return None;
                },
            }
        },
    };
    if !context.is_inside_latex_curly(&group) {
        return None;
    }
    let node = group.syntax();
    proof {
        lemma_wf_element(t, node as int);
        if node > 0 {
            lemma_wf_parent(t, node as int);
        }
    }
    let above = match tree.parent(node) {
        Some(above) => above,
        None => {
            return None;
        },
    };
    let command = match GenericCommand::cast(tree, above) {
        Some(command) => command,
        None => {
            return None;
        },
    };
    let index = match argument_index(tree, command.syntax(), tree.range(node)) {
        Some(index) => index,
        None => {
            return None;
        },
    };
    let name = match command.name(tree) {
        Some(name) => name,
        None => {
            return None;
        },
    };
    let command_name = token_text_without_escape(tree, name);
    let components = &context.request().data.components;
    let mut k: usize = 0;
    while k < components.len()
        invariant
            components == &context.request().data.components,
            0 <= k <= components@.len(),
            items.deep_view() == old(items).deep_view() + components_candidates(
                range,
                components@,
                command_name@,
                index as int,
                k as int,
            ),
        decreases components@.len() - k,
    {
        push_commands(items, range, &components[k].commands, command_name, index);
        k = k + 1;
        assert(items.deep_view() =~= old(items).deep_view() + components_candidates(
            range,
            components@,
            command_name@,
            index as int,
            k as int,
        ));
    }
    Some(())
}

/// Appends the values that the linked components suggest for the argument
/// under the cursor. A canceled request, and a cursor that is not in an
/// argument of a command, leave the list as it is and give `None`.
pub fn complete_arguments(
    context: &CursorContext<CompletionParams>,
    items: &mut Vec<InternalCompletionItem>,
    cancellation_token: &CancellationToken,
) -> (done: Option<()>)
    requires
        context.wf(),
    ensures
        done is Some ==> argument_completion(*context) is Some,
        done is Some ==> final(items).deep_view() == old(items).deep_view() + argument_completion(
            *context,
        )->0,
        done is None ==> final(items).deep_view() == old(items).deep_view(),
{
    let canceled = is_canceled(cancellation_token);
    complete_arguments_unless(context, items, canceled)
}

} // verus!
