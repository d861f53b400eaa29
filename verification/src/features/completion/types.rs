//! Completion candidates.

use crate::syntax::offset::TextRange;
use vstd::prelude::*;

verus! {

/// What a candidate suggests.
#[derive(Debug, PartialEq, Eq, Clone)]
pub enum InternalCompletionItemData {
    /// The name of an acronym defined in a related document.
    Acronym { name: String },
    /// A value for a command argument, with the glyph it stands for.
    Argument { name: String, image: Option<String> },
    /// The name of a color.
    Color { name: String },
    /// A command symbol with the file of the component it comes from;
    /// `None` for a symbol that is built in.
    CommandSymbol { name: String, component: Option<String>, image: Option<String> },
}

/// A candidate: the range that it replaces and what it suggests.
#[derive(Debug, PartialEq, Eq, Clone)]
pub struct InternalCompletionItem {
    pub range: TextRange,
    pub data: InternalCompletionItemData,
}

/// What a candidate suggests, as plain values.
pub enum CandidateData {
    Acronym { name: Seq<char> },
    Argument { name: Seq<char>, image: Option<Seq<char>> },
    Color { name: Seq<char> },
    CommandSymbol { name: Seq<char>, component: Option<Seq<char>>, image: Option<Seq<char>> },
}

/// A candidate as plain values.
pub struct Candidate {
    pub range: TextRange,
    pub data: CandidateData,
}

impl CandidateData {
    /// The text that the candidate is listed and ranked by.
    pub open spec fn label(self) -> Seq<char> {
        match self {
            CandidateData::Acronym { name } => name,
            CandidateData::Argument { name, .. } => name,
            CandidateData::Color { name } => name,
            CandidateData::CommandSymbol { name, .. } => name,
        }
    }
}

impl DeepView for InternalCompletionItemData {
    type V = CandidateData;

    open spec fn deep_view(&self) -> CandidateData {
        match self {
            InternalCompletionItemData::Acronym { name } => CandidateData::Acronym { name: name@ },
            InternalCompletionItemData::Argument { name, image } => CandidateData::Argument {
                name: name@,
                image: image.deep_view(),
            },
            InternalCompletionItemData::Color { name } => CandidateData::Color { name: name@ },
            InternalCompletionItemData::CommandSymbol {
                name,
                component,
                image,
            } => CandidateData::CommandSymbol {
                name: name@,
                component: component.deep_view(),
                image: image.deep_view(),
            },
        }
    }
}

impl DeepView for InternalCompletionItem {
    type V = Candidate;

    open spec fn deep_view(&self) -> Candidate {
        Candidate { range: self.range, data: self.data.deep_view() }
    }
}

/// A copy of an optional text.
pub fn clone_text(text: &Option<String>) -> (copy: Option<String>)
    ensures
        copy.deep_view() == text.deep_view(),
{
    match text {
        Some(text) => Some(text.clone()),
        None => None,
    }
}

impl InternalCompletionItemData {
    /// The text that the candidate is listed and ranked by.
    pub fn label(&self) -> (label: &str)
        ensures
            label@ == self.deep_view().label(),
    {
        match self {
            InternalCompletionItemData::Acronym { name } => name.as_str(),
            InternalCompletionItemData::Argument { name, .. } => name.as_str(),
            InternalCompletionItemData::Color { name } => name.as_str(),
            InternalCompletionItemData::CommandSymbol { name, .. } => name.as_str(),
        }
    }

    /// A copy that suggests the same.
    pub fn duplicate(&self) -> (copy: Self)
        ensures
            copy.deep_view() == self.deep_view(),
    {
        match self {
            InternalCompletionItemData::Acronym { name } => InternalCompletionItemData::Acronym {
                name: name.clone(),
            },
            InternalCompletionItemData::Argument {
                name,
                image,
            } => InternalCompletionItemData::Argument {
                name: name.clone(),
                image: clone_text(image),
            },
            InternalCompletionItemData::Color { name } => InternalCompletionItemData::Color {
                name: name.clone(),
            },
            InternalCompletionItemData::CommandSymbol {
                name,
                component,
                image,
            } => InternalCompletionItemData::CommandSymbol {
                name: name.clone(),
                component: clone_text(component),
                image: clone_text(image),
            },
        }
    }
}

impl InternalCompletionItem {
    /// A candidate that replaces `range`.
    pub fn new(range: TextRange, data: InternalCompletionItemData) -> (item: Self)
        ensures
            item.range == range,
            item.data == data,
    {
        InternalCompletionItem { range, data }
    }

    /// The text that the candidate is listed and ranked by.
    pub fn label(&self) -> (label: &str)
        ensures
            label@ == self.deep_view().data.label(),
    {
        self.data.label()
    }

    /// A copy that replaces the same range and suggests the same.
    pub fn duplicate(&self) -> (copy: Self)
        ensures
            copy.deep_view() == self.deep_view(),
    {
        InternalCompletionItem { range: self.range, data: self.data.duplicate() }
    }
}

/// Appends a candidate to a list.
pub fn push_candidate(items: &mut Vec<InternalCompletionItem>, item: InternalCompletionItem)
    ensures
        final(items).deep_view() == old(items).deep_view().push(item.deep_view()),
{
    items.push(item);
    assert(items.deep_view() =~= old(items).deep_view().push(item.deep_view()));
}

} // verus!
