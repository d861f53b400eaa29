//! An untyped concrete syntax tree.
//!
//! The tree is stored as one table of elements in document order (a node
//! comes before its children). Every element records its parent and the index
//! just past its last descendant, so the parent relation owns nothing and the
//! descendants of an element are a contiguous run of the table.

use crate::syntax::offset::{utf8_len, TextRange};
use vstd::prelude::*;

verus! {

/// What the tree records of one element, as plain values.
pub struct ElementData {
    /// The grammar's tag for this element.
    pub kind: u16,
    /// A token is a leaf with text; a node has children and no text.
    pub is_token: bool,
    /// Index of the parent node; `None` for the root.
    pub parent: Option<int>,
    /// Index just past the last descendant of this element.
    pub end_index: int,
    /// The bytes of the source that the element covers.
    pub range: TextRange,
    /// The literal text of a token; empty for a node.
    pub text: Seq<char>,
}

/// Element `j` lies in the subtree of element `i`.
pub open spec fn encloses(t: Seq<ElementData>, i: int, j: int) -> bool {
    0 <= i < j < t[i].end_index
}

/// Element `i` does not start after element `j`.
pub open spec fn starts_before(t: Seq<ElementData>, i: int, j: int) -> bool {
    t[i].range.start <= t[j].range.start
}

/// The table is a tree in document order whose ranges nest.
///
/// The root is element 0 and spans the table. The parent of an element is
/// the nearest element before it whose subtree holds it. Subtrees are nested
/// or disjoint. A child's range lies inside its parent's, ranges start in
/// table order, and an element ends before the element after its subtree
/// starts. A token covers as many bytes as its text encodes to.
#[verifier::opaque]
pub open spec fn well_formed(t: Seq<ElementData>) -> bool {
    &&& t.len() >= 1
    &&& !t[0].is_token
    &&& t[0].parent is None
    &&& t[0].end_index == t.len()
    &&& t[0].range.start == 0
    &&& forall|i: int|
        0 <= i < t.len() ==> {
            &&& i < (#[trigger] t[i]).end_index <= t.len()
            &&& t[i].range.wf()
            &&& t[i].is_token ==> t[i].end_index == i + 1
            &&& t[i].is_token ==> t[i].range.end - t[i].range.start == utf8_len(t[i].text)
            &&& !t[i].is_token ==> t[i].text.len() == 0
        }
    &&& forall|i: int|
        1 <= i < t.len() ==> {
            &&& (#[trigger] t[i]).parent is Some
            &&& 0 <= t[i].parent->0 < i
            &&& !t[t[i].parent->0].is_token
            &&& t[i].end_index <= t[t[i].parent->0].end_index
            &&& t[t[i].parent->0].range.start <= t[i].range.start
            &&& t[i].range.end <= t[t[i].parent->0].range.end
        }
    &&& forall|k: int, i: int|
        #[trigger] encloses(t, k, i) && i < t.len() ==> k <= t[i].parent->0
    &&& forall|i: int, j: int|
        #[trigger] encloses(t, i, j) && j < t.len() ==> t[j].end_index <= t[i].end_index
    &&& forall|i: int, j: int| 0 <= i <= j < t.len() ==> #[trigger] starts_before(t, i, j)
    &&& forall|i: int|
        0 <= i < t.len() && (#[trigger] t[i]).end_index < t.len() ==> t[i].range.end
            <= t[t[i].end_index].range.start
}

/// The root of a well-formed table.
pub proof fn lemma_wf_root(t: Seq<ElementData>)
    requires
        well_formed(t),
    ensures
        t.len() >= 1,
        !t[0].is_token,
        t[0].parent is None,
        t[0].end_index == t.len(),
        t[0].range.start == 0,
{
    reveal(well_formed);
}

/// What a well-formed table says of one element by itself.
pub proof fn lemma_wf_element(t: Seq<ElementData>, i: int)
    requires
        well_formed(t),
        0 <= i < t.len(),
    ensures
        i < t[i].end_index <= t.len(),
        t[i].range.wf(),
        t[i].is_token ==> t[i].end_index == i + 1,
        t[i].is_token ==> t[i].range.end - t[i].range.start == utf8_len(t[i].text),
        !t[i].is_token ==> t[i].text.len() == 0,
        i == 0 <==> t[i].parent is None,
{
    reveal(well_formed);
}

/// What a well-formed table says of an element and its parent.
pub proof fn lemma_wf_parent(t: Seq<ElementData>, i: int)
    requires
        well_formed(t),
        1 <= i < t.len(),
    ensures
        t[i].parent is Some,
        0 <= t[i].parent->0 < i,
        !t[t[i].parent->0].is_token,
        t[i].end_index <= t[t[i].parent->0].end_index,
        t[t[i].parent->0].range.start <= t[i].range.start,
        t[i].range.end <= t[t[i].parent->0].range.end,
{
    reveal(well_formed);
}

/// The parent of an element is the nearest element whose subtree holds it.
pub proof fn lemma_wf_nearest(t: Seq<ElementData>, k: int, i: int)
    requires
        well_formed(t),
        encloses(t, k, i),
        i < t.len(),
    ensures
        t[i].parent is Some,
        k <= t[i].parent->0 < i,
{
    reveal(well_formed);
    lemma_wf_parent(t, i);
}

/// The subtree of an element inside another subtree ends inside it.
pub proof fn lemma_wf_nested(t: Seq<ElementData>, i: int, j: int)
    requires
        well_formed(t),
        encloses(t, i, j),
        j < t.len(),
    ensures
        j < t[j].end_index <= t[i].end_index,
{
    reveal(well_formed);
}

/// Elements start in table order.
pub proof fn lemma_wf_starts(t: Seq<ElementData>, i: int, j: int)
    requires
        well_formed(t),
        0 <= i <= j < t.len(),
    ensures
        t[i].range.start <= t[j].range.start,
{
    reveal(well_formed);
    assert(starts_before(t, i, j));
}

/// An element ends before the element after its subtree starts.
pub proof fn lemma_wf_following(t: Seq<ElementData>, i: int)
    requires
        well_formed(t),
        0 <= i < t.len(),
        t[i].end_index < t.len(),
    ensures
        t[i].range.end <= t[t[i].end_index].range.start,
{
    reveal(well_formed);
}

/// Of two children of one parent the earlier ends before the later starts:
/// the ranges of siblings do not overlap and follow the order of the table.
pub proof fn lemma_wf_siblings(t: Seq<ElementData>, a: int, b: int)
    requires
        well_formed(t),
        0 <= a < b < t.len(),
        t[a].parent == t[b].parent,
    ensures
        t[a].end_index <= b,
        t[a].range.end <= t[b].range.start,
{
    lemma_wf_element(t, a);
    lemma_wf_element(t, b);
    if b < t[a].end_index {
        lemma_wf_nearest(t, a, b);
        if a >= 1 {
            lemma_wf_parent(t, a);
        }
    }
    lemma_wf_following(t, a);
    lemma_wf_starts(t, t[a].end_index, b);
}

/// An element inside a subtree ends no later than the subtree does.
pub proof fn lemma_wf_within(t: Seq<ElementData>, i: int, j: int)
    requires
        well_formed(t),
        encloses(t, i, j),
        j < t.len(),
    ensures
        t[j].range.end <= t[i].range.end,
    decreases j,
{
    lemma_wf_nearest(t, i, j);
    lemma_wf_parent(t, j);
    let p = t[j].parent->0;
    if p > i {
        lemma_wf_within(t, i, p);
    }
}

/// No element ends after the root does.
pub proof fn lemma_wf_within_root(t: Seq<ElementData>, i: int)
    requires
        well_formed(t),
        0 <= i < t.len(),
    ensures
        t[i].range.end <= t[0].range.end,
    decreases i,
{
    if i > 0 {
        lemma_wf_parent(t, i);
        lemma_wf_within_root(t, t[i].parent->0);
    }
}

/// One entry of the element table.
pub struct Element {
    kind: u16,
    token: bool,
    parent: Option<usize>,
    end_index: usize,
    range: TextRange,
    text: String,
}

impl View for Element {
    type V = ElementData;

    closed spec fn view(&self) -> ElementData {
        ElementData {
            kind: self.kind,
            is_token: self.token,
            parent: match self.parent {
                Some(p) => Some(p as int),
                None => None,
            },
            end_index: self.end_index as int,
            range: self.range,
            text: self.text@,
        }
    }
}

/// A concrete syntax tree: nodes and tokens tagged with a raw kind.
pub struct SyntaxTree {
    elements: Vec<Element>,
}

impl Element {
    /// A node without text.
    pub(crate) fn node(
        kind: u16,
        parent: Option<usize>,
        end_index: usize,
        range: TextRange,
    ) -> (element: Element)
        ensures
            element@ == (ElementData {
                kind,
                is_token: false,
                parent: match parent {
                    Some(p) => Some(p as int),
                    None => None,
                },
                end_index: end_index as int,
                range,
                text: Seq::empty(),
            }),
    {
        Element { kind, token: false, parent, end_index, range, text: String::new() }
    }

    /// A token with its text.
    pub(crate) fn token(
        kind: u16,
        parent: usize,
        end_index: usize,
        range: TextRange,
        text: String,
    ) -> (element: Element)
        ensures
            element@ == (ElementData {
                kind,
                is_token: true,
                parent: Some(parent as int),
                end_index: end_index as int,
                range,
                text: text@,
            }),
    {
        Element { kind, token: true, parent: Some(parent), end_index, range, text }
    }

    /// This node with the end of its subtree and of its range set.
    pub(crate) fn ended(&self, end_index: usize, end: u32) -> (element: Element)
        requires
            self@.text.len() == 0,
        ensures
            element@ == (ElementData {
                kind: self@.kind,
                is_token: self@.is_token,
                parent: self@.parent,
                end_index: end_index as int,
                range: TextRange { start: self@.range.start, end },
                text: self@.text,
            }),
    {
        let element = Element {
            kind: self.kind,
            token: self.token,
            parent: self.parent,
            end_index,
            range: TextRange { start: self.range.start, end },
            text: String::new(),
        };
        assert(element@.text =~= self@.text);
        element
    }
}

/// The plain values of a whole element table.
pub open spec fn table_view(elements: Seq<Element>) -> Seq<ElementData> {
    Seq::new(elements.len(), |i: int| elements[i]@)
}

impl View for SyntaxTree {
    type V = Seq<ElementData>;

    closed spec fn view(&self) -> Seq<ElementData> {
        table_view(self.elements@)
    }
}

impl SyntaxTree {
    /// The tree satisfies the structural invariant of the element table.
    pub open spec fn wf(&self) -> bool {
        well_formed(self@)
    }

    /// The tree over a well-formed table.
    pub(crate) fn from_elements(elements: Vec<Element>) -> (tree: SyntaxTree)
        requires
            well_formed(table_view(elements@)),
        ensures
            tree@ == table_view(elements@),
            tree.wf(),
    {
        SyntaxTree { elements }
    }

    /// Number of elements, nodes and tokens together.
    pub fn len(&self) -> (len: usize)
        ensures
            len == self@.len(),
    {
        self.elements.len()
    }

    /// The tag of an element.
    pub fn kind(&self, index: usize) -> (kind: u16)
        requires
            index < self@.len(),
        ensures
            kind == self@[index as int].kind,
    {
        self.elements[index].kind
    }

    /// Whether an element is a token rather than a node.
    pub fn is_token(&self, index: usize) -> (token: bool)
        requires
            index < self@.len(),
        ensures
            token == self@[index as int].is_token,
    {
        self.elements[index].token
    }

    /// The parent of an element; none for the root.
    pub fn parent(&self, index: usize) -> (parent: Option<usize>)
        requires
            index < self@.len(),
        ensures
            match parent {
                Some(p) => self@[index as int].parent == Some(p as int),
                None => self@[index as int].parent is None,
            },
    {
        self.elements[index].parent
    }

    /// Index just past the last descendant of the element.
    pub fn end_index(&self, index: usize) -> (end: usize)
        requires
            index < self@.len(),
        ensures
            end == self@[index as int].end_index,
    {
        self.elements[index].end_index
    }

    /// The bytes of the source that an element covers.
    pub fn range(&self, index: usize) -> (range: TextRange)
        requires
            index < self@.len(),
        ensures
            range == self@[index as int].range,
    {
        self.elements[index].range
    }

    /// The literal text of a token; empty for a node.
    pub fn text(&self, index: usize) -> (text: &str)
        requires
            index < self@.len(),
        ensures
            text@ == self@[index as int].text,
    {
        self.elements[index].text.as_str()
    }
}

/// The children of element `i` among the first `n` elements, in table order.
pub open spec fn children_below(t: Seq<ElementData>, i: int, n: int) -> Seq<int>
    decreases n,
{
    if n <= 0 {
        Seq::empty()
    } else if t[n - 1].parent == Some(i) {
        children_below(t, i, n - 1).push(n - 1)
    } else {
        children_below(t, i, n - 1)
    }
}

/// The children of element `i`, nodes and tokens, in document order.
pub open spec fn children(t: Seq<ElementData>, i: int) -> Seq<int> {
    children_below(t, i, t.len() as int)
}

/// Every listed child has `i` as its parent and lies in its subtree, and the
/// list is as long as the table at most.
pub proof fn lemma_children_below(t: Seq<ElementData>, i: int, n: int)
    requires
        well_formed(t),
        0 <= i < t.len(),
        0 <= n <= t.len(),
    ensures
        children_below(t, i, n).len() <= n,
        forall|k: int|
            0 <= k < children_below(t, i, n).len() ==> {
                let c = #[trigger] children_below(t, i, n)[k];
                &&& i < c < n
                &&& c < t[i].end_index
                &&& t[c].parent == Some(i)
            },
    decreases n,
{
    if n > 0 {
        lemma_children_below(t, i, n - 1);
        if t[n - 1].parent == Some(i) {
            lemma_wf_element(t, n - 1);
            lemma_wf_parent(t, n - 1);
        }
    }
}

/// Every element below `n` whose parent is `i` is listed, and the list is in
/// table order.
pub proof fn lemma_children_complete(t: Seq<ElementData>, i: int, n: int)
    requires
        0 <= n <= t.len(),
    ensures
        forall|c: int|
            0 <= c < n && (#[trigger] t[c]).parent == Some(i) ==> children_below(
                t,
                i,
                n,
            ).contains(c),
        forall|a: int, b: int|
            0 <= a < b < children_below(t, i, n).len() ==> (#[trigger] children_below(t, i, n)[a])
                < (#[trigger] children_below(t, i, n)[b]),
        forall|a: int|
            0 <= a < children_below(t, i, n).len() ==> 0 <= (#[trigger] children_below(t, i, n)[a])
                < n,
    decreases n,
{
    if n > 0 {
        lemma_children_complete(t, i, n - 1);
        let before = children_below(t, i, n - 1);
        let now = children_below(t, i, n);
        assert forall|c: int|
            0 <= c < n && (#[trigger] t[c]).parent == Some(i) implies now.contains(c) by {
            if c < n - 1 {
                let k = choose|k: int| 0 <= k < before.len() && before[k] == c;
                assert(now[k] == c);
            } else {
                assert(now[now.len() - 1] == c);
            }
        }
    }
}

/// No element up to `i` itself is a child of `i`.
proof fn lemma_children_start(t: Seq<ElementData>, i: int, n: int)
    requires
        well_formed(t),
        0 <= i < t.len(),
        0 <= n <= i + 1,
    ensures
        children_below(t, i, n).len() == 0,
    decreases n,
{
    if n > 0 {
        lemma_children_start(t, i, n - 1);
        lemma_wf_element(t, n - 1);
        if n - 1 >= 1 {
            lemma_wf_parent(t, n - 1);
        }
    }
}

/// No element at or after the end of a subtree is a child of its root.
proof fn lemma_children_stop(t: Seq<ElementData>, i: int, n: int)
    requires
        well_formed(t),
        0 <= i < t.len(),
        t[i].end_index <= n <= t.len(),
    ensures
        children_below(t, i, n) == children_below(t, i, t[i].end_index),
    decreases n,
{
    lemma_wf_element(t, i);
    if n > t[i].end_index {
        lemma_children_stop(t, i, n - 1);
        if t[n - 1].parent == Some(i) {
            lemma_wf_element(t, n - 1);
            lemma_wf_parent(t, n - 1);
        }
    }
}

/// No element inside the subtree of a child `c` is a child of `i`.
proof fn lemma_children_skip(t: Seq<ElementData>, i: int, c: int, n: int)
    requires
        well_formed(t),
        0 <= i < c < t.len(),
        c < n <= t[c].end_index,
    ensures
        children_below(t, i, n) == children_below(t, i, c + 1),
    decreases n,
{
    lemma_wf_element(t, c);
    if n > c + 1 {
        lemma_children_skip(t, i, c, n - 1);
        lemma_wf_nearest(t, c, n - 1);
    }
}

/// One step of the walk over the children of `i`: after child `c` comes the
/// element at the end of its subtree, which is the next child if the
/// subtree of `i` goes on.
proof fn lemma_children_step(t: Seq<ElementData>, i: int, c: int)
    requires
        well_formed(t),
        0 <= i < c < t.len(),
        c < t[i].end_index,
        t[c].parent == Some(i),
        forall|k: int| i < k < c ==> (#[trigger] t[k]).end_index <= c,
    ensures
        c < t[c].end_index <= t[i].end_index,
        children_below(t, i, t[c].end_index) == children_below(t, i, c).push(c),
        forall|k: int| i < k < t[c].end_index ==> (#[trigger] t[k]).end_index <= t[c].end_index,
        t[c].end_index < t[i].end_index ==> t[t[c].end_index].parent == Some(i),
{
    let after = t[c].end_index;
    lemma_wf_element(t, i);
    lemma_wf_element(t, c);
    lemma_wf_parent(t, c);
    lemma_children_skip(t, i, c, after);
    assert forall|k: int| i < k < after implies (#[trigger] t[k]).end_index <= after by {
        if k > c {
            lemma_wf_nested(t, c, k);
        }
    }
    if after < t[i].end_index {
        lemma_wf_nearest(t, i, after);
        lemma_wf_parent(t, after);
        lemma_wf_element(t, after);
        let q = t[after].parent->0;
        if q > i {
            assert(t[q].end_index <= after);
        }
    }
}

impl SyntaxTree {
    /// The children of an element, nodes and tokens, in document order.
    pub fn children(&self, index: usize) -> (list: Vec<usize>)
        requires
            self.wf(),
            index < self@.len(),
        ensures
            list@.len() == children(self@, index as int).len(),
            forall|k: int| 0 <= k < list@.len() ==> list@[k] == children(self@, index as int)[k],
            forall|k: int| 0 <= k < list@.len() ==> index < #[trigger] list@[k] < self@.len(),
    {
        let ghost t = self@;
        let ghost i = index as int;
        let end = self.end_index(index);
        let mut list: Vec<usize> = Vec::new();
        proof {
            lemma_wf_element(t, i);
        }
        let mut next = index + 1;
        proof {
            lemma_children_start(t, i, i + 1);
            if next < end {
                lemma_wf_nearest(t, i, i + 1);
            }
        }
        while next < end
            invariant
                well_formed(t),
                t == self@,
                i == index as int,
                0 <= i < t.len(),
                end == t[i].end_index,
                end <= t.len(),
                i < next <= end,
                next < end ==> t[next as int].parent == Some(i),
                forall|k: int| i < k < next ==> (#[trigger] t[k]).end_index <= next,
                list@.len() == children_below(t, i, next as int).len(),
                forall|k: int|
                    0 <= k < list@.len() ==> list@[k] == children_below(t, i, next as int)[k],
                forall|k: int| 0 <= k < list@.len() ==> index < #[trigger] list@[k] < t.len(),
            decreases end - next,
        {
            let child = next;
            let after = self.end_index(child);
            proof {
                lemma_children_step(t, i, child as int);
            }
            list.push(child);
            next = after;
        }
        proof {
            lemma_children_stop(t, i, t.len() as int);
        }
        list
    }
}

/// The first index at or after `from` whose entry of `list` satisfies `p`.
pub open spec fn first_index_from(list: Seq<int>, p: spec_fn(int) -> bool, from: int) -> Option<int>
    decreases list.len() - from,
{
    if from < 0 || from >= list.len() {
        None
    } else if p(list[from]) {
        Some(from)
    } else {
        first_index_from(list, p, from + 1)
    }
}

/// The first entry of `list` that satisfies `p`.
pub open spec fn first_where(list: Seq<int>, p: spec_fn(int) -> bool) -> Option<int> {
    match first_index_from(list, p, 0) {
        Some(k) => Some(list[k]),
        None => None,
    }
}

/// What `first_where` finds is an entry of the list that satisfies `p`, and
/// no entry before it does.
pub proof fn lemma_first_index_from(list: Seq<int>, p: spec_fn(int) -> bool, from: int)
    requires
        0 <= from,
    ensures
        match first_index_from(list, p, from) {
            Some(k) => from <= k < list.len() && p(list[k]) && forall|j: int|
                from <= j < k ==> !p(#[trigger] list[j]),
            None => forall|j: int| from <= j < list.len() ==> !p(#[trigger] list[j]),
        },
    decreases list.len() - from,
{
    if from < list.len() && !p(list[from]) {
        lemma_first_index_from(list, p, from + 1);
    }
}

/// The test that an element is a token, or a node, of kind `kind`.
pub open spec fn has_kind(t: Seq<ElementData>, kind: u16, token: bool) -> spec_fn(int) -> bool {
    |c: int| t[c].is_token == token && t[c].kind == kind
}

/// The first child of element `i` that is a token, or a node, of kind `kind`.
pub open spec fn first_child_of_kind(t: Seq<ElementData>, i: int, kind: u16, token: bool) -> Option<
    int,
> {
    first_where(children(t, i), has_kind(t, kind, token))
}

impl SyntaxTree {
    /// The first child of an element that is a token, or a node, of the
    /// given kind.
    pub fn first_child_of_kind(&self, index: usize, kind: u16, token: bool) -> (found: Option<
        usize,
    >)
        requires
            self.wf(),
            index < self@.len(),
        ensures
            match found {
                Some(c) => first_child_of_kind(self@, index as int, kind, token) == Some(c as int)
                    && index < c < self@.len() && self@[c as int].is_token == token
                    && self@[c as int].kind == kind && self@[c as int].parent == Some(
                    index as int,
                ),
                None => first_child_of_kind(self@, index as int, kind, token) is None,
            },
    {
        let list = self.children(index);
        let ghost t = self@;
        let ghost all = children(t, index as int);
        let ghost p = has_kind(t, kind, token);
        let mut k: usize = 0;
        while k < list.len()
            invariant
                self.wf(),
                index < t.len(),
                t == self@,
                all == children(t, index as int),
                p == has_kind(t, kind, token),
                list@.len() == all.len(),
                forall|j: int| 0 <= j < list@.len() ==> list@[j] == all[j],
                forall|j: int| 0 <= j < list@.len() ==> index < #[trigger] list@[j] < t.len(),
                0 <= k <= list@.len(),
                first_index_from(all, p, 0) == first_index_from(all, p, k as int),
            decreases list@.len() - k,
        {
            let child = list[k];
            if self.is_token(child) == token && self.kind(child) == kind {
                proof {
                    lemma_children_below(t, index as int, t.len() as int);
                    assert(p(all[k as int]));
                    assert(t[all[k as int]].parent == Some(index as int));
                }
                return Some(child);
            }
            assert(!p(all[k as int]));
            k = k + 1;
        }
        None
    }
}

/// The test that an element is a token.
pub open spec fn is_any_token(t: Seq<ElementData>) -> spec_fn(int) -> bool {
    |c: int| t[c].is_token
}

/// The first child of element `i` that is a token.
pub open spec fn first_token_child(t: Seq<ElementData>, i: int) -> Option<int> {
    first_where(children(t, i), is_any_token(t))
}

impl SyntaxTree {
    /// The first child of an element that is a token.
    pub fn first_token_child(&self, index: usize) -> (found: Option<usize>)
        requires
            self.wf(),
            index < self@.len(),
        ensures
            match found {
                Some(c) => first_token_child(self@, index as int) == Some(c as int) && index < c
                    < self@.len() && self@[c as int].is_token,
                None => first_token_child(self@, index as int) is None,
            },
    {
        let list = self.children(index);
        let ghost t = self@;
        let ghost all = children(t, index as int);
        let ghost p = is_any_token(t);
        let mut k: usize = 0;
        while k < list.len()
            invariant
                t == self@,
                all == children(t, index as int),
                p == is_any_token(t),
                list@.len() == all.len(),
                forall|j: int| 0 <= j < list@.len() ==> list@[j] == all[j],
                forall|j: int| 0 <= j < list@.len() ==> index < #[trigger] list@[j] < t.len(),
                0 <= k <= list@.len(),
                first_index_from(all, p, 0) == first_index_from(all, p, k as int),
            decreases list@.len() - k,
        {
            let child = list[k];
            if self.is_token(child) {
                assert(p(all[k as int]));
                return Some(child);
            }
            assert(!p(all[k as int]));
            k = k + 1;
        }
        None
    }
}

/// The test that an element is a node whose range holds `offset`, its two
/// ends included.
pub open spec fn is_node_at(t: Seq<ElementData>, offset: u32) -> spec_fn(int) -> bool {
    |c: int| !t[c].is_token && t[c].range.spec_contains_inclusive(offset)
}

/// The most deeply nested node around `offset` below `node`: the walk goes
/// from a node to its first child node whose range holds the offset, so of
/// two neighbours that share the offset as a boundary the left one is
/// taken, and it ends at a node without such a child.
pub open spec fn deepest_node_at(t: Seq<ElementData>, node: int, offset: u32) -> int
    decreases t.len() - node,
{
    match first_where(children(t, node), is_node_at(t, offset)) {
        Some(c) => if node < c < t.len() {
            deepest_node_at(t, c, offset)
        } else {
            node
        },
        None => node,
    }
}

/// Where several child nodes of `node` hold the offset, the walk enters the
/// leftmost: the child it enters is a node that holds the offset, and no
/// child before it is one.
pub proof fn lemma_leftmost_child_entered(t: Seq<ElementData>, node: int, offset: u32)
    ensures
        match first_where(children(t, node), is_node_at(t, offset)) {
            Some(c) => {
                &&& children(t, node).contains(c)
                &&& !t[c].is_token
                &&& t[c].range.spec_contains_inclusive(offset)
                &&& forall|d: int|
                    0 <= d < c && (#[trigger] t[d]).parent == Some(node) ==> t[d].is_token
                        || !t[d].range.spec_contains_inclusive(offset)
            },
            None => forall|d: int|
                0 <= d < t.len() && (#[trigger] t[d]).parent == Some(node) ==> t[d].is_token
                    || !t[d].range.spec_contains_inclusive(offset),
        },
{
    let list = children(t, node);
    let p = is_node_at(t, offset);
    lemma_first_index_from(list, p, 0);
    lemma_children_complete(t, node, t.len() as int);
    match first_index_from(list, p, 0) {
        Some(k) => {
            let c = list[k];
            assert forall|d: int|
                0 <= d < c && (#[trigger] t[d]).parent == Some(node) implies t[d].is_token
                || !t[d].range.spec_contains_inclusive(offset) by {
                let j = choose|j: int| 0 <= j < list.len() && list[j] == d;
                if j >= k {
                    if j > k {
                        assert(list[k] < list[j]);
                    }
                }
                assert(!p(list[j]));
            }
        },
        None => {
            assert forall|d: int|
                0 <= d < t.len() && (#[trigger] t[d]).parent == Some(node) implies t[d].is_token
                || !t[d].range.spec_contains_inclusive(offset) by {
                let j = choose|j: int| 0 <= j < list.len() && list[j] == d;
                assert(!p(list[j]));
            }
        },
    }
}

/// The nodes around `offset` from `node` downward: `node` itself, then its
/// first child node whose range holds the offset, and so on down to the
/// most deeply nested one, which comes last.
pub open spec fn node_path_at(t: Seq<ElementData>, node: int, offset: u32) -> Seq<int>
    decreases t.len() - node,
{
    match first_where(children(t, node), is_node_at(t, offset)) {
        Some(c) => if node < c < t.len() {
            seq![node] + node_path_at(t, c, offset)
        } else {
            seq![node]
        },
        None => seq![node],
    }
}

/// The nodes around `offset` from the root downward, the most deeply
/// nested last; none where the offset lies outside the tree.
pub open spec fn nodes_at(t: Seq<ElementData>, offset: u32) -> Seq<int> {
    if t[0].range.spec_contains_inclusive(offset) {
        node_path_at(t, 0, offset)
    } else {
        Seq::empty()
    }
}

/// The path of nodes around an offset starts at the node it was asked for
/// and ends at the most deeply nested node around the offset.
pub proof fn lemma_node_path(t: Seq<ElementData>, node: int, offset: u32)
    ensures
        node_path_at(t, node, offset).len() >= 1,
        node_path_at(t, node, offset)[0] == node,
        node_path_at(t, node, offset).last() == deepest_node_at(t, node, offset),
    decreases t.len() - node,
{
    match first_where(children(t, node), is_node_at(t, offset)) {
        Some(c) => {
            if node < c < t.len() {
                lemma_node_path(t, c, offset);
            }
        },
        None => {},
    }
}

impl SyntaxTree {
    /// The first child node of `node` whose range holds `offset`.
    pub fn first_node_child_at(&self, node: usize, offset: u32) -> (found: Option<usize>)
        requires
            self.wf(),
            node < self@.len(),
        ensures
            match found {
                Some(c) => first_where(children(self@, node as int), is_node_at(self@, offset))
                    == Some(c as int) && node < c < self@.len() && !self@[c as int].is_token,
                None => first_where(children(self@, node as int), is_node_at(self@, offset))
                    is None,
            },
    {
        let list = self.children(node);
        let ghost t = self@;
        let ghost all = children(t, node as int);
        let ghost p = is_node_at(t, offset);
        let mut k: usize = 0;
        while k < list.len()
            invariant
                t == self@,
                all == children(t, node as int),
                p == is_node_at(t, offset),
                list@.len() == all.len(),
                forall|j: int| 0 <= j < list@.len() ==> list@[j] == all[j],
                forall|j: int| 0 <= j < list@.len() ==> node < #[trigger] list@[j] < t.len(),
                0 <= k <= list@.len(),
                first_index_from(all, p, 0) == first_index_from(all, p, k as int),
            decreases list@.len() - k,
        {
            let child = list[k];
            if !self.is_token(child) && self.range(child).contains_inclusive(offset) {
                assert(p(all[k as int]));
                return Some(child);
            }
            assert(!p(all[k as int]));
            k = k + 1;
        }
        None
    }

    /// The most deeply nested node around `offset`.
    pub fn deepest_node_at(&self, offset: u32) -> (node: usize)
        requires
            self.wf(),
        ensures
            node == deepest_node_at(self@, 0, offset),
            node < self@.len(),
            !self@[node as int].is_token,
    {
        proof {
            lemma_wf_root(self@);
        }
        let mut node: usize = 0;
        loop
            invariant
                self.wf(),
                node < self@.len(),
                !self@[node as int].is_token,
                deepest_node_at(self@, node as int, offset) == deepest_node_at(self@, 0, offset),
            decreases self@.len() - node,
        {
            match self.first_node_child_at(node, offset) {
                Some(child) => {
                    node = child;
                },
                None => {
                    return node;
                },
            }
        }
    }

    /// The nodes around `offset` from the root downward, the most deeply
    /// nested last; none where the offset lies outside the tree.
    pub fn nodes_at(&self, offset: u32) -> (path: Vec<usize>)
        requires
            self.wf(),
        ensures
            path@.len() == nodes_at(self@, offset).len(),
            forall|k: int| 0 <= k < path@.len() ==> path@[k] == nodes_at(self@, offset)[k],
            forall|k: int| 0 <= k < path@.len() ==> #[trigger] path@[k] < self@.len(),
    {
        let ghost t = self@;
        let mut path: Vec<usize> = Vec::new();
        proof {
            lemma_wf_root(t);
        }
        if !self.range(0).contains_inclusive(offset) {
            return path;
        }
        let mut node: usize = 0;
        loop
            invariant
                self.wf(),
                t == self@,
                node < t.len(),
                t[0].range.spec_contains_inclusive(offset),
                forall|k: int| 0 <= k < path@.len() ==> #[trigger] path@[k] < t.len(),
                path@.len() + node_path_at(t, node as int, offset).len() == node_path_at(
                    t,
                    0,
                    offset,
                ).len(),
                forall|k: int| 0 <= k < path@.len() ==> path@[k] == node_path_at(t, 0, offset)[k],
                forall|k: int|
                    0 <= k < node_path_at(t, node as int, offset).len()
                        ==> (#[trigger] node_path_at(t, node as int, offset)[k]) == node_path_at(
                        t,
                        0,
                        offset,
                    )[path@.len() + k],
            decreases t.len() - node,
        {
            let ghost rest = node_path_at(t, node as int, offset);
            let ghost done = path@.len() as int;
            proof {
                lemma_node_path(t, node as int, offset);
                assert(rest[0] == node_path_at(t, 0, offset)[done]);
            }
            path.push(node);
            match self.first_node_child_at(node, offset) {
                Some(child) => {
                    proof {
                        let next = node_path_at(t, child as int, offset);
                        assert(rest =~= seq![node as int] + next);
                        assert forall|k: int| 0 <= k < next.len() implies (#[trigger] next[k])
                            == node_path_at(t, 0, offset)[path@.len() + k] by {
                            assert(next[k] == rest[k + 1]);
                        }
                    }
                    node = child;
                },
                None => {
                    assert(rest =~= seq![node as int]);
                    return path;
                },
            }
        }
    }
}

/// A typed view of a node: a handle that exists only for nodes whose kind
/// has the shape that the view stands for.
pub trait CstNode: Sized {
    /// Whether a node with this tag has the shape of the view.
    spec fn can_cast(kind: u16) -> bool;

    /// The node that the view looks at.
    spec fn node(&self) -> int;

    /// Views `node` through this type if it is a node of a fitting kind.
    /// A token, a node of another kind and an index outside the tree all
    /// give `None`.
    fn cast(tree: &SyntaxTree, node: usize) -> (view: Option<Self>)
        ensures
            view is Some <==> (node < tree@.len() && !tree@[node as int].is_token && Self::can_cast(
                tree@[node as int].kind,
            )),
            view matches Some(v) ==> v.node() == node,
    ;

    /// The node that the view looks at.
    fn syntax(&self) -> (node: usize)
        ensures
            node == self.node(),
    ;
}

} // verus!
