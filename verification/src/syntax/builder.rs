//! Building a syntax tree from the events that a parser emits.

use crate::syntax::cst::{
    encloses, starts_before, table_view, well_formed, Element, ElementData, SyntaxTree,
};
use crate::syntax::offset::{lemma_utf8_prefix_width_bounds, str_width, utf8_len, TextRange};
use vstd::prelude::*;

verus! {

/// An element that has been started and not yet finished.
pub open spec fn is_open(e: Seq<ElementData>, i: int) -> bool {
    e[i].end_index == 0
}

/// Element `j` comes after element `i` and no later than the end of its
/// subtree; an open element covers all that follows it.
pub open spec fn covers(e: Seq<ElementData>, i: int, j: int) -> bool {
    0 <= i < j && (is_open(e, i) || j < e[i].end_index)
}

/// What holds of a partly built table `e` with the open nodes `o`, innermost
/// last, when the text laid down so far ends at `offset`.
#[verifier::opaque]
pub open spec fn building(e: Seq<ElementData>, o: Seq<int>, offset: u32) -> bool {
    &&& e.len() == 0 ==> o.len() == 0 && offset == 0
    &&& e.len() > 0 ==> !e[0].is_token && e[0].parent is None && e[0].range.start == 0
    &&& e.len() > 0 && !is_open(e, 0) ==> e[0].end_index == e.len() && o.len() == 0
    &&& o.len() > 0 ==> o[0] == 0
    &&& forall|k: int|
        0 <= k < o.len() ==> 0 <= #[trigger] o[k] < e.len() && is_open(e, o[k])
            && !e[o[k]].is_token
    &&& forall|k: int|
        1 <= k < o.len() ==> o[k - 1] < #[trigger] o[k] && e[o[k]].parent == Some(o[k - 1])
    &&& forall|i: int|
        0 <= i < e.len() && #[trigger] is_open(e, i) ==> o.len() > 0 && i <= o[o.len() - 1]
            && exists|k: int| 0 <= k < o.len() && #[trigger] o[k] == i
    &&& forall|i: int|
        0 <= i < e.len() ==> {
            &&& (#[trigger] e[i]).range.start <= offset
            &&& e[i].is_token ==> !is_open(e, i)
            &&& e[i].is_token ==> e[i].range.end - e[i].range.start == utf8_len(e[i].text)
            &&& !e[i].is_token ==> e[i].text.len() == 0
            &&& !is_open(e, i) ==> {
                &&& i < e[i].end_index <= e.len()
                &&& e[i].range.wf()
                &&& e[i].range.end <= offset
                &&& e[i].is_token ==> e[i].end_index == i + 1
            }
        }
    &&& forall|i: int|
        1 <= i < e.len() ==> {
            &&& (#[trigger] e[i]).parent is Some
            &&& 0 <= e[i].parent->0 < i
            &&& !e[e[i].parent->0].is_token
            &&& e[e[i].parent->0].range.start <= e[i].range.start
            &&& !is_open(e, e[i].parent->0) ==> {
                &&& !is_open(e, i)
                &&& e[i].end_index <= e[e[i].parent->0].end_index
                &&& e[i].range.end <= e[e[i].parent->0].range.end
            }
        }
    &&& forall|k: int, i: int|
        #[trigger] covers(e, k, i) && i < e.len() ==> k <= e[i].parent->0
    &&& forall|i: int, j: int|
        #[trigger] covers(e, i, j) && j < e.len() && !is_open(e, i) ==> !is_open(e, j)
            && e[j].end_index <= e[i].end_index
    &&& forall|i: int, j: int| 0 <= i <= j < e.len() ==> #[trigger] starts_before(e, i, j)
    &&& forall|i: int|
        0 <= i < e.len() && !is_open(e, i) && (#[trigger] e[i]).end_index < e.len()
            ==> e[i].range.end <= e[e[i].end_index].range.start
}

/// A finished table, one without open nodes, is a well-formed tree.
pub proof fn lemma_finished_is_well_formed(e: Seq<ElementData>, offset: u32)
    requires
        building(e, Seq::<int>::empty(), offset),
        e.len() > 0,
    ensures
        well_formed(e),
{
    reveal(building);
    reveal(well_formed);
    assert forall|i: int| 0 <= i < e.len() implies !is_open(e, i) by {
        if is_open(e, i) {
            assert(Seq::<int>::empty().len() > 0);
        }
    }
    assert forall|k: int, i: int| #[trigger] encloses(e, k, i) && i < e.len() implies k
        <= e[i].parent->0 by {
        assert(covers(e, k, i));
    }
    assert forall|i: int, j: int| #[trigger] encloses(e, i, j) && j < e.len() implies e[j].end_index
        <= e[i].end_index by {
        assert(covers(e, i, j));
    }
}

/// The element that `start_node` appends.
pub open spec fn started_node(e: Seq<ElementData>, o: Seq<int>, offset: u32, kind: u16)
    -> ElementData {
    ElementData {
        kind,
        is_token: false,
        parent: if o.len() > 0 {
            Some(o[o.len() - 1])
        } else {
            None
        },
        end_index: 0,
        range: TextRange { start: offset, end: offset },
        text: Seq::empty(),
    }
}

/// The element that `token` appends.
pub open spec fn added_token(
    e: Seq<ElementData>,
    o: Seq<int>,
    offset: u32,
    kind: u16,
    text: Seq<char>,
) -> ElementData {
    ElementData {
        kind,
        is_token: true,
        parent: Some(o[o.len() - 1]),
        end_index: e.len() as int + 1,
        range: TextRange { start: offset, end: (offset + utf8_len(text)) as u32 },
        text,
    }
}

/// The innermost open node once `finish_node` has closed it.
pub open spec fn finished_node(e: Seq<ElementData>, o: Seq<int>, offset: u32) -> ElementData {
    let top = e[o[o.len() - 1]];
    ElementData {
        kind: top.kind,
        is_token: top.is_token,
        parent: top.parent,
        end_index: e.len() as int,
        range: TextRange { start: top.range.start, end: offset },
        text: top.text,
    }
}

proof fn lemma_start_node(e: Seq<ElementData>, o: Seq<int>, offset: u32, kind: u16)
    requires
        building(e, o, offset),
        e.len() == 0 || o.len() > 0,
    ensures
        building(e.push(started_node(e, o, offset, kind)), o.push(e.len() as int), offset),
{
    reveal(building);
    let n = e.len() as int;
    let e2 = e.push(started_node(e, o, offset, kind));
    let o2 = o.push(n);
    if o.len() > 0 {
        assert(is_open(e, o[0]));
        assert(is_open(e, o[o.len() - 1]));
    }
    assert forall|i: int| 0 <= i < e2.len() && #[trigger] is_open(e2, i) implies o2.len() > 0 && i
        <= o2[o2.len() - 1] && exists|k: int| 0 <= k < o2.len() && #[trigger] o2[k] == i by {
        if i < n {
            assert(is_open(e, i));
            let k = choose|k: int| 0 <= k < o.len() && #[trigger] o[k] == i;
            assert(o2[k] == i);
        } else {
            assert(o2[o2.len() - 1] == i);
        }
    }
    assert forall|k: int| 1 <= k < o2.len() implies o2[k - 1] < #[trigger] o2[k] && e2[o2[k]].parent
        == Some(o2[k - 1]) by {
        if k < o.len() {
            assert(o[k - 1] < o[k]);
        }
    }
    assert forall|k: int, i: int| #[trigger] covers(e2, k, i) && i < e2.len() implies k
        <= e2[i].parent->0 by {
        if i < n {
            assert(covers(e, k, i));
        } else {
            if k > o[o.len() - 1] {
                if is_open(e, k) {
                } else {
                    assert(e[k].end_index <= n);
                }
            }
        }
    }
    assert forall|i: int, j: int|
        #[trigger] covers(e2, i, j) && j < e2.len() && !is_open(e2, i) implies !is_open(e2, j)
            && e2[j].end_index <= e2[i].end_index by {
        if j < n {
            assert(covers(e, i, j));
        } else {
            assert(e[i].end_index <= n);
        }
    }
    assert forall|i: int, j: int| 0 <= i <= j < e2.len() implies #[trigger] starts_before(
        e2,
        i,
        j,
    ) by {
        if j < n {
            assert(starts_before(e, i, j));
        }
    }
    assert(building(e2, o2, offset));
}

proof fn lemma_token(e: Seq<ElementData>, o: Seq<int>, offset: u32, kind: u16, text: Seq<char>)
    requires
        building(e, o, offset),
        o.len() > 0,
        offset + utf8_len(text) <= u32::MAX,
    ensures
        building(
            e.push(added_token(e, o, offset, kind, text)),
            o,
            (offset + utf8_len(text)) as u32,
        ),
{
    reveal(building);
    let n = e.len() as int;
    let e2 = e.push(added_token(e, o, offset, kind, text));
    let off2 = (offset + utf8_len(text)) as u32;
    lemma_utf8_prefix_width_bounds(text, text.len() as int);
    assert(is_open(e, o[0]));
    assert(is_open(e, o[o.len() - 1]));
    assert forall|i: int| 0 <= i < e2.len() && #[trigger] is_open(e2, i) implies o.len() > 0 && i
        <= o[o.len() - 1] && exists|k: int| 0 <= k < o.len() && #[trigger] o[k] == i by {
        assert(is_open(e, i));
    }
    assert forall|k: int, i: int| #[trigger] covers(e2, k, i) && i < e2.len() implies k
        <= e2[i].parent->0 by {
        if i < n {
            assert(covers(e, k, i));
        } else {
            if k > o[o.len() - 1] {
                if is_open(e, k) {
                } else {
                    assert(e[k].end_index <= n);
                }
            }
        }
    }
    assert forall|i: int, j: int|
        #[trigger] covers(e2, i, j) && j < e2.len() && !is_open(e2, i) implies !is_open(e2, j)
            && e2[j].end_index <= e2[i].end_index by {
        if j < n {
            assert(covers(e, i, j));
        } else {
            assert(e[i].end_index <= n);
        }
    }
    assert forall|i: int, j: int| 0 <= i <= j < e2.len() implies #[trigger] starts_before(
        e2,
        i,
        j,
    ) by {
        if j < n {
            assert(starts_before(e, i, j));
        }
    }
    assert(building(e2, o, off2));
}

proof fn lemma_finish_node_stack(e: Seq<ElementData>, o: Seq<int>, offset: u32)
    requires
        building(e, o, offset),
        o.len() > 0,
    ensures
        ({
            let e2 = e.update(o[o.len() - 1], finished_node(e, o, offset));
            let o2 = o.drop_last();
            &&& e2.len() > 0 ==> !e2[0].is_token && e2[0].parent is None && e2[0].range.start == 0
            &&& e2.len() > 0 && !is_open(e2, 0) ==> e2[0].end_index == e2.len() && o2.len() == 0
            &&& o2.len() > 0 ==> o2[0] == 0
            &&& forall|k: int|
                0 <= k < o2.len() ==> 0 <= #[trigger] o2[k] < e2.len() && is_open(e2, o2[k])
                    && !e2[o2[k]].is_token
            &&& forall|k: int|
                1 <= k < o2.len() ==> o2[k - 1] < #[trigger] o2[k] && e2[o2[k]].parent == Some(
                    o2[k - 1],
                )
            &&& forall|i: int|
                0 <= i < e2.len() && #[trigger] is_open(e2, i) ==> o2.len() > 0 && i <= o2[o2.len()
                    - 1] && exists|k: int| 0 <= k < o2.len() && #[trigger] o2[k] == i
        }),
{
    reveal(building);
    let t = o[o.len() - 1];
    let e2 = e.update(t, finished_node(e, o, offset));
    let o2 = o.drop_last();
    assert(is_open(e, t));
    assert(is_open(e, o[0]));
    assert forall|i: int| 0 <= i < e2.len() && #[trigger] is_open(e2, i) implies o2.len() > 0 && i
        <= o2[o2.len() - 1] && exists|k: int| 0 <= k < o2.len() && #[trigger] o2[k] == i by {
        assert(i != t);
        assert(is_open(e, i));
        let k = choose|k: int| 0 <= k < o.len() && #[trigger] o[k] == i;
        assert(k < o.len() - 1);
        assert(o2[k] == i);
        lemma_open_stack_increasing(o, e, k, o.len() - 2);
    }
    assert forall|k: int| 0 <= k < o2.len() implies 0 <= #[trigger] o2[k] < e2.len() && is_open(
        e2,
        o2[k],
    ) && !e2[o2[k]].is_token by {
        assert(o[k] == o2[k]);
        lemma_open_stack_increasing(o, e, k, o.len() - 2);
        assert(o[o.len() - 2] < o[o.len() - 1]);
    }
    assert forall|k: int| 1 <= k < o2.len() implies o2[k - 1] < #[trigger] o2[k] && e2[o2[k]].parent
        == Some(o2[k - 1]) by {
        assert(o[k] == o2[k]);
        assert(o[k - 1] < o[k]);
        lemma_open_stack_increasing(o, e, k, o.len() - 2);
        assert(o[o.len() - 2] < o[o.len() - 1]);
    }
    if !is_open(e2, 0) {
        assert(t == 0);
        if o.len() > 1 {
            assert(o[0] < o[1]) by {
                lemma_open_stack_increasing(o, e, 0, o.len() - 2);
                assert(o[o.len() - 2] < o[o.len() - 1]);
            }
        }
    }
}

proof fn lemma_finish_node_elements(e: Seq<ElementData>, o: Seq<int>, offset: u32)
    requires
        building(e, o, offset),
        o.len() > 0,
    ensures
        ({
            let e2 = e.update(o[o.len() - 1], finished_node(e, o, offset));
            &&& forall|i: int|
                0 <= i < e2.len() ==> {
                    &&& (#[trigger] e2[i]).range.start <= offset
                    &&& e2[i].is_token ==> !is_open(e2, i)
                    &&& e2[i].is_token ==> e2[i].range.end - e2[i].range.start == utf8_len(
                        e2[i].text,
                    )
                    &&& !e2[i].is_token ==> e2[i].text.len() == 0
                    &&& !is_open(e2, i) ==> {
                        &&& i < e2[i].end_index <= e2.len()
                        &&& e2[i].range.wf()
                        &&& e2[i].range.end <= offset
                        &&& e2[i].is_token ==> e2[i].end_index == i + 1
                    }
                }
            &&& forall|i: int|
                1 <= i < e2.len() ==> {
                    &&& (#[trigger] e2[i]).parent is Some
                    &&& 0 <= e2[i].parent->0 < i
                    &&& !e2[e2[i].parent->0].is_token
                    &&& e2[e2[i].parent->0].range.start <= e2[i].range.start
                    &&& !is_open(e2, e2[i].parent->0) ==> {
                        &&& !is_open(e2, i)
                        &&& e2[i].end_index <= e2[e2[i].parent->0].end_index
                        &&& e2[i].range.end <= e2[e2[i].parent->0].range.end
                    }
                }
        }),
{
    reveal(building);
    let t = o[o.len() - 1];
    let e2 = e.update(t, finished_node(e, o, offset));
    assert(is_open(e, t));
    assert forall|i: int| 0 <= i < e2.len() implies {
        &&& (#[trigger] e2[i]).range.start <= offset
        &&& e2[i].is_token ==> !is_open(e2, i)
        &&& e2[i].is_token ==> e2[i].range.end - e2[i].range.start == utf8_len(e2[i].text)
        &&& !e2[i].is_token ==> e2[i].text.len() == 0
        &&& !is_open(e2, i) ==> {
            &&& i < e2[i].end_index <= e2.len()
            &&& e2[i].range.wf()
            &&& e2[i].range.end <= offset
            &&& e2[i].is_token ==> e2[i].end_index == i + 1
        }
    } by {
        if i != t {
            assert(e2[i] == e[i]);
        }
    }
    assert forall|i: int| 1 <= i < e2.len() implies {
        &&& (#[trigger] e2[i]).parent is Some
        &&& 0 <= e2[i].parent->0 < i
        &&& !e2[e2[i].parent->0].is_token
        &&& e2[e2[i].parent->0].range.start <= e2[i].range.start
        &&& !is_open(e2, e2[i].parent->0) ==> {
            &&& !is_open(e2, i)
            &&& e2[i].end_index <= e2[e2[i].parent->0].end_index
            &&& e2[i].range.end <= e2[e2[i].parent->0].range.end
        }
    } by {
        let p = e[i].parent->0;
        assert(e2[i].parent == e[i].parent);
        if p == t {
            if is_open(e, i) {
                assert(i <= t);
            }
            assert(e2[i] == e[i]);
        } else if i == t {
            assert(e2[p] == e[p]);
            let k = o.len() - 1;
            if k >= 1 {
                assert(e[o[k]].parent == Some(o[k - 1]));
                assert(is_open(e, o[k - 1]));
            } else {
                assert(o[0] == 0);
            }
        } else {
            assert(e2[i] == e[i]);
            assert(e2[p] == e[p]);
        }
    }
}

proof fn lemma_finish_node_nesting(e: Seq<ElementData>, o: Seq<int>, offset: u32)
    requires
        building(e, o, offset),
        o.len() > 0,
    ensures
        ({
            let e2 = e.update(o[o.len() - 1], finished_node(e, o, offset));
            &&& forall|k: int, i: int|
                #[trigger] covers(e2, k, i) && i < e2.len() ==> k <= e2[i].parent->0
            &&& forall|i: int, j: int|
                #[trigger] covers(e2, i, j) && j < e2.len() && !is_open(e2, i) ==> !is_open(e2, j)
                    && e2[j].end_index <= e2[i].end_index
            &&& forall|i: int, j: int| 0 <= i <= j < e2.len() ==> #[trigger] starts_before(e2, i, j)
            &&& forall|i: int|
                0 <= i < e2.len() && !is_open(e2, i) && (#[trigger] e2[i]).end_index < e2.len()
                    ==> e2[i].range.end <= e2[e2[i].end_index].range.start
        }),
{
    reveal(building);
    let t = o[o.len() - 1];
    let e2 = e.update(t, finished_node(e, o, offset));
    assert(is_open(e, t));
    assert forall|k: int, i: int| #[trigger] covers(e2, k, i) && i < e2.len() implies k
        <= e2[i].parent->0 by {
        assert(e2[i].parent == e[i].parent);
        if k == t {
            assert(covers(e, k, i));
        } else {
            assert(e2[k] == e[k]);
            assert(covers(e, k, i));
        }
    }
    assert forall|i: int, j: int|
        #[trigger] covers(e2, i, j) && j < e2.len() && !is_open(e2, i) implies !is_open(e2, j)
            && e2[j].end_index <= e2[i].end_index by {
        if i == t {
            if j != t {
                assert(e2[j] == e[j]);
                if is_open(e, j) {
                    assert(j <= t);
                }
            }
        } else {
            assert(e2[i] == e[i]);
            assert(covers(e, i, j));
            if j == t {
                assert(is_open(e, j));
            } else {
                assert(e2[j] == e[j]);
            }
        }
    }
    assert forall|i: int, j: int| 0 <= i <= j < e2.len() implies #[trigger] starts_before(
        e2,
        i,
        j,
    ) by {
        assert(starts_before(e, i, j));
    }
    assert forall|i: int|
        0 <= i < e2.len() && !is_open(e2, i) && (#[trigger] e2[i]).end_index
            < e2.len() implies e2[i].range.end <= e2[e2[i].end_index].range.start by {
        if i != t {
            assert(e2[i] == e[i]);
            let x = e[i].end_index;
            assert(e2[x].range.start == e[x].range.start);
        }
    }
}

proof fn lemma_finish_node(e: Seq<ElementData>, o: Seq<int>, offset: u32)
    requires
        building(e, o, offset),
        o.len() > 0,
    ensures
        building(e.update(o[o.len() - 1], finished_node(e, o, offset)), o.drop_last(), offset),
        0 <= o[o.len() - 1] < e.len(),
        !e[o[o.len() - 1]].is_token,
        e[o[o.len() - 1]].text.len() == 0,
        e[o[o.len() - 1]].range.start <= offset,
{
    lemma_finish_node_stack(e, o, offset);
    lemma_finish_node_elements(e, o, offset);
    lemma_finish_node_nesting(e, o, offset);
    reveal(building);
}

proof fn lemma_open_stack_increasing(o: Seq<int>, e: Seq<ElementData>, a: int, b: int)
    requires
        forall|k: int|
            1 <= k < o.len() ==> o[k - 1] < #[trigger] o[k] && e[o[k]].parent == Some(o[k - 1]),
        0 <= a <= b < o.len(),
    ensures
        o[a] <= o[b],
    decreases b - a,
{
    if a < b {
        lemma_open_stack_increasing(o, e, a, b - 1);
        assert(o[b - 1] < o[b]);
    }
}

/// Builds a syntax tree from a stream of `start_node`, `token` and
/// `finish_node` calls, as a parser emits them.
pub struct TreeBuilder {
    elements: Vec<Element>,
    open: Vec<usize>,
    offset: u32,
}

impl TreeBuilder {
    /// The table built so far; an open node has `end_index` 0.
    pub closed spec fn elements(&self) -> Seq<ElementData> {
        table_view(self.elements@)
    }

    /// The nodes started and not yet finished, innermost last.
    pub closed spec fn open_nodes(&self) -> Seq<int> {
        Seq::new(self.open@.len(), |k: int| self.open@[k] as int)
    }

    /// Number of bytes of text added so far.
    pub closed spec fn offset(&self) -> u32 {
        self.offset
    }

    /// The table built so far can be completed to a well-formed tree.
    pub open spec fn wf(&self) -> bool {
        building(self.elements(), self.open_nodes(), self.offset())
    }

    /// A builder that has not seen any event yet.
    pub fn new() -> (builder: Self)
        ensures
            builder.wf(),
            builder.elements().len() == 0,
            builder.open_nodes().len() == 0,
            builder.offset() == 0,
    {
        proof {
            reveal(building);
        }
        TreeBuilder { elements: Vec::new(), open: Vec::new(), offset: 0 }
    }

    /// Opens a node of the given kind under the innermost open node. The
    /// first node opened is the root; once the root is finished no further
    /// node is accepted.
    pub fn start_node(&mut self, kind: u16) -> (started: bool)
        requires
            old(self).wf(),
        ensures
            final(self).wf(),
            started == (old(self).elements().len() == 0 || old(self).open_nodes().len() > 0),
            final(self).offset() == old(self).offset(),
            started ==> final(self).elements() == old(self).elements().push(
                started_node(
                    old(self).elements(),
                    old(self).open_nodes(),
                    old(self).offset(),
                    kind,
                ),
            ),
            started ==> final(self).open_nodes() == old(self).open_nodes().push(
                old(self).elements().len() as int,
            ),
            !started ==> final(self).elements() == old(self).elements(),
            !started ==> final(self).open_nodes() == old(self).open_nodes(),
    {
        if self.elements.len() > 0 && self.open.len() == 0 {
            return false;
        }
        let parent = if self.open.len() > 0 {
            Some(self.open[self.open.len() - 1])
        } else {
            None
        };
        let index = self.elements.len();
        let element = Element::node(kind, parent, 0, TextRange::empty(self.offset));
        proof {
            lemma_start_node(self.elements(), self.open_nodes(), self.offset(), kind);
            assert(element@ == started_node(
                self.elements(),
                self.open_nodes(),
                self.offset(),
                kind,
            ));
        }
        let ghost before = *self;
        self.elements.push(element);
        self.open.push(index);
        proof {
            assert(self.elements() =~= before.elements().push(element@));
            assert(self.open_nodes() =~= before.open_nodes().push(index as int));
        }
        true
    }

    /// Adds a token with the given text under the innermost open node. It is
    /// refused when no node is open, when the text would end beyond the
    /// largest offset, or when the table cannot grow.
    pub fn token(&mut self, kind: u16, text: &str) -> (added: bool)
        requires
            old(self).wf(),
        ensures
            final(self).wf(),
            added == (old(self).open_nodes().len() > 0 && old(self).offset() + utf8_len(text@)
                <= u32::MAX && old(self).elements().len() < usize::MAX),
            final(self).open_nodes() == old(self).open_nodes(),
            added ==> final(self).elements() == old(self).elements().push(
                added_token(
                    old(self).elements(),
                    old(self).open_nodes(),
                    old(self).offset(),
                    kind,
                    text@,
                ),
            ),
            added ==> final(self).offset() == old(self).offset() + utf8_len(text@),
            !added ==> final(self).elements() == old(self).elements(),
            !added ==> final(self).offset() == old(self).offset(),
    {
        if self.open.len() == 0 {
            return false;
        }
        let width = match str_width(text) {
            Some(width) => width,
            None => {
                return false;
            },
        };
        if width > u32::MAX - self.offset {
            return false;
        }
        let index = self.elements.len();
        if index == usize::MAX {
            return false;
        }
        proof {
            lemma_token(self.elements(), self.open_nodes(), self.offset(), kind, text@);
        }
        let element = Element::token(
            kind,
            self.open[self.open.len() - 1],
            index + 1,
            TextRange::new(self.offset, self.offset + width),
            text.to_owned(),
        );
        proof {
            assert(element@ == added_token(
                self.elements(),
                self.open_nodes(),
                self.offset(),
                kind,
                text@,
            ));
        }
        let ghost before = *self;
        self.elements.push(element);
        self.offset = self.offset + width;
        proof {
            assert(self.elements() =~= before.elements().push(element@));
            assert(self.open_nodes() =~= before.open_nodes());
        }
        true
    }

    /// Closes the innermost open node: its subtree ends with the last
    /// element added and its range with the last byte added.
    pub fn finish_node(&mut self) -> (finished: bool)
        requires
            old(self).wf(),
        ensures
            final(self).wf(),
            finished == (old(self).open_nodes().len() > 0),
            final(self).offset() == old(self).offset(),
            finished ==> final(self).elements() == old(self).elements().update(
                old(self).open_nodes()[old(self).open_nodes().len() - 1],
                finished_node(old(self).elements(), old(self).open_nodes(), old(self).offset()),
            ),
            finished ==> final(self).open_nodes() == old(self).open_nodes().drop_last(),
            !finished ==> final(self).elements() == old(self).elements(),
            !finished ==> final(self).open_nodes() == old(self).open_nodes(),
    {
        if self.open.len() == 0 {
            return false;
        }
        let ghost before = *self;
        proof {
            lemma_finish_node(self.elements(), self.open_nodes(), self.offset());
        }
        let top = self.open[self.open.len() - 1];
        assert(top == self.open_nodes()[self.open_nodes().len() - 1]);
        assert(self.elements()[top as int] == self.elements@[top as int]@);
        let closed = self.elements[top].ended(self.elements.len(), self.offset);
        proof {
            assert(closed@ == finished_node(self.elements(), self.open_nodes(), self.offset()));
        }
        self.elements.set(top, closed);
        self.open.pop();
        proof {
            assert(self.elements() =~= before.elements().update(top as int, closed@));
            assert(self.open_nodes() =~= before.open_nodes().drop_last());
        }
        true
    }

    /// The finished tree, if a root was started and every node was finished.
    pub fn finish(self) -> (tree: Option<SyntaxTree>)
        requires
            self.wf(),
        ensures
            tree is Some == (self.elements().len() > 0 && self.open_nodes().len() == 0),
            tree matches Some(t) ==> t.wf() && t@ == self.elements(),
    {
        if self.elements.len() > 0 && self.open.len() == 0 {
            proof {
                assert(self.open_nodes() =~= Seq::<int>::empty());
                lemma_finished_is_well_formed(self.elements(), self.offset());
            }
            Some(SyntaxTree::from_elements(self.elements))
        } else {
            None
        }
    }
}

} // verus!
