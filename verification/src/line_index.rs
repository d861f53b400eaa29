//! Conversion between byte offsets and line/column positions.
//!
//! Offsets count UTF-8 bytes from the start of the text. A position is a
//! zero-based line and a column in UTF-16 code units, as editors send it.
//! Both name a boundary between two characters, and only boundaries can be
//! converted: an offset inside a character, a column inside a surrogate
//! pair or past the end of its line, and a line past the last one have no
//! counterpart.

use crate::syntax::offset::{
    char_width, lemma_utf8_prefix_width_bounds, lemma_utf8_prefix_width_monotone, utf8_len,
    utf8_prefix_width, TextRange,
};
use crate::syntax::text::{line_at, Position, Range};
use vstd::prelude::*;

verus! {

/// Number of UTF-16 code units that `c` takes.
pub open spec fn utf16_width(c: char) -> int {
    if (c as u32) < 0x10000 {
        1
    } else {
        2
    }
}

/// Number of UTF-16 code units between the last line break before the
/// boundary `k` and `k`.
pub open spec fn utf16_column_at(text: Seq<char>, k: int) -> int
    decreases k,
{
    if k <= 0 {
        0
    } else if text[k - 1] == '\n' {
        0
    } else {
        utf16_column_at(text, k - 1) + utf16_width(text[k - 1])
    }
}

/// The boundary before character `k` of `text` lies at position `p`.
pub open spec fn is_boundary_of_position(text: Seq<char>, k: int, p: Position) -> bool {
    &&& 0 <= k <= text.len()
    &&& line_at(text, k) == p.line
    &&& utf16_column_at(text, k) == p.character
}

/// The boundary before character `k` of `text` lies at byte offset `o`.
pub open spec fn is_boundary_of_offset(text: Seq<char>, k: int, o: u32) -> bool {
    &&& 0 <= k <= text.len()
    &&& utf8_prefix_width(text, k) == o
}

/// The position names a boundary of the text.
pub open spec fn is_valid_position(text: Seq<char>, p: Position) -> bool {
    exists|k: int| is_boundary_of_position(text, k, p)
}

/// The offset names a boundary of the text.
pub open spec fn is_valid_offset(text: Seq<char>, o: u32) -> bool {
    exists|k: int| is_boundary_of_offset(text, k, o)
}

/// The byte offset of the boundary at position `p`, if `p` names one.
pub open spec fn position_to_offset(text: Seq<char>, p: Position) -> Option<u32> {
    if is_valid_position(text, p) {
        let k = choose|k: int| is_boundary_of_position(text, k, p);
        Some(utf8_prefix_width(text, k) as u32)
    } else {
        None
    }
}

/// The position of the boundary at byte offset `o`, if `o` names one.
pub open spec fn offset_to_position(text: Seq<char>, o: u32) -> Option<Position> {
    if is_valid_offset(text, o) {
        let k = choose|k: int| is_boundary_of_offset(text, k, o);
        Some(Position { line: line_at(text, k) as u32, character: utf16_column_at(text, k) as u32 })
    } else {
        None
    }
}

/// The positions of the two ends of a range of offsets, if both name a
/// boundary of the text.
pub open spec fn range_to_positions(text: Seq<char>, range: TextRange) -> Option<Range> {
    match (offset_to_position(text, range.start), offset_to_position(text, range.end)) {
        (Some(start), Some(end)) => Some(Range { start, end }),
        _ => None,
    }
}

/// Line `l1`, column `c1` comes before line `l2`, column `c2`.
pub open spec fn before(l1: int, c1: int, l2: int, c2: int) -> bool {
    l1 < l2 || (l1 == l2 && c1 < c2)
}

/// Lines and columns are never negative, and a column takes no more code
/// units than the text before it takes bytes.
pub proof fn lemma_boundary_bounds(text: Seq<char>, k: int)
    requires
        0 <= k,
    ensures
        0 <= line_at(text, k) <= k,
        0 <= utf16_column_at(text, k) <= utf8_prefix_width(text, k),
    decreases k,
{
    if k > 0 {
        lemma_boundary_bounds(text, k - 1);
    }
}

/// A later boundary lies at a later position.
pub proof fn lemma_positions_increase(text: Seq<char>, a: int, b: int)
    requires
        0 <= a < b,
    ensures
        before(
            line_at(text, a),
            utf16_column_at(text, a),
            line_at(text, b),
            utf16_column_at(text, b),
        ),
    decreases b - a,
{
    if a + 1 < b {
        lemma_positions_increase(text, a, b - 1);
    }
}

/// A later boundary lies at a larger offset.
pub proof fn lemma_offsets_increase(text: Seq<char>, a: int, b: int)
    requires
        0 <= a < b,
    ensures
        utf8_prefix_width(text, a) < utf8_prefix_width(text, b),
{
    lemma_utf8_prefix_width_monotone(text, a, b);
}

/// A position strictly between those of two neighbouring boundaries, or
/// after that of the last boundary, names no boundary.
proof fn lemma_position_gap(text: Seq<char>, k: int, p: Position)
    requires
        0 <= k <= text.len(),
        before(line_at(text, k), utf16_column_at(text, k), p.line as int, p.character as int),
        k == text.len() || before(
            p.line as int,
            p.character as int,
            line_at(text, k + 1),
            utf16_column_at(text, k + 1),
        ),
    ensures
        !is_valid_position(text, p),
{
    assert forall|j: int| !is_boundary_of_position(text, j, p) by {
        if 0 <= j <= text.len() {
            if j < k {
                lemma_positions_increase(text, j, k);
            } else if j > k + 1 {
                lemma_positions_increase(text, k + 1, j);
            }
        }
    }
}

/// An offset strictly between those of two neighbouring boundaries, or
/// after that of the last boundary, names no boundary.
proof fn lemma_offset_gap(text: Seq<char>, k: int, o: u32)
    requires
        0 <= k <= text.len(),
        utf8_prefix_width(text, k) < o,
        k == text.len() || o < utf8_prefix_width(text, k + 1),
    ensures
        !is_valid_offset(text, o),
{
    assert forall|j: int| !is_boundary_of_offset(text, j, o) by {
        if 0 <= j <= text.len() {
            if j < k {
                lemma_offsets_increase(text, j, k);
            } else if j > k + 1 {
                lemma_offsets_increase(text, k + 1, j);
            }
        }
    }
}

/// A boundary found at position `p` is the one that `position_to_offset`
/// speaks of.
proof fn lemma_position_found(text: Seq<char>, k: int, p: Position)
    requires
        is_boundary_of_position(text, k, p),
    ensures
        position_to_offset(text, p) == Some(utf8_prefix_width(text, k) as u32),
{
    let j = choose|j: int| is_boundary_of_position(text, j, p);
    if j < k {
        lemma_positions_increase(text, j, k);
    } else if k < j {
        lemma_positions_increase(text, k, j);
    }
}

/// A boundary found at offset `o` is the one that `offset_to_position`
/// speaks of.
proof fn lemma_offset_found(text: Seq<char>, k: int, o: u32)
    requires
        is_boundary_of_offset(text, k, o),
    ensures
        offset_to_position(text, o) == Some(
            Position { line: line_at(text, k) as u32, character: utf16_column_at(text, k) as u32 },
        ),
{
    let j = choose|j: int| is_boundary_of_offset(text, j, o);
    if j < k {
        lemma_offsets_increase(text, j, k);
    } else if k < j {
        lemma_offsets_increase(text, k, j);
    }
}

/// Converting a valid position to its offset and back gives the position
/// again, whatever characters the text holds.
pub proof fn lemma_position_round_trip(text: Seq<char>, p: Position)
    requires
        utf8_len(text) <= u32::MAX,
        is_valid_position(text, p),
    ensures
        position_to_offset(text, p) is Some,
        offset_to_position(text, position_to_offset(text, p)->0) == Some(p),
{
    let k = choose|k: int| is_boundary_of_position(text, k, p);
    lemma_position_found(text, k, p);
    lemma_utf8_prefix_width_monotone(text, k, text.len() as int);
    lemma_utf8_prefix_width_bounds(text, k);
    let o = utf8_prefix_width(text, k) as u32;
    assert(is_boundary_of_offset(text, k, o));
    lemma_offset_found(text, k, o);
}

/// Converting a valid offset to its position and back gives the offset
/// again.
pub proof fn lemma_offset_round_trip(text: Seq<char>, o: u32)
    requires
        utf8_len(text) <= u32::MAX,
        is_valid_offset(text, o),
    ensures
        offset_to_position(text, o) is Some,
        position_to_offset(text, offset_to_position(text, o)->0) == Some(o),
{
    let k = choose|k: int| is_boundary_of_offset(text, k, o);
    lemma_offset_found(text, k, o);
    lemma_boundary_bounds(text, k);
    lemma_utf8_prefix_width_bounds(text, k);
    let p = Position { line: line_at(text, k) as u32, character: utf16_column_at(text, k) as u32 };
    assert(is_boundary_of_position(text, k, p));
    lemma_position_found(text, k, p);
}

/// Number of UTF-16 code units that `c` takes.
pub fn char_utf16_width(c: char) -> (width: u32)
    ensures
        width == utf16_width(c),
{
    let code: u32 = c as u32;
    if code < 0x10000 {
        1
    } else {
        2
    }
}

/// The characters of a text together with the boundary and the byte offset
/// at which each of its lines starts.
pub struct LineIndex {
    chars: Vec<char>,
    line_starts: Vec<usize>,
    line_offsets: Vec<u32>,
}

impl LineIndex {
    /// The text that the index was made of.
    pub closed spec fn text(&self) -> Seq<char> {
        self.chars@
    }

    /// The tables agree with the text.
    pub closed spec fn wf(&self) -> bool {
        &&& utf8_len(self.chars@) <= u32::MAX
        &&& self.line_starts@.len() == line_at(self.chars@, self.chars@.len() as int) + 1
        &&& self.line_offsets@.len() == self.line_starts@.len()
        &&& forall|l: int|
            0 <= l < self.line_starts@.len() ==> {
                &&& 0 <= (#[trigger] self.line_starts@[l]) <= self.chars@.len()
                &&& line_at(self.chars@, self.line_starts@[l] as int) == l
                &&& utf16_column_at(self.chars@, self.line_starts@[l] as int) == 0
                &&& utf8_prefix_width(self.chars@, self.line_starts@[l] as int)
                    == self.line_offsets@[l]
            }
    }

    /// The text of a well-formed index is short enough for 32-bit offsets.
    pub proof fn lemma_wf_text_fits(&self)
        requires
            self.wf(),
        ensures
            utf8_len(self.text()) <= u32::MAX,
    {
    }

    /// Indexes a text, unless it is longer than offsets can express.
    pub fn new(text: &str) -> (index: Option<LineIndex>)
        ensures
            index is Some <==> utf8_len(text@) <= u32::MAX,
            index matches Some(ix) ==> ix.wf() && ix.text() == text@,
    {
        let mut chars: Vec<char> = Vec::new();
        let mut line_starts: Vec<usize> = Vec::new();
        let mut line_offsets: Vec<u32> = Vec::new();
        line_starts.push(0);
        line_offsets.push(0);
        let mut offset: u32 = 0;
        for c in it: text.chars()
            invariant
                it.seq() == text@,
                chars@ == it.seq().take(it.index()),
                offset == utf8_prefix_width(text@, it.index()),
                line_starts@.len() == line_at(text@, it.index()) + 1,
                line_offsets@.len() == line_starts@.len(),
                forall|l: int|
                    0 <= l < line_starts@.len() ==> {
                        &&& 0 <= (#[trigger] line_starts@[l]) <= it.index()
                        &&& line_at(text@, line_starts@[l] as int) == l
                        &&& utf16_column_at(text@, line_starts@[l] as int) == 0
                        &&& utf8_prefix_width(text@, line_starts@[l] as int) == line_offsets@[l]
                    },
        {
            let width = char_width(c);
            if offset > u32::MAX - width {
                proof {
                    lemma_utf8_prefix_width_monotone(text@, it.index() + 1, text@.len() as int);
                }
                return None;
            }
            offset = offset + width;
            chars.push(c);
            if c == '\n' {
                line_starts.push(chars.len());
                line_offsets.push(offset);
            }
        }
        assert(chars@ =~= text@);
        Some(LineIndex { chars, line_starts, line_offsets })
    }

    /// The byte offset of a position, if the position names a boundary of
    /// the text.
    pub fn position_to_offset(&self, position: Position) -> (offset: Option<u32>)
        requires
            self.wf(),
        ensures
            offset == position_to_offset(self.text(), position),
    {
        let ghost text = self.chars@;
        let len = self.chars.len();
        let line = position.line as usize;
        if line >= self.line_starts.len() {
            proof {
                lemma_position_gap(text, len as int, position);
            }
            return None;
        }
        let mut k = self.line_starts[line];
        let mut offset = self.line_offsets[line];
        let mut column: u32 = 0;
        while k < len && column < position.character && self.chars[k] != '\n'
            invariant
                self.wf(),
                text == self.chars@,
                len == text.len(),
                0 <= k <= len,
                line_at(text, k as int) == position.line,
                column == utf16_column_at(text, k as int),
                offset == utf8_prefix_width(text, k as int),
                column > 0 ==> k > 0 && before(
                    line_at(text, k - 1),
                    utf16_column_at(text, k - 1),
                    position.line as int,
                    position.character as int,
                ),
            decreases len - k,
        {
            proof {
                lemma_utf8_prefix_width_monotone(text, k as int + 1, len as int);
                lemma_boundary_bounds(text, k as int + 1);
            }
            let c = self.chars[k];
            column = column + char_utf16_width(c);
            offset = offset + char_width(c);
            k = k + 1;
        }
        if column == position.character {
            proof {
                lemma_position_found(text, k as int, position);
            }
            Some(offset)
        } else {
            proof {
                if column > position.character {
                    lemma_position_gap(text, k - 1, position);
                } else {
                    lemma_position_gap(text, k as int, position);
                }
            }
            None
        }
    }

    /// The positions of the two ends of a range of offsets, if both name a
    /// boundary of the text.
    pub fn range_to_positions(&self, range: TextRange) -> (positions: Option<Range>)
        requires
            self.wf(),
        ensures
            positions == range_to_positions(self.text(), range),
    {
        let start = match self.offset_to_position(range.start) {
            Some(start) => start,
            None => {
                return None;
            },
        };
        match self.offset_to_position(range.end) {
            Some(end) => Some(Range { start, end }),
            None => None,
        }
    }

    /// The position of a byte offset, if the offset names a boundary of the
    /// text.
    pub fn offset_to_position(&self, offset: u32) -> (position: Option<Position>)
        requires
            self.wf(),
        ensures
            position == offset_to_position(self.text(), offset),
    {
        let ghost text = self.chars@;
        let len = self.chars.len();
        let mut low: usize = 0;
        let mut high: usize = self.line_offsets.len();
        proof {
            lemma_boundary_bounds(text, len as int);
            lemma_utf8_prefix_width_bounds(text, len as int);
            let first = self.line_starts@[0] as int;
            if first > 0 {
                lemma_positions_increase(text, 0, first);
            }
        }
        while high - low > 1
            invariant
                self.wf(),
                0 <= low < high <= self.line_offsets@.len(),
                self.line_offsets@[low as int] <= offset,
            decreases high - low,
        {
            let middle = low + (high - low) / 2;
            if self.line_offsets[middle] <= offset {
                low = middle;
            } else {
                high = middle;
            }
        }
        let mut k = self.line_starts[low];
        let mut reached = self.line_offsets[low];
        proof {
            lemma_boundary_bounds(text, len as int);
            lemma_utf8_prefix_width_bounds(text, len as int);
            assert(line_at(text, self.line_starts@[low as int] as int) == low);
        }
        let mut line: u32 = low as u32;
        let mut column: u32 = 0;
        while k < len && reached < offset
            invariant
                self.wf(),
                text == self.chars@,
                len == text.len(),
                0 <= k <= len,
                line == line_at(text, k as int),
                column == utf16_column_at(text, k as int),
                reached == utf8_prefix_width(text, k as int),
                reached > offset ==> k > 0 && utf8_prefix_width(text, k - 1) < offset,
            decreases len - k,
        {
            proof {
                lemma_utf8_prefix_width_monotone(text, k as int + 1, len as int);
                lemma_boundary_bounds(text, k as int + 1);
                lemma_utf8_prefix_width_bounds(text, k as int + 1);
            }
            let c = self.chars[k];
            if c == '\n' {
                line = line + 1;
                column = 0;
            } else {
                column = column + char_utf16_width(c);
            }
            reached = reached + char_width(c);
            k = k + 1;
        }
        if reached == offset {
            proof {
                lemma_offset_found(text, k as int, offset);
            }
            Some(Position { line, character: column })
        } else {
            proof {
                if reached > offset {
                    lemma_offset_gap(text, k - 1, offset);
                } else {
                    lemma_offset_gap(text, k as int, offset);
                }
            }
            None
        }
    }
}

} // verus!
