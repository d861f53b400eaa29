//! Byte offsets into a text: ranges between two offsets and the number of
//! bytes that characters take in UTF-8.

use vstd::prelude::*;

verus! {

/// A half-open range of byte offsets.
#[derive(Debug, PartialEq, Eq, Clone, Copy, Hash, Structural)]
pub struct TextRange {
    pub start: u32,
    pub end: u32,
}

impl TextRange {
    /// The start does not lie after the end.
    pub open spec fn wf(self) -> bool {
        self.start <= self.end
    }

    /// `offset` lies in the range, the end excluded.
    pub open spec fn spec_contains(self, offset: u32) -> bool {
        self.start <= offset < self.end
    }

    /// `offset` lies in the range or at its end.
    pub open spec fn spec_contains_inclusive(self, offset: u32) -> bool {
        self.start <= offset <= self.end
    }

    /// The range from `start` to `end`.
    pub fn new(start: u32, end: u32) -> (range: TextRange)
        requires
            start <= end,
        ensures
            range.start == start,
            range.end == end,
            range.wf(),
    {
        TextRange { start, end }
    }

    /// The empty range at `offset`.
    pub fn empty(offset: u32) -> (range: TextRange)
        ensures
            range.start == offset,
            range.end == offset,
            range.wf(),
    {
        TextRange { start: offset, end: offset }
    }

    /// The offset of the first byte.
    pub fn start(&self) -> (start: u32)
        ensures
            start == self.start,
    {
        self.start
    }

    /// The offset just past the last byte.
    pub fn end(&self) -> (end: u32)
        ensures
            end == self.end,
    {
        self.end
    }

    /// Number of bytes in the range.
    pub fn len(&self) -> (len: u32)
        requires
            self.wf(),
        ensures
            len == self.end - self.start,
    {
        self.end - self.start
    }

    /// Whether the range holds no byte.
    pub fn is_empty(&self) -> (empty: bool)
        ensures
            empty == (self.start == self.end),
    {
        self.start == self.end
    }

    /// Whether `offset` lies in the range, the end excluded.
    pub fn contains(&self, offset: u32) -> (inside: bool)
        ensures
            inside == self.spec_contains(offset),
    {
        self.start <= offset && offset < self.end
    }

    /// Whether `offset` lies in the range or at its end.
    pub fn contains_inclusive(&self, offset: u32) -> (inside: bool)
        ensures
            inside == self.spec_contains_inclusive(offset),
    {
        self.start <= offset && offset <= self.end
    }
}

/// Number of bytes that the UTF-8 encoding of `c` takes.
pub open spec fn utf8_width(c: char) -> int {
    if (c as u32) < 0x80 {
        1
    } else if (c as u32) < 0x800 {
        2
    } else if (c as u32) < 0x10000 {
        3
    } else {
        4
    }
}

/// Number of bytes that the UTF-8 encoding of the first `k` characters of
/// `text` takes.
pub open spec fn utf8_prefix_width(text: Seq<char>, k: int) -> int
    decreases k,
{
    if k <= 0 {
        0
    } else {
        utf8_prefix_width(text, k - 1) + utf8_width(text[k - 1])
    }
}

/// Number of bytes that the UTF-8 encoding of `text` takes.
pub open spec fn utf8_len(text: Seq<char>) -> int {
    utf8_prefix_width(text, text.len() as int)
}

/// A character takes between one and four bytes.
pub proof fn lemma_utf8_prefix_width_bounds(text: Seq<char>, k: int)
    requires
        0 <= k,
    ensures
        k <= utf8_prefix_width(text, k) <= 4 * k,
    decreases k,
{
    if k > 0 {
        lemma_utf8_prefix_width_bounds(text, k - 1);
    }
}

/// A longer prefix takes more bytes: at least one for each further
/// character.
pub proof fn lemma_utf8_prefix_width_monotone(text: Seq<char>, i: int, j: int)
    requires
        0 <= i <= j,
    ensures
        utf8_prefix_width(text, i) + (j - i) <= utf8_prefix_width(text, j),
    decreases j - i,
{
    if i < j {
        lemma_utf8_prefix_width_monotone(text, i, j - 1);
    }
}

/// Number of bytes that the UTF-8 encoding of `c` takes.
pub fn char_width(c: char) -> (width: u32)
    ensures
        width == utf8_width(c),
{
    let code: u32 = c as u32;
    if code < 0x80 {
        1
    } else if code < 0x800 {
        2
    } else if code < 0x10000 {
        3
    } else {
        4
    }
}

/// The UTF-8 length of `text`, if it fits in 32 bits.
pub fn str_width(text: &str) -> (width: Option<u32>)
    ensures
        match width {
            Some(w) => w == utf8_len(text@),
            None => utf8_len(text@) > u32::MAX,
        },
{
    let mut total: u32 = 0;
    for c in it: text.chars()
        invariant
            it.seq() == text@,
            total == utf8_prefix_width(text@, it.index()),
    {
        let w = char_width(c);
        if total > u32::MAX - w {
            proof {
                lemma_utf8_prefix_width_monotone(text@, it.index() + 1, text@.len() as int);
            }
            return None;
        }
        total = total + w;
    }
    Some(total)
}

} // verus!
