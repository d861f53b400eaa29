//! Line/column positions, spans and a character stream that tracks both.

use vstd::prelude::*;

verus! {

/// A zero-based line and column inside a text.
#[derive(Debug, PartialEq, Eq, Clone, Copy, PartialOrd, Ord, Hash, Structural)]
pub struct Position {
    pub line: u32,
    pub character: u32,
}

impl Position {
    /// The position at a line and a column.
    pub fn new(line: u32, character: u32) -> (position: Position)
        ensures
            position.line == line,
            position.character == character,
    {
        Position { line, character }
    }

    /// Lexicographic order by line, then by column.
    pub open spec fn precedes(self, other: Position) -> bool {
        self.line < other.line || (self.line == other.line && self.character < other.character)
    }

    /// Whether this position comes before `other`, by line and then by column.
    pub fn is_before(&self, other: &Position) -> (before: bool)
        ensures
            before == self.precedes(*other),
    {
        self.line < other.line || (self.line == other.line && self.character < other.character)
    }
}

/// A half-open range between two positions.
#[derive(Debug, PartialEq, Eq, Clone, Copy, Hash, Structural)]
pub struct Range {
    pub start: Position,
    pub end: Position,
}

impl Range {
    /// The range between two positions.
    pub fn new(start: Position, end: Position) -> (range: Range)
        ensures
            range.start == start,
            range.end == end,
    {
        Range { start, end }
    }

    /// The start does not lie after the end.
    pub open spec fn wf(self) -> bool {
        !self.end.precedes(self.start)
    }
}

/// Number of line breaks among the first `k` characters of `text`.
pub open spec fn line_at(text: Seq<char>, k: int) -> int
    decreases k,
{
    if k <= 0 {
        0
    } else if text[k - 1] == '\n' {
        line_at(text, k - 1) + 1
    } else {
        line_at(text, k - 1)
    }
}

/// Number of characters between the last line break before index `k` and `k`.
pub open spec fn column_at(text: Seq<char>, k: int) -> int
    decreases k,
{
    if k <= 0 {
        0
    } else if text[k - 1] == '\n' {
        0
    } else {
        column_at(text, k - 1) + 1
    }
}

/// The position reached after reading the first `k` characters of `text`.
pub open spec fn position_at(text: Seq<char>, k: int) -> Position {
    Position { line: line_at(text, k) as u32, character: column_at(text, k) as u32 }
}

/// Lines and columns are never negative and never exceed the number of
/// characters read.
pub proof fn lemma_position_bounds(text: Seq<char>, k: int)
    requires
        0 <= k,
    ensures
        0 <= line_at(text, k) <= k,
        0 <= column_at(text, k) <= k,
    decreases k,
{
    if k > 0 {
        lemma_position_bounds(text, k - 1);
    }
}

/// Reading on never leads to an earlier position.
pub proof fn lemma_position_monotone(text: Seq<char>, a: int, b: int)
    requires
        0 <= a <= b <= u32::MAX,
    ensures
        !position_at(text, b).precedes(position_at(text, a)),
    decreases b - a,
{
    lemma_position_bounds(text, a);
    lemma_position_bounds(text, b);
    if a < b {
        lemma_position_bounds(text, b - 1);
        lemma_position_monotone(text, a, b - 1);
    }
}

/// The index just past the first line break at or after index `i`, or the
/// length of `text` when no line break follows.
pub open spec fn next_line_start(text: Seq<char>, i: int) -> int
    decreases text.len() - i,
{
    if i < 0 || i >= text.len() {
        i
    } else if text[i] == '\n' {
        i + 1
    } else {
        next_line_start(text, i + 1)
    }
}

/// The least index at or after `i` whose position does not precede `target`,
/// or the length of `text` when every remaining position precedes it.
pub open spec fn seek_index(text: Seq<char>, i: int, target: Position) -> int
    decreases text.len() - i,
{
    if i < 0 || i >= text.len() || !position_at(text, i).precedes(target) {
        i
    } else {
        seek_index(text, i + 1, target)
    }
}

/// A stretch of text together with the positions of its two ends.
#[derive(Debug, PartialEq, Eq, Clone)]
pub struct Span {
    pub range: Range,
    pub text: String,
}

impl Span {
    /// A span with its range and its text.
    pub fn new(range: Range, text: String) -> (span: Span)
        ensures
            span.range == range,
            span.text == text,
    {
        Span { range, text }
    }

    /// The position of the first character.
    pub fn start(&self) -> (position: Position)
        ensures
            position == self.range.start,
    {
        self.range.start
    }

    /// The position after the last character.
    pub fn end(&self) -> (position: Position)
        ensures
            position == self.range.end,
    {
        self.range.end
    }
}

/// A cursor over the characters of a text that keeps the line and column of
/// the next character and remembers where the current span began.
pub struct CharStream<'a> {
    text: &'a str,
    chars: Vec<char>,
    current_position: Position,
    current_index: usize,
    start_position: Position,
    start_index: usize,
}

impl<'a> CharStream<'a> {
    /// The whole text the stream reads from.
    pub closed spec fn source(&self) -> Seq<char> {
        self.text@
    }

    /// Number of characters read so far.
    pub closed spec fn index(&self) -> int {
        self.current_index as int
    }

    /// Index of the character at which the current span starts.
    pub closed spec fn span_start(&self) -> int {
        self.start_index as int
    }

    /// The stream's bookkeeping agrees with its text.
    pub closed spec fn wf(&self) -> bool {
        &&& self.chars@ == self.text@
        &&& self.text@.len() <= u32::MAX
        &&& self.start_index <= self.current_index <= self.chars@.len()
        &&& self.current_position == position_at(self.text@, self.current_index as int)
        &&& self.start_position == position_at(self.text@, self.start_index as int)
    }

    /// The next character, if any is left.
    pub open spec fn head(&self) -> Option<char> {
        if self.index() < self.source().len() {
            Some(self.source()[self.index()])
        } else {
            None
        }
    }

    /// The span start does not lie after the next character, and the text is
    /// short enough for 32-bit lines and columns.
    pub proof fn lemma_wf_bounds(&self)
        requires
            self.wf(),
        ensures
            0 <= self.span_start() <= self.index() <= self.source().len() <= u32::MAX,
    {
    }

    /// A stream at the start of `text`. The text must be short enough for
    /// 32-bit lines and columns.
    pub fn new(text: &'a str) -> (stream: Self)
        requires
            text@.len() <= u32::MAX,
        ensures
            stream.wf(),
            stream.source() == text@,
            stream.index() == 0,
            stream.span_start() == 0,
    {
        let mut chars: Vec<char> = Vec::new();
        for c in it: text.chars()
            invariant
                it.seq() == text@,
                chars@ == it.seq().take(it.index()),
        {
            chars.push(c);
        }
        assert(chars@ =~= text@);
        CharStream {
            text,
            chars,
            current_position: Position::new(0, 0),
            current_index: 0,
            start_position: Position::new(0, 0),
            start_index: 0,
        }
    }

    /// The next character, without reading it.
    pub fn peek(&mut self) -> (next: Option<char>)
        requires
            old(self).wf(),
        ensures
            final(self).wf(),
            final(self).source() == old(self).source(),
            final(self).index() == old(self).index(),
            final(self).span_start() == old(self).span_start(),
            next == old(self).head(),
    {
        if self.current_index < self.chars.len() {
            Some(self.chars[self.current_index])
        } else {
            None
        }
    }

    /// Reads one character and moves the position past it.
    pub fn next(&mut self) -> (read: Option<char>)
        requires
            old(self).wf(),
        ensures
            final(self).wf(),
            final(self).source() == old(self).source(),
            final(self).span_start() == old(self).span_start(),
            read == old(self).head(),
            final(self).index() == old(self).index() + if read is Some { 1int } else { 0int },
    {
        if self.current_index < self.chars.len() {
            let c = self.chars[self.current_index];
            proof {
                lemma_position_bounds(self.text@, self.current_index as int);
                lemma_position_bounds(self.text@, self.current_index as int + 1);
            }
            self.current_index = self.current_index + 1;
            self.update_position(c);
            Some(c)
        } else {
            None
        }
    }

    /// Whether a character is left and the predicate accepts it.
    pub fn satifies<P: FnOnce(&char) -> bool>(&mut self, predicate: P) -> (accepted: bool)
        requires
            old(self).wf(),
            old(self).head() matches Some(c) ==> predicate.requires((&c,)),
        ensures
            final(self).wf(),
            final(self).source() == old(self).source(),
            final(self).index() == old(self).index(),
            final(self).span_start() == old(self).span_start(),
            match old(self).head() {
                Some(c) => predicate.ensures((&c,), accepted),
                None => !accepted,
            },
    {
        match self.peek() {
            Some(c) => predicate(&c),
            None => false,
        }
    }

    /// Reads up to and including the next line break, or to the end of the
    /// text when the current line is the last one.
    pub fn skip_rest_of_line(&mut self)
        requires
            old(self).wf(),
        ensures
            final(self).wf(),
            final(self).source() == old(self).source(),
            final(self).span_start() == old(self).span_start(),
            final(self).index() == next_line_start(old(self).source(), old(self).index()),
    {
        loop
            invariant_except_break
                next_line_start(self.source(), self.index()) == next_line_start(
                    old(self).source(),
                    old(self).index(),
                ),
            invariant
                self.wf(),
                self.source() == old(self).source(),
                self.span_start() == old(self).span_start(),
                old(self).index() <= self.index(),
            ensures
                self.index() == next_line_start(old(self).source(), old(self).index()),
            decreases self.source().len() - self.index(),
        {
            match self.peek() {
                Some('\n') => {
                    self.next();
                    break ;
                },
                Some(_) => {
                    self.next();
                },
                None => {
                    break ;
                },
            }
        }
    }

    /// Starts a new span at the current position.
    pub fn start_span(&mut self)
        requires
            old(self).wf(),
        ensures
            final(self).wf(),
            final(self).source() == old(self).source(),
            final(self).index() == old(self).index(),
            final(self).span_start() == old(self).index(),
    {
        self.start_index = self.current_index;
        self.start_position = self.current_position;
    }

    /// The text read since the span was started, with the positions of its
    /// first character and of the character after its last.
    pub fn end_span(&mut self) -> (span: Span)
        requires
            old(self).wf(),
        ensures
            final(self).wf(),
            final(self).source() == old(self).source(),
            final(self).index() == old(self).index(),
            final(self).span_start() == old(self).span_start(),
            span.range.start == position_at(old(self).source(), old(self).span_start()),
            span.range.end == position_at(old(self).source(), old(self).index()),
            span.range.wf(),
            span.text@ == old(self).source().subrange(old(self).span_start(), old(self).index()),
    {
        proof {
            lemma_position_monotone(
                self.text@,
                self.start_index as int,
                self.current_index as int,
            );
        }
        let range = Range::new(self.start_position, self.current_position);
        let text = self.text.substring_char(self.start_index, self.current_index);
        Span::new(range, text.to_owned())
    }

    /// Reads characters until the current position no longer precedes
    /// `position`, or until the text is exhausted.
    pub fn seek(&mut self, position: Position)
        requires
            old(self).wf(),
        ensures
            final(self).wf(),
            final(self).source() == old(self).source(),
            final(self).span_start() == old(self).span_start(),
            final(self).index() == seek_index(old(self).source(), old(self).index(), position),
    {
        while self.current_index < self.chars.len() && self.current_position.is_before(&position)
            invariant
                self.wf(),
                self.source() == old(self).source(),
                self.span_start() == old(self).span_start(),
                old(self).index() <= self.index(),
                seek_index(self.source(), self.index(), position) == seek_index(
                    old(self).source(),
                    old(self).index(),
                    position,
                ),
            decreases self.source().len() - self.index(),
        {
            self.next();
        }
    }

    fn update_position(&mut self, c: char)
        requires
            old(self).current_position.line < u32::MAX,
            old(self).current_position.character < u32::MAX,
        ensures
            final(self).text == old(self).text,
            final(self).chars == old(self).chars,
            final(self).current_index == old(self).current_index,
            final(self).start_index == old(self).start_index,
            final(self).start_position == old(self).start_position,
            c == '\n' ==> final(self).current_position == (Position {
                line: (old(self).current_position.line + 1) as u32,
                character: 0,
            }),
            c != '\n' ==> final(self).current_position == (Position {
                line: old(self).current_position.line,
                character: (old(self).current_position.character + 1) as u32,
            }),
    {
        if c == '\n' {
            self.current_position.line = self.current_position.line + 1;
            self.current_position.character = 0;
        } else {
            self.current_position.character = self.current_position.character + 1;
        }
    }
}

} // verus!
