use crate::text::push_char;
use vstd::prelude::*;

verus! {

/// A place in the source: line and column, both counted from 1. A column
/// counts characters, not bytes.
#[derive(Clone, Copy, Debug, PartialEq, Eq, Structural)]
pub struct Position {
    pub line: usize,
    pub column: usize,
}

/// The stretch of source that a parsed value was read from.
#[derive(Clone, Copy, Debug, PartialEq, Eq, Structural)]
pub struct SourceSpan {
    pub start: Position,
    pub end: Position,
}

impl SourceSpan {
    pub fn init(start_line: usize, start_column: usize, end_line: usize, end_column: usize) -> (s:
        SourceSpan)
        ensures
            s == (SourceSpan {
                start: Position { line: start_line, column: start_column },
                end: Position { line: end_line, column: end_column },
            }),
    {
        SourceSpan {
            start: Position { line: start_line, column: start_column },
            end: Position { line: end_line, column: end_column },
        }
    }
}

/// Whether `a` stands at or before `b`: on an earlier line, or on the same
/// line at no later column.
pub open spec fn precedes(a: Position, b: Position) -> bool {
    a.line < b.line || (a.line == b.line && a.column <= b.column)
}

impl SourceSpan {
    /// A span does not end before it starts.
    pub open spec fn ordered(&self) -> bool {
        precedes(self.start, self.end)
    }
}

/// What a reader saves and restores when a parser backtracks.
#[derive(Clone, Copy, Debug, PartialEq, Eq, Structural)]
pub struct ReaderState {
    pub cursor: usize,
    pub pos: Position,
}

/// A buffer of characters with a cursor and the position of that cursor.
#[derive(Clone, Debug)]
pub struct Reader {
    pub buffer: Vec<char>,
    pub state: ReaderState,
}

/// The line of the cursor after `n` characters of `buf` were read.
pub open spec fn line_at(buf: Seq<char>, n: int) -> int
    decreases n,
{
    if n <= 0 {
        1
    } else if buf[n - 1] == '\n' {
        line_at(buf, n - 1) + 1
    } else {
        line_at(buf, n - 1)
    }
}

/// The column of the cursor after `n` characters of `buf` were read.
pub open spec fn column_at(buf: Seq<char>, n: int) -> int
    decreases n,
{
    if n <= 0 {
        1
    } else if buf[n - 1] == '\n' {
        1
    } else {
        column_at(buf, n - 1) + 1
    }
}

/// The position of the cursor after `n` characters of `buf` were read.
pub open spec fn position_at(buf: Seq<char>, n: int) -> Position {
    Position { line: line_at(buf, n) as usize, column: column_at(buf, n) as usize }
}

/// The span between two cursors.
pub open spec fn span_between(buf: Seq<char>, from: int, to: int) -> SourceSpan {
    SourceSpan { start: position_at(buf, from), end: position_at(buf, to) }
}

/// The state of a reader over `buf` whose cursor stands at `n`.
pub open spec fn state_at(buf: Seq<char>, n: int) -> ReaderState {
    ReaderState { cursor: n as usize, pos: position_at(buf, n) }
}

/// Lines and columns start at 1 and grow by at most one per character.
pub proof fn lemma_position_bounds(buf: Seq<char>, n: int)
    requires
        0 <= n,
    ensures
        1 <= line_at(buf, n) <= n + 1,
        1 <= column_at(buf, n) <= n + 1,
    decreases n,
{
    if n > 0 {
        lemma_position_bounds(buf, n - 1);
    }
}

/// Stepping back over `k` characters none of which is a line feed keeps the
/// line and lowers the column by `k`.
pub proof fn lemma_rewind_within_line(buf: Seq<char>, n: int, k: int)
    requires
        0 <= k <= n,
        forall|j: int| n - k <= j < n ==> buf[j] != '\n',
    ensures
        line_at(buf, n - k) == line_at(buf, n),
        column_at(buf, n - k) == column_at(buf, n) - k,
    decreases k,
{
    if k > 0 {
        lemma_rewind_within_line(buf, n - 1, k - 1);
    }
}

/// The position of a cursor is at or before that of every later cursor.
pub proof fn lemma_positions_ordered(buf: Seq<char>, a: int, b: int)
    requires
        0 <= a <= b < usize::MAX,
    ensures
        precedes(position_at(buf, a), position_at(buf, b)),
        span_between(buf, a, b).ordered(),
    decreases b - a,
{
    lemma_position_bounds(buf, a);
    lemma_position_bounds(buf, b);
    if a < b {
        lemma_position_bounds(buf, b - 1);
        lemma_positions_ordered(buf, a, b - 1);
    }
}

impl Reader {
    /// The cursor is inside the buffer and the position is the one that
    /// reading from the start of the buffer up to the cursor gives.
    pub open spec fn wf(&self) -> bool {
        &&& self.state.cursor <= self.buffer@.len() < usize::MAX
        &&& self.state == state_at(self.buffer@, self.state.cursor as int)
    }

    /// The characters of the buffer.
    pub open spec fn text(&self) -> Seq<char> {
        self.buffer@
    }

    /// The cursor, as a place in the buffer.
    pub open spec fn cursor(&self) -> int {
        self.state.cursor as int
    }

    /// A reader at the start of `buffer`.
    pub fn new(buffer: Vec<char>) -> (reader: Reader)
        requires
            buffer@.len() < usize::MAX,
        ensures
            reader.wf(),
            reader.buffer@ == buffer@,
            reader.state == state_at(buffer@, 0),
    {
        Reader { buffer, state: ReaderState { cursor: 0, pos: Position { line: 1, column: 1 } } }
    }

    /// A reader at the start of `s`.
    pub fn init(s: &str) -> (reader: Reader)
        requires
            s@.len() < usize::MAX,
        ensures
            reader.wf(),
            reader.buffer@ == s@,
            reader.state == state_at(s@, 0),
    {
        let n: usize = s.unicode_len();
        let mut buffer: Vec<char> = Vec::with_capacity(n);
        let mut i: usize = 0;
        while i < n
            invariant
                n == s@.len(),
                i <= n,
                buffer@ == s@.subrange(0, i as int),
            decreases n - i,
        {
            buffer.push(s.get_char(i));
            i += 1;
            assert(buffer@ == s@.subrange(0, i as int));
        }
        assert(buffer@ == s@);
        Reader::new(buffer)
    }

    /// Whether the cursor stands at the end of the buffer.
    pub fn is_eof(&self) -> (b: bool)
        requires
            self.wf(),
        ensures
            b == (self.state.cursor == self.buffer@.len()),
    {
        self.state.cursor == self.buffer.len()
    }

    /// The next character, if any, without moving.
    pub fn peek(&self) -> (c: Option<char>)
        requires
            self.wf(),
        ensures
            c == if self.state.cursor < self.buffer@.len() {
                Some(self.buffer@[self.state.cursor as int])
            } else {
                None::<char>
            },
    {
        if self.state.cursor < self.buffer.len() {
            Some(self.buffer[self.state.cursor])
        } else {
            None
        }
    }

    /// Reads one character: a line feed starts a new line at column 1, any
    /// other character moves one column on.
    pub fn read(&mut self) -> (c: Option<char>)
        requires
            old(self).wf(),
        ensures
            final(self).wf(),
            final(self).buffer@ == old(self).buffer@,
            old(self).state.cursor < old(self).buffer@.len() ==> c == Some(
                old(self).buffer@[old(self).state.cursor as int],
            ) && final(self).state.cursor == old(self).state.cursor + 1,
            old(self).state.cursor >= old(self).buffer@.len() ==> c.is_none() && final(self).state
                == old(self).state,
            c == Some('\n') ==> final(self).state.pos == (Position {
                line: (old(self).state.pos.line + 1) as usize,
                column: 1,
            }),
            c.is_some() && c != Some('\n') ==> final(self).state.pos == (Position {
                line: old(self).state.pos.line,
                column: (old(self).state.pos.column + 1) as usize,
            }),
    {
        if self.state.cursor < self.buffer.len() {
            let c: char = self.buffer[self.state.cursor];
            proof {
                lemma_position_bounds(self.buffer@, self.state.cursor as int);
                lemma_position_bounds(self.buffer@, self.state.cursor as int + 1);
            }
            self.state.cursor = self.state.cursor + 1;
            if c == '\n' {
                self.state.pos.line = self.state.pos.line + 1;
                self.state.pos.column = 1;
            } else {
                self.state.pos.column = self.state.pos.column + 1;
            }
            Some(c)
        } else {
            None
        }
    }

    /// Puts the reader into a state that it was in, or could have been in,
    /// over the same buffer.
    pub fn rewind_to(&mut self, saved: ReaderState)
        requires
            old(self).wf(),
            saved == state_at(old(self).buffer@, saved.cursor as int),
            saved.cursor <= old(self).buffer@.len(),
        ensures
            final(self).wf(),
            final(self).buffer@ == old(self).buffer@,
            final(self).state == saved,
    {
        self.state = saved;
    }

    /// The text between an earlier cursor and the present one.
    pub fn substring_from(&self, start: usize) -> (s: String)
        requires
            self.wf(),
            start <= self.state.cursor,
        ensures
            s@ == self.buffer@.subrange(start as int, self.state.cursor as int),
    {
        let mut s = String::new();
        let mut i: usize = start;
        while i < self.state.cursor
            invariant
                self.wf(),
                start <= i <= self.state.cursor,
                s@ == self.buffer@.subrange(start as int, i as int),
            decreases self.state.cursor - i,
        {
            push_char(&mut s, self.buffer[i]);
            i += 1;
            assert(s@ == self.buffer@.subrange(start as int, i as int));
        }
        s
    }
}

} // verus!
