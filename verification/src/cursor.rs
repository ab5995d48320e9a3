//! The cursor over wrapped lines: a line and an offset within it, moved one
//! character at a time across line boundaries.

use vstd::prelude::*;

verus! {

/// Where a line starts on screen, and how many characters it holds.
#[derive(Clone, Copy, Debug, PartialEq, Eq, Structural)]
pub struct LinePos {
    /// The row of the line.
    pub y: u16,
    /// The column of the line's first character.
    pub x: u16,
    /// The number of characters of the line.
    pub length: u16,
}

impl LinePos {
    /// A line that a cursor can stand on: it has a character, and its last
    /// character's column is a `u16`.
    pub open spec fn valid(self) -> bool {
        self.length >= 1 && self.x + self.length - 1 <= u16::MAX
    }

    /// Whether a cursor can stand on the line.
    pub fn is_valid(&self) -> (ok: bool)
        ensures
            ok == self.valid(),
    {
        self.length >= 1 && self.length - 1 <= u16::MAX - self.x
    }
}

/// The number of characters in the first `n` lines.
pub open spec fn cells_before(lines: Seq<LinePos>, n: int) -> int
    decreases n,
{
    if n <= 0 {
        0
    } else {
        cells_before(lines, n - 1) + lines[n - 1].length
    }
}

/// Every line can hold a cursor.
pub open spec fn lines_valid(lines: Seq<LinePos>) -> bool {
    forall|i: int| 0 <= i < lines.len() ==> (#[trigger] lines[i]).valid()
}

/// A cursor on one of the characters of `lines`.
#[derive(Debug, PartialEq, Eq)]
pub struct CursorPos {
    pub lines: Vec<LinePos>,
    pub cur_line: usize,
    pub cur_char_in_line: u16,
}

impl CursorPos {
    /// The cursor stands on a character of one of its lines.
    pub open spec fn wf(&self) -> bool {
        &&& lines_valid(self.lines@)
        &&& self.cur_line < self.lines.len()
        &&& self.cur_char_in_line < self.lines[self.cur_line as int].length
    }

    /// On the first character of the first line.
    pub open spec fn at_start(&self) -> bool {
        self.cur_line == 0 && self.cur_char_in_line == 0
    }

    /// On the last character of the last line.
    pub open spec fn at_end(&self) -> bool {
        &&& self.cur_line + 1 == self.lines.len()
        &&& self.cur_char_in_line + 1 == self.lines[self.cur_line as int].length
    }

    /// The cursor one character further: the next offset, else the start of
    /// the next line, else where it is.
    pub open spec fn advanced(&self) -> CursorPos {
        if self.cur_char_in_line + 1 < self.lines[self.cur_line as int].length {
            CursorPos {
                lines: self.lines,
                cur_line: self.cur_line,
                cur_char_in_line: (self.cur_char_in_line + 1) as u16,
            }
        } else if self.cur_line + 1 < self.lines.len() {
            CursorPos {
                lines: self.lines,
                cur_line: (self.cur_line + 1) as usize,
                cur_char_in_line: 0,
            }
        } else {
            *self
        }
    }

    /// The cursor one character back: the previous offset, else the last
    /// character of the previous line, else where it is.
    pub open spec fn retreated(&self) -> CursorPos {
        if self.cur_char_in_line > 0 {
            CursorPos {
                lines: self.lines,
                cur_line: self.cur_line,
                cur_char_in_line: (self.cur_char_in_line - 1) as u16,
            }
        } else if self.cur_line > 0 {
            CursorPos {
                lines: self.lines,
                cur_line: (self.cur_line - 1) as usize,
                cur_char_in_line: (self.lines[self.cur_line - 1].length - 1) as u16,
            }
        } else {
            *self
        }
    }

    /// Row and column of the cursor on screen: the row of its line, and the
    /// column where the line starts plus the offset within the line.
    pub open spec fn position(&self) -> (u16, u16) {
        let line = self.lines[self.cur_line as int];
        (line.y, (line.x + self.cur_char_in_line) as u16)
    }

    /// How many characters lie before the cursor, over all lines.
    pub open spec fn index(&self) -> int {
        cells_before(self.lines@, self.cur_line as int) + self.cur_char_in_line
    }

    /// How many characters the lines hold.
    pub open spec fn total(&self) -> int {
        cells_before(self.lines@, self.lines.len() as int)
    }

    /// A cursor on the first character of the first of `lines`.
    pub fn new(lines: Vec<LinePos>) -> (cursor: CursorPos)
        ensures
            cursor.lines == lines,
            cursor.at_start(),
            cursor.wf() <==> lines.len() > 0 && lines_valid(lines@),
    {
        CursorPos { lines, cur_line: 0, cur_char_in_line: 0 }
    }

    /// Whether the cursor stands on a character of its lines.
    pub fn is_valid(&self) -> (ok: bool)
        ensures
            ok == self.wf(),
    {
        let mut i: usize = 0;
        while i < self.lines.len()
            invariant
                i <= self.lines.len(),
                forall|j: int| 0 <= j < i ==> (#[trigger] self.lines[j]).valid(),
            decreases self.lines.len() - i,
        {
            if !self.lines[i].is_valid() {
                return false;
            }
            i += 1;
        }
        self.cur_line < self.lines.len() && self.cur_char_in_line < self.lines[self.cur_line].length
    }

    /// Moves one character forward and returns the new position, row first.
    /// On the last character of the last line the cursor stays.
    pub fn next(&mut self) -> (pos: (u16, u16))
        requires
            old(self).wf(),
        ensures
            *final(self) == old(self).advanced(),
            final(self).wf(),
            pos == final(self).position(),
    {
        let line = self.lines[self.cur_line];
        let max_chars_index = line.length - 1;
        if self.cur_char_in_line < max_chars_index {
            self.cur_char_in_line += 1;
        } else {
            if self.cur_line + 1 < self.lines.len() {
                self.cur_line += 1;
                self.cur_char_in_line = 0;
            }
        }
        self.cur_pos()
    }

    /// Moves one character back and returns the new position, row first. On
    /// the first character of the first line the cursor stays.
    pub fn prev(&mut self) -> (pos: (u16, u16))
        requires
            old(self).wf(),
        ensures
            *final(self) == old(self).retreated(),
            final(self).wf(),
            pos == final(self).position(),
    {
        if self.cur_char_in_line > 0 {
            self.cur_char_in_line -= 1;
        } else {
            if self.cur_line > 0 {
                self.cur_line -= 1;
                self.cur_char_in_line = self.lines[self.cur_line].length - 1;
            }
        }
        self.cur_pos()
    }

    /// Row and column at which the terminal's cursor belongs.
    pub fn cur_pos(&self) -> (pos: (u16, u16))
        requires
            self.wf(),
        ensures
            pos == self.position(),
            pos.0 == self.lines[self.cur_line as int].y,
            pos.1 == self.lines[self.cur_line as int].x + self.cur_char_in_line,
    {
        let line = self.lines[self.cur_line];
        (line.y, line.x + self.cur_char_in_line)
    }
}

/// The characters before a line are no more than those before a later one.
pub proof fn lemma_cells_before_monotonic(lines: Seq<LinePos>, i: int, j: int)
    requires
        0 <= i <= j <= lines.len(),
    ensures
        0 <= cells_before(lines, i) <= cells_before(lines, j),
    decreases j,
{
    if j > 0 {
        if i < j {
            lemma_cells_before_monotonic(lines, i, j - 1);
        } else {
            lemma_cells_before_monotonic(lines, i - 1, j - 1);
        }
    }
}

/// The characters before a line depend on the lines before it alone.
pub proof fn lemma_cells_before_prefix(a: Seq<LinePos>, b: Seq<LinePos>, n: int)
    requires
        0 <= n <= a.len(),
        n <= b.len(),
        forall|i: int| 0 <= i < n ==> a[i] == b[i],
    ensures
        cells_before(a, n) == cells_before(b, n),
    decreases n,
{
    if n > 0 {
        lemma_cells_before_prefix(a, b, n - 1);
    }
}

/// A valid cursor counts fewer characters before it than its lines hold.
pub proof fn lemma_index_in_range(c: CursorPos)
    requires
        c.wf(),
    ensures
        0 <= c.index() < c.total(),
        c.at_start() <==> c.index() == 0,
        c.at_end() <==> c.index() == c.total() - 1,
{
    let lines = c.lines@;
    let k = c.cur_line as int;
    lemma_cells_before_monotonic(lines, k, k);
    lemma_cells_before_monotonic(lines, k + 1, lines.len() as int);
    assert(cells_before(lines, k + 1) == cells_before(lines, k) + lines[k].length);
    if k > 0 {
        lemma_cells_before_monotonic(lines, 0, k - 1);
        assert(cells_before(lines, k) == cells_before(lines, k - 1) + lines[k - 1].length);
        assert(lines[k - 1].valid());
    }
    if k + 1 < lines.len() {
        lemma_cells_before_monotonic(lines, k + 2, lines.len() as int);
        assert(cells_before(lines, k + 2) == cells_before(lines, k + 1) + lines[k + 1].length);
        assert(lines[k + 1].valid());
    }
}

/// Over the same lines, the number of characters before a valid cursor
/// tells where the cursor stands: no two places share it.
pub proof fn lemma_index_determines_cursor(a: CursorPos, b: CursorPos)
    requires
        a.wf(),
        b.wf(),
        a.lines == b.lines,
        a.index() == b.index(),
    ensures
        a == b,
{
    let lines = a.lines@;
    let i = a.cur_line as int;
    let j = b.cur_line as int;
    assert(cells_before(lines, i + 1) == cells_before(lines, i) + lines[i].length);
    assert(cells_before(lines, j + 1) == cells_before(lines, j) + lines[j].length);
    if i < j {
        lemma_cells_before_monotonic(lines, i + 1, j);
    } else if j < i {
        lemma_cells_before_monotonic(lines, j + 1, i);
    }
}

/// Advancing keeps the cursor valid and moves it one character on, unless it
/// stands on the last character.
pub proof fn lemma_advanced(c: CursorPos)
    requires
        c.wf(),
    ensures
        c.advanced().wf(),
        c.advanced().lines == c.lines,
        c.advanced().index() == if c.at_end() { c.index() } else { c.index() + 1 },
{
    let lines = c.lines@;
    let k = c.cur_line as int;
    if c.cur_char_in_line + 1 < lines[k].length {
    } else if k + 1 < lines.len() {
        assert(lines[k + 1].valid());
        assert(cells_before(lines, k + 1) == cells_before(lines, k) + lines[k].length);
    }
}

/// Retreating keeps the cursor valid and moves it one character back, unless
/// it stands on the first character.
pub proof fn lemma_retreated(c: CursorPos)
    requires
        c.wf(),
    ensures
        c.retreated().wf(),
        c.retreated().lines == c.lines,
        c.retreated().index() == if c.at_start() { c.index() } else { c.index() - 1 },
{
    let lines = c.lines@;
    let k = c.cur_line as int;
    if c.cur_char_in_line > 0 {
    } else if k > 0 {
        assert(lines[k - 1].valid());
        assert(cells_before(lines, k) == cells_before(lines, k - 1) + lines[k - 1].length);
    }
}

/// Moving forward and then back returns to where the cursor was, from
/// everywhere but the last character of the last line.
pub proof fn lemma_retreat_undoes_advance(c: CursorPos)
    requires
        c.wf(),
        !c.at_end(),
    ensures
        c.advanced().retreated() == c,
{
    let lines = c.lines@;
    let k = c.cur_line as int;
    if c.cur_char_in_line + 1 < lines[k].length {
    } else {
        assert(k + 1 < lines.len());
        assert(lines[k].valid());
    }
}

/// Moving back and then forward returns to where the cursor was, from
/// everywhere but the first character of the first line.
pub proof fn lemma_advance_undoes_retreat(c: CursorPos)
    requires
        c.wf(),
        !c.at_start(),
    ensures
        c.retreated().advanced() == c,
{
    let lines = c.lines@;
    let k = c.cur_line as int;
    if c.cur_char_in_line > 0 {
    } else {
        assert(k > 0);
        assert(lines[k - 1].valid());
    }
}

} // verus!
