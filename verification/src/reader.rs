//! Character reader with position tracking. The buffer is immutable; the
//! state (cursor plus line/column position) is a cheap value that parsers
//! snapshot before trying an alternative and restore on failure.

use vstd::prelude::*;
use vstd::string::StrSliceExecFns;

use crate::ast::Pos;
use crate::text::next_pos;

verus! {

/// The mutable part of a reader: the cursor (a character index into the
/// buffer) and the position the next character will be read at.
#[derive(Clone, Copy, Debug, PartialEq, Eq, Structural)]
pub struct ReaderState {
    pub cursor: usize,
    pub pos: Pos,
}

/// A character stream over an immutable buffer.
#[derive(Debug)]
pub struct Reader {
    pub buffer: Vec<char>,
    pub state: ReaderState,
}

impl Reader {
    /// The reader is consistent: the cursor is inside the buffer, the
    /// position is 1-based, and line and column have room to grow by one
    /// per remaining character without overflowing.
    pub open spec fn wf(self) -> bool {
        &&& self.state.cursor <= self.buffer.len()
        &&& self.state.pos.line >= 1
        &&& self.state.pos.column >= 1
        &&& self.state.pos.line + (self.buffer.len() - self.state.cursor) <= usize::MAX
        &&& self.state.pos.column + (self.buffer.len() - self.state.cursor) <= usize::MAX
    }

    /// A fresh reader over the characters of `s`, positioned at line 1,
    /// column 1.
    #[verifier::loop_isolation(false)]
    pub fn init(s: &str) -> (r: Reader)
        requires
            s@.len() < usize::MAX,
        ensures
            r.wf(),
            r.buffer@ == s@,
            r.state.cursor == 0,
            r.state.pos@ == (1int, 1int),
    {
        let n = s.unicode_len();
        let mut buffer: Vec<char> = Vec::new();
        let mut i: usize = 0;
        while i < n
            invariant
                i <= n,
                n == s@.len(),
                buffer@ =~= s@.subrange(0, i as int),
            decreases n - i,
        {
            buffer.push(s.get_char(i));
            i = i + 1;
        }
        proof {
            assert(buffer@ =~= s@);
        }
        Reader { buffer, state: ReaderState { cursor: 0, pos: Pos { line: 1, column: 1 } } }
    }

    /// True when every character has been consumed.
    pub fn is_eof(&self) -> (r: bool)
        requires
            self.wf(),
        ensures
            r == (self.state.cursor == self.buffer@.len()),
    {
        self.state.cursor == self.buffer.len()
    }

    /// Consume and return the next character, advancing the position:
    /// a newline moves to the start of the next line, anything else
    /// moves one column right.
    pub fn read(&mut self) -> (c: char)
        requires
            old(self).wf(),
            old(self).state.cursor < old(self).buffer@.len(),
        ensures
            final(self).wf(),
            final(self).buffer@ == old(self).buffer@,
            c == old(self).buffer@[old(self).state.cursor as int],
            final(self).state.cursor == old(self).state.cursor + 1,
            final(self).state.pos@ == next_pos(old(self).state.pos@, c),
    {
        let c = self.buffer[self.state.cursor];
        self.state.cursor = self.state.cursor + 1;
        if c == '\n' {
            self.state.pos = Pos { line: self.state.pos.line + 1, column: 1 };
        } else {
            self.state.pos = Pos { line: self.state.pos.line, column: self.state.pos.column + 1 };
        }
        c
    }
}

} // verus!
