//! A forward-only cursor over the characters of a pattern, with lookahead.
use vstd::prelude::*;
use vstd::std_specs::iter::IteratorSpec;

verus! {

/// The characters of a text and the index of the next one to read.
pub struct Cursor {
    chars: Vec<char>,
    pos: usize,
}

impl Cursor {
    /// The whole text the cursor walks over.
    pub closed spec fn text(&self) -> Seq<char> {
        self.chars@
    }

    /// The index of the next character.
    pub closed spec fn pos(&self) -> int {
        self.pos as int
    }

    /// The index stays within the text (it equals its length at the end).
    pub open spec fn wf(&self) -> bool {
        0 <= self.pos() <= self.text().len()
    }

    /// A cursor at the start of `line`.
    pub fn new(line: &str) -> (r: Cursor)
        ensures
            r.wf(),
            r.text() == line@,
            r.pos() == 0,
    {
        let mut chars: Vec<char> = Vec::new();
        for c in it: line.chars()
            invariant
                chars@ == it.seq().take(it.index() as int),
        {
            chars.push(c);
        }
        assert(chars@ == line@);
        Cursor { chars, pos: 0 }
    }

    /// A cursor at the start of `chars`.
    pub fn from_chars(chars: Vec<char>) -> (r: Cursor)
        ensures
            r.wf(),
            r.text() == chars@,
            r.pos() == 0,
    {
        Cursor { chars, pos: 0 }
    }

    /// The next character, without consuming it.
    pub fn peek(&self) -> (r: Option<char>)
        requires
            self.wf(),
        ensures
            r == (if self.pos() < self.text().len() {
                Some(self.text()[self.pos()])
            } else {
                None
            }),
    {
        if self.pos < self.chars.len() {
            Some(self.chars[self.pos])
        } else {
            None
        }
    }

    /// The character `n` places after the next one, without consuming anything.
    pub fn peek_nth(&self, n: usize) -> (r: Option<char>)
        requires
            self.wf(),
        ensures
            r == (if self.pos() + n < self.text().len() {
                Some(self.text()[self.pos() + n])
            } else {
                None
            }),
    {
        if n < self.chars.len() - self.pos {
            Some(self.chars[self.pos + n])
        } else {
            None
        }
    }

    /// How many characters are left to read.
    pub fn remaining(&self) -> (r: usize)
        requires
            self.wf(),
        ensures
            r == self.text().len() - self.pos(),
    {
        self.chars.len() - self.pos
    }

    /// Consumes and returns the next character.
    pub fn next_char(&mut self) -> (r: Option<char>)
        requires
            old(self).wf(),
        ensures
            final(self).wf(),
            final(self).text() == old(self).text(),
            r == (if old(self).pos() < old(self).text().len() {
                Some(old(self).text()[old(self).pos()])
            } else {
                None
            }),
            final(self).pos() == (if old(self).pos() < old(self).text().len() {
                old(self).pos() + 1
            } else {
                old(self).pos()
            }),
    {
        if self.pos < self.chars.len() {
            let c = self.chars[self.pos];
            self.pos = self.pos + 1;
            Some(c)
        } else {
            None
        }
    }
}

/// Consumes the next character if it is `ch`, and tells whether it did.
pub fn look_for(ch: char, cur: &mut Cursor) -> (r: bool)
    requires
        old(cur).wf(),
    ensures
        final(cur).wf(),
        final(cur).text() == old(cur).text(),
        r == (old(cur).pos() < old(cur).text().len() && old(cur).text()[old(cur).pos()] == ch),
        final(cur).pos() == (if r {
            old(cur).pos() + 1
        } else {
            old(cur).pos()
        }),
{
    match cur.peek() {
        Some(c) => {
            if c == ch {
                let _ = cur.next_char();
                true
            } else {
                false
            }
        },
        None => false,
    }
}

} // verus!
