//! A character cursor over a source string, addressed by character position.
use vstd::prelude::*;
use vstd::string::StrSliceExecFns;

verus! {

/// Collects the characters of `s` into a vector, so that the lexer can
/// address the source by character position.
pub fn str_chars(s: &str) -> (r: Vec<char>)
    ensures
        r@ == s@,
{
    let len = s.unicode_len();
    let mut v: Vec<char> = Vec::new();
    let mut i: usize = 0;
    while i < len
        invariant
            len == s@.len(),
            0 <= i <= len,
            v@ == s@.subrange(0, i as int),
        decreases len - i,
    {
        let c = s.get_char(i);
        v.push(c);
        proof {
            assert(v@ =~= s@.subrange(0, i + 1));
        }
        i = i + 1;
    }
    proof {
        assert(v@ =~= s@);
    }
    v
}

/// A cursor over the characters of a borrowed source string.
///
/// Positions are character positions into the source; `chars` always holds
/// exactly the characters of `source`.
pub struct Cursor<'a> {
    pub source: &'a str,
    pub chars: Vec<char>,
    pub index: usize,
}

/// The cursor's characters agree with its source and its index is in range.
pub open spec fn cursor_wf(c: Cursor<'_>) -> bool {
    c.chars@ == c.source@ && c.index <= c.chars@.len()
}

impl<'a> Cursor<'a> {
    /// Opens a cursor at the start of `source`.
    pub fn new(source: &'a str) -> (r: Cursor<'a>)
        ensures
            cursor_wf(r),
            r.source@ == source@,
            r.index == 0,
    {
        Cursor { source, chars: str_chars(source), index: 0 }
    }

    /// Returns the current character without advancing.
    pub fn current(&self) -> (r: Option<char>)
        ensures
            r == (if self.index < self.chars@.len() {
                Some(self.chars@[self.index as int])
            } else {
                None::<char>
            }),
    {
        if self.index < self.chars.len() {
            Some(self.chars[self.index])
        } else {
            None
        }
    }

    /// Returns the position of the current character, if any.
    pub fn current_position(&self) -> (r: Option<usize>)
        ensures
            r == (if self.index < self.chars@.len() {
                Some(self.index)
            } else {
                None::<usize>
            }),
    {
        if self.index < self.chars.len() {
            Some(self.index)
        } else {
            None
        }
    }

    /// Returns the character after the current one without advancing.
    pub fn peek(&self) -> (r: Option<char>)
        ensures
            match r {
                Some(c) => self.index + 1 < self.chars@.len() && c == self.chars@[self.index + 1],
                None => self.index + 1 >= self.chars@.len(),
            },
    {
        let n = self.chars.len();
        if self.index < usize::MAX && self.index + 1 < n {
            Some(self.chars[self.index + 1])
        } else {
            None
        }
    }

    /// Returns the position of the character after the current one, if any.
    pub fn peek_position(&self) -> (r: Option<usize>)
        ensures
            match r {
                Some(p) => self.index + 1 < self.chars@.len() && p == self.index + 1,
                None => self.index + 1 >= self.chars@.len(),
            },
    {
        let n = self.chars.len();
        if self.index < usize::MAX && self.index + 1 < n {
            Some(self.index + 1)
        } else {
            None
        }
    }

    /// Advances the cursor by one character.
    pub fn bump(&mut self)
        requires
            old(self).index < old(self).chars@.len(),
        ensures
            final(self).source@ == old(self).source@,
            final(self).chars@ == old(self).chars@,
            final(self).index == old(self).index + 1,
    {
        let n = self.chars.len();
        self.index = self.index + 1;
    }

    /// Returns the slice of the source between two character positions.
    pub fn slice(&self, start: usize, end: usize) -> (r: &'a str)
        requires
            cursor_wf(*self),
            start <= end <= self.chars@.len(),
        ensures
            r@ == self.chars@.subrange(start as int, end as int),
    {
        let src: &'a str = self.source;
        src.substring_char(start, end)
    }
}

} // verus!
