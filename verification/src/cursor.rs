//! A read-only forward scanner over the characters of a source string.
//!
//! The cursor counts characters, not bytes, and never fails: peeking or
//! bumping at or past the end of the input yields the null sentinel `'\0'`.

use vstd::prelude::*;
use vstd::string::StrSliceExecFns;

verus! {

/// The character a peek at position `i` of `s` yields: the character itself
/// inside the input, the null sentinel at or past either end.
pub open spec fn char_at(s: Seq<char>, i: int) -> char {
    if 0 <= i < s.len() {
        s[i]
    } else {
        '\0'
    }
}

/// A forward scanner over a borrowed string, with one character of lookahead
/// past the current position. `len` is the current position, in characters.
pub struct Cursor<'a> {
    pub input: &'a str,
    pub len: usize,
}

impl<'a> Cursor<'a> {
    /// The characters at and after the current position.
    pub open spec fn remaining(self) -> Seq<char>
        recommends
            self.len <= self.input@.len(),
    {
        self.input@.skip(self.len as int)
    }

    /// A fresh scanner positioned at the start of `input`.
    pub fn new(input: &'a str) -> (c: Self)
        ensures
            c.input@ == input@,
            c.len == 0,
    {
        Cursor { input, len: 0 }
    }

    /// True iff the position has reached or passed the end of the input.
    /// The second clause records a machine fact callers of `bump` need: the
    /// character count of a string always fits a machine word.
    pub fn is_eof(&self) -> (b: bool)
        ensures
            b == (self.len >= self.input@.len()),
            self.input@.len() <= usize::MAX as int,
    {
        self.len >= self.input.unicode_len()
    }

    /// The character at the current position, without advancing.
    pub fn first(&self) -> (c: char)
        ensures
            c == char_at(self.input@, self.len as int),
    {
        if self.len < self.input.unicode_len() {
            self.input.get_char(self.len)
        } else {
            '\0'
        }
    }

    /// The character one past the current position, without advancing.
    pub fn second(&self) -> (c: char)
        ensures
            c == char_at(self.input@, self.len as int + 1),
    {
        let n = self.input.unicode_len();
        if self.len < n {
            let i = self.len + 1;
            if i < n {
                self.input.get_char(i)
            } else {
                '\0'
            }
        } else {
            '\0'
        }
    }

    /// The character at the current position, advancing the position by
    /// one; at or past the end the sentinel comes back and the position
    /// still advances. Only the machine word that holds the position bounds
    /// it.
    pub fn bump(&mut self) -> (c: char)
        requires
            old(self).len < usize::MAX,
        ensures
            final(self).input == old(self).input,
            c == char_at(old(self).input@, old(self).len as int),
            final(self).len == old(self).len + 1,
    {
        let c = if self.len < self.input.unicode_len() {
            self.input.get_char(self.len)
        } else {
            '\0'
        };
        self.len = self.len + 1;
        c
    }
}

} // verus!
