//! A text buffer: the document's characters, held in a rope, and the path it
//! was loaded from or will be saved to.

use ropey::Rope;
use std::ops::Range;
use vstd::prelude::*;

use crate::lines::{line_count, line_start, breaks_before};
use crate::rope::{
    rope_chars, rope_char, rope_char_to_line, rope_from_str, rope_insert, rope_len_chars,
    rope_len_lines, rope_line_string, rope_line_to_char, rope_new, rope_remove, rope_slice_string,
    rope_to_string,
};

verus! {

/// An editable text with an optional file path.
pub struct Buffer {
    rope: Rope,
    path: Option<String>,
}

impl View for Buffer {
    type V = Seq<char>;

    /// The characters of the buffer.
    closed spec fn view(&self) -> Seq<char> {
        rope_chars(self.rope)
    }
}

impl Buffer {
    /// The buffer's path, as characters.
    pub closed spec fn path_view(&self) -> Option<Seq<char>> {
        match self.path {
            Some(p) => Some(p@),
            None => None,
        }
    }

    /// An empty buffer without a path.
    pub fn new() -> (b: Self)
        ensures
            b@ == Seq::<char>::empty(),
            b.path_view() is None,
    {
        Buffer { rope: rope_new(), path: None }
    }

    /// A buffer holding `contents`, read from `path`.
    pub fn from_contents(path: &str, contents: &str) -> (b: Self)
        ensures
            b@ == contents@,
            b.path_view() == Some(path@),
    {
        Buffer { rope: rope_from_str(contents), path: Some(path.to_string()) }
    }

    /// The whole text as a string.
    pub fn text_string(&self) -> (s: String)
        ensures
            s@ == self@,
    {
        rope_to_string(&self.rope)
    }

    /// The buffer's path, if it has one.
    pub fn path(&self) -> (p: Option<&String>)
        ensures
            match p {
                Some(p) => self.path_view() == Some(p@),
                None => self.path_view() is None,
            },
    {
        self.path.as_ref()
    }

    /// Give the buffer a path.
    pub fn set_path(&mut self, path: &str)
        ensures
            final(self)@ == old(self)@,
            final(self).path_view() == Some(path@),
    {
        self.path = Some(path.to_string());
    }

    /// The text of line `line_idx`, its line break included, or `None` past
    /// the last line. Callers that walk on to the following lines ask for
    /// them one index at a time; no iterator over the rope is handed out.
    pub fn line(&self, line_idx: usize) -> (l: Option<String>)
        ensures
            line_idx < line_count(self@) ==> (l matches Some(t) && t@ == self@.subrange(
                line_start(self@, line_idx as nat),
                line_start(self@, (line_idx + 1) as nat),
            )),
            line_idx >= line_count(self@) ==> l is None,
    {
        if line_idx < rope_len_lines(&self.rope) {
            Some(rope_line_string(&self.rope, line_idx))
        } else {
            None
        }
    }

    /// Number of lines; a buffer that ends with a line break has a final
    /// empty line, and an empty buffer has one line.
    pub fn len_lines(&self) -> (n: usize)
        ensures
            n == line_count(self@),
    {
        rope_len_lines(&self.rope)
    }

    /// Number of characters.
    pub fn len_chars(&self) -> (n: usize)
        ensures
            n == self@.len(),
    {
        rope_len_chars(&self.rope)
    }

    /// The character at `char_idx`.
    pub fn char_at(&self, char_idx: usize) -> (c: char)
        requires
            char_idx < self@.len(),
        ensures
            c == self@[char_idx as int],
    {
        rope_char(&self.rope, char_idx)
    }

    /// Line index of position `char_idx`.
    pub fn char_to_line(&self, char_idx: usize) -> (l: usize)
        requires
            char_idx <= self@.len(),
        ensures
            l == breaks_before(self@, char_idx as int),
    {
        rope_char_to_line(&self.rope, char_idx)
    }

    /// Position where line `line_idx` starts.
    pub fn line_to_char(&self, line_idx: usize) -> (i: usize)
        requires
            line_idx <= line_count(self@),
        ensures
            i == line_start(self@, line_idx as nat),
    {
        rope_line_to_char(&self.rope, line_idx)
    }

    /// The characters in `start..end`.
    pub fn slice_string(&self, start: usize, end: usize) -> (s: String)
        requires
            start <= end <= self@.len(),
        ensures
            s@ == self@.subrange(start as int, end as int),
    {
        rope_slice_string(&self.rope, start, end)
    }

    /// Insert `text` at `char_idx`.
    pub fn insert(&mut self, char_idx: usize, text: &str)
        requires
            char_idx <= old(self)@.len(),
        ensures
            final(self)@ == old(self)@.take(char_idx as int) + text@ + old(self)@.skip(
                char_idx as int,
            ),
            final(self).path_view() == old(self).path_view(),
    {
        rope_insert(&mut self.rope, char_idx, text);
    }

    /// Remove the characters in `range`.
    pub fn remove(&mut self, range: Range<usize>)
        requires
            range.start <= range.end <= old(self)@.len(),
        ensures
            final(self)@ == old(self)@.take(range.start as int) + old(self)@.skip(
                range.end as int,
            ),
            final(self).path_view() == old(self).path_view(),
    {
        rope_remove(&mut self.rope, range.start, range.end);
    }
}

impl Default for Buffer {
    fn default() -> (b: Self)
        ensures
            b@ == Seq::<char>::empty(),
            b.path_view() is None,
    {
        Buffer::new()
    }
}

/// Removing the characters just inserted gives back the text as it was
/// (over the forms `insert` and `remove` state their results in).
pub proof fn law_remove_undoes_insert(text: Seq<char>, at: int, inserted: Seq<char>)
    requires
        0 <= at <= text.len(),
    ensures
        ({
            let after = text.take(at) + inserted + text.skip(at);
            after.take(at) + after.skip(at + inserted.len()) == text
        }),
{
    let after = text.take(at) + inserted + text.skip(at);
    assert(after.take(at) =~= text.take(at));
    assert(after.skip(at + inserted.len()) =~= text.skip(at));
    assert(text.take(at) + text.skip(at) =~= text);
}

/// Inserting the characters just removed gives back the text as it was.
pub proof fn law_insert_undoes_remove(text: Seq<char>, start: int, end: int)
    requires
        0 <= start <= end <= text.len(),
    ensures
        ({
            let after = text.take(start) + text.skip(end);
            after.take(start) + text.subrange(start, end) + after.skip(start) == text
        }),
{
    let after = text.take(start) + text.skip(end);
    assert(after.take(start) =~= text.take(start));
    assert(after.skip(start) =~= text.skip(end));
    assert(text.take(start) + text.subrange(start, end) + text.skip(end) =~= text);
}

} // verus!
