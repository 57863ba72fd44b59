//! The rope that holds a buffer's text, from the `ropey` crate. Nothing here
//! is proved: each item states what `ropey` documents of the call it makes.

use ropey::Rope;
use vstd::prelude::*;

use crate::lines::{line_count, line_start, breaks_before};

verus! {

/// `ropey::Rope`, carried through verified code as an opaque value.
#[verifier::external_type_specification]
#[verifier::external_body]
pub struct ExRope(Rope);

/// The characters a rope holds, in order.
pub uninterp spec fn rope_chars(r: Rope) -> Seq<char>;

/// `Rope::new`: an empty rope.
#[verifier::external_body]
pub(crate) fn rope_new() -> (r: Rope)
    ensures
        rope_chars(r) == Seq::<char>::empty(),
{
    Rope::new()
}

/// `Rope::from_str`: a rope holding exactly the characters of `text`.
#[verifier::external_body]
pub(crate) fn rope_from_str(text: &str) -> (r: Rope)
    ensures
        rope_chars(r) == text@,
{
    Rope::from_str(text)
}

/// `Rope::len_chars`: the number of characters.
#[verifier::external_body]
pub(crate) fn rope_len_chars(r: &Rope) -> (n: usize)
    ensures
        n == rope_chars(*r).len(),
{
    r.len_chars()
}

/// `Rope::len_lines`: one more than the number of line breaks.
#[verifier::external_body]
pub(crate) fn rope_len_lines(r: &Rope) -> (n: usize)
    ensures
        n == line_count(rope_chars(*r)),
{
    r.len_lines()
}

/// `Rope::char`: the character at `char_idx`; it panics past the end.
#[verifier::external_body]
pub(crate) fn rope_char(r: &Rope, char_idx: usize) -> (c: char)
    requires
        char_idx < rope_chars(*r).len(),
    ensures
        c == rope_chars(*r)[char_idx as int],
{
    r.char(char_idx)
}

/// `Rope::char_to_line`: the number of line breaks that end before
/// `char_idx`; it panics past one-past-the-end.
#[verifier::external_body]
pub(crate) fn rope_char_to_line(r: &Rope, char_idx: usize) -> (l: usize)
    requires
        char_idx <= rope_chars(*r).len(),
    ensures
        l == breaks_before(rope_chars(*r), char_idx as int),
{
    r.char_to_line(char_idx)
}

/// `Rope::line_to_char`: where line `line_idx` starts; one past the end for
/// `line_idx == len_lines()`, and it panics beyond that.
#[verifier::external_body]
pub(crate) fn rope_line_to_char(r: &Rope, line_idx: usize) -> (i: usize)
    requires
        line_idx <= line_count(rope_chars(*r)),
    ensures
        i == line_start(rope_chars(*r), line_idx as nat),
{
    r.line_to_char(line_idx)
}

/// `Rope::line` followed by `to_string`: the text of line `line_idx`, its
/// line break included; it panics past the last line.
#[verifier::external_body]
pub(crate) fn rope_line_string(r: &Rope, line_idx: usize) -> (s: String)
    requires
        line_idx < line_count(rope_chars(*r)),
    ensures
        s@ == rope_chars(*r).subrange(
            line_start(rope_chars(*r), line_idx as nat),
            line_start(rope_chars(*r), (line_idx + 1) as nat),
        ),
{
    r.line(line_idx).to_string()
}

/// `Rope::slice` followed by `to_string`: the characters in
/// `start..end`; it panics on a reversed or out-of-bounds range.
#[verifier::external_body]
pub(crate) fn rope_slice_string(r: &Rope, start: usize, end: usize) -> (s: String)
    requires
        start <= end <= rope_chars(*r).len(),
    ensures
        s@ == rope_chars(*r).subrange(start as int, end as int),
{
    r.slice(start..end).to_string()
}

/// `Rope::to_string`: all characters of the rope.
#[verifier::external_body]
pub(crate) fn rope_to_string(r: &Rope) -> (s: String)
    ensures
        s@ == rope_chars(*r),
{
    r.to_string()
}

/// `Rope::insert`: `text` spliced in at `char_idx`; it panics past the end.
#[verifier::external_body]
pub(crate) fn rope_insert(r: &mut Rope, char_idx: usize, text: &str)
    requires
        char_idx <= rope_chars(*old(r)).len(),
    ensures
        rope_chars(*final(r)) == rope_chars(*old(r)).take(char_idx as int) + text@ + rope_chars(
            *old(r),
        ).skip(char_idx as int),
{
    r.insert(char_idx, text)
}

/// `Rope::remove`: the characters in `start..end` taken out; it panics on a
/// reversed or out-of-bounds range.
#[verifier::external_body]
pub(crate) fn rope_remove(r: &mut Rope, start: usize, end: usize)
    requires
        start <= end <= rope_chars(*old(r)).len(),
    ensures
        rope_chars(*final(r)) == rope_chars(*old(r)).take(start as int) + rope_chars(
            *old(r),
        ).skip(end as int),
{
    r.remove(start..end)
}

} // verus!
