//! Caret, selection and undo model of the editor: where the caret goes on
//! each movement, which text a selection covers, and how edits are recorded,
//! merged, undone and redone.

use std::ops::Range;
use vstd::prelude::*;

use crate::buffer::Buffer;
use crate::lines::{
    breaks_before, lemma_line_of_start, lemma_line_start, lemma_line_starts_ordered, line_count,
    line_start,
};
use crate::text::{char_is_alphanumeric, char_is_whitespace, is_alphanumeric, is_whitespace};
use vstd::string::{StrSliceExecFns, StringExecFns};

verus! {

// ---------------------------------------------------------------------------
// Character classes and scans

/// A character that belongs to a word: alphanumeric or underscore.
pub open spec fn is_word_char(c: char) -> bool {
    is_alphanumeric(c) || c == '_'
}

/// Punctuation and other characters that are neither space nor word.
pub open spec fn is_other_char(c: char) -> bool {
    !is_whitespace(c) && !is_word_char(c)
}

/// Whether `c` is a word character.
pub fn word_char(c: char) -> (b: bool)
    ensures
        b == is_word_char(c),
{
    char_is_alphanumeric(c) || c == '_'
}

/// Character classes a scan steps over: whitespace (0), word characters (1),
/// other characters (2), and, not crossing `\n` or `\r`, word characters (3)
/// or non-word characters (4).
pub open spec fn in_class(class: u8, c: char) -> bool {
    if class == 0 {
        is_whitespace(c)
    } else if class == 1 {
        is_word_char(c)
    } else if class == 2 {
        is_other_char(c)
    } else if class == 3 {
        is_word_char(c) && c != '\n' && c != '\r'
    } else {
        !is_word_char(c) && c != '\n' && c != '\r'
    }
}

/// From `i`, step left over characters of `class`.
pub open spec fn scan_back(s: Seq<char>, i: int, class: u8) -> int
    decreases i,
{
    if 0 < i <= s.len() && in_class(class, s[i - 1]) {
        scan_back(s, i - 1, class)
    } else {
        i
    }
}

/// From `i`, step right over characters of `class`.
pub open spec fn scan_fwd(s: Seq<char>, i: int, class: u8) -> int
    decreases s.len() - i,
{
    if 0 <= i < s.len() && in_class(class, s[i]) {
        scan_fwd(s, i + 1, class)
    } else {
        i
    }
}

/// Where a word-wise move left from `caret` lands: past any whitespace, then
/// a run of word characters, then a run of other characters.
pub open spec fn previous_word_boundary_of(s: Seq<char>, caret: int) -> int {
    scan_back(s, scan_back(s, scan_back(s, caret, 0), 1), 2)
}

/// Where a word-wise move right from `caret` lands (the end of the text when
/// the caret is at or past it).
pub open spec fn next_word_boundary_of(s: Seq<char>, caret: int) -> int {
    if caret >= s.len() {
        s.len() as int
    } else {
        scan_fwd(s, scan_fwd(s, scan_fwd(s, caret, 0), 1), 2)
    }
}

/// Read left to right, `s[r..caret]` is a run of other characters
/// `s[r..b]` that goes as far left as it can, then a run of word characters
/// `s[b..a]` and a run of whitespace `s[a..caret]`, each going as far left
/// as it can.
pub open spec fn runs_back(s: Seq<char>, r: int, b: int, a: int, caret: int) -> bool {
    &&& 0 <= r <= b <= a <= caret <= s.len()
    &&& forall|k: int| a <= k < caret ==> is_whitespace(#[trigger] s[k])
    &&& a == 0 || !is_whitespace(s[a - 1])
    &&& forall|k: int| b <= k < a ==> is_word_char(#[trigger] s[k])
    &&& b == 0 || !is_word_char(s[b - 1])
    &&& forall|k: int| r <= k < b ==> !is_whitespace(#[trigger] s[k]) && !is_word_char(s[k])
    &&& r == 0 || is_whitespace(s[r - 1]) || is_word_char(s[r - 1])
}

/// `s[caret..r]` is a run of whitespace `s[caret..a]`, then a run of word
/// characters `s[a..b]`, then a run of other characters `s[b..r]`, each
/// going as far right as it can.
pub open spec fn runs_fwd(s: Seq<char>, caret: int, a: int, b: int, r: int) -> bool {
    &&& 0 <= caret <= a <= b <= r <= s.len()
    &&& forall|k: int| caret <= k < a ==> is_whitespace(#[trigger] s[k])
    &&& a == s.len() || !is_whitespace(s[a])
    &&& forall|k: int| a <= k < b ==> is_word_char(#[trigger] s[k])
    &&& b == s.len() || !is_word_char(s[b])
    &&& forall|k: int| b <= k < r ==> !is_whitespace(#[trigger] s[k]) && !is_word_char(s[k])
    &&& r == s.len() || is_whitespace(s[r]) || is_word_char(s[r])
}

/// A left scan stops at the start of the run of `class` that ends at `i`.
proof fn lemma_scan_back(s: Seq<char>, i: int, class: u8)
    requires
        0 <= i <= s.len(),
    ensures
        0 <= scan_back(s, i, class) <= i,
        forall|k: int| scan_back(s, i, class) <= k < i ==> in_class(class, #[trigger] s[k]),
        scan_back(s, i, class) == 0 || !in_class(class, s[scan_back(s, i, class) - 1]),
    decreases i,
{
    if 0 < i && in_class(class, s[i - 1]) {
        lemma_scan_back(s, i - 1, class);
    }
}

/// A right scan stops at the end of the run of `class` that starts at `i`.
proof fn lemma_scan_fwd(s: Seq<char>, i: int, class: u8)
    requires
        0 <= i <= s.len(),
    ensures
        i <= scan_fwd(s, i, class) <= s.len(),
        forall|k: int| i <= k < scan_fwd(s, i, class) ==> in_class(class, #[trigger] s[k]),
        scan_fwd(s, i, class) == s.len() || !in_class(class, s[scan_fwd(s, i, class)]),
    decreases s.len() - i,
{
    if i < s.len() && in_class(class, s[i]) {
        lemma_scan_fwd(s, i + 1, class);
    }
}

/// A word-wise move left from `caret` lands strictly before it (unless it
/// is at the start), and what it passes over is, from the caret leftwards,
/// a run of whitespace, then a run of word characters, then a run of other
/// characters, each run taken as long as it goes.
pub proof fn law_previous_word_boundary_steps_over_runs(s: Seq<char>, caret: int)
    requires
        0 <= caret <= s.len(),
    ensures
        ({
            let r = previous_word_boundary_of(s, caret);
            &&& 0 <= r <= caret
            &&& caret > 0 ==> r < caret
            &&& exists|a: int, b: int| #[trigger] runs_back(s, r, b, a, caret)
        }),
{
    let a = scan_back(s, caret, 0);
    lemma_scan_back(s, caret, 0);
    let b = scan_back(s, a, 1);
    lemma_scan_back(s, a, 1);
    let r = scan_back(s, b, 2);
    lemma_scan_back(s, b, 2);
    assert(r == previous_word_boundary_of(s, caret));
    assert forall|k: int| r <= k < b implies !is_whitespace(#[trigger] s[k]) && !is_word_char(s[k]) by {
        assert(in_class(2, s[k]));
    }
    assert(runs_back(s, r, b, a, caret));
}

/// A word-wise move right from `caret` lands strictly after it (unless it
/// is at the end), and what it passes over is a run of whitespace, then a
/// run of word characters, then a run of other characters, each run taken
/// as long as it goes.
pub proof fn law_next_word_boundary_steps_over_runs(s: Seq<char>, caret: int)
    requires
        0 <= caret <= s.len(),
    ensures
        ({
            let r = next_word_boundary_of(s, caret);
            &&& caret <= r <= s.len()
            &&& caret < s.len() ==> caret < r
            &&& exists|a: int, b: int| #[trigger] runs_fwd(s, caret, a, b, r)
        }),
{
    if caret >= s.len() {
        assert(next_word_boundary_of(s, caret) == caret);
        assert(runs_fwd(s, caret, caret, caret, caret));
        return;
    }
    let a = scan_fwd(s, caret, 0);
    lemma_scan_fwd(s, caret, 0);
    let b = scan_fwd(s, a, 1);
    lemma_scan_fwd(s, a, 1);
    let r = scan_fwd(s, b, 2);
    lemma_scan_fwd(s, b, 2);
    assert(r == next_word_boundary_of(s, caret));
    assert forall|k: int| b <= k < r implies !is_whitespace(#[trigger] s[k]) && !is_word_char(s[k]) by {
        assert(in_class(2, s[k]));
    }
    assert(runs_fwd(s, caret, a, b, r));
}

/// Whether `c` is in `class`.
fn char_in_class(class: u8, c: char) -> (b: bool)
    ensures
        b == in_class(class, c),
{
    if class == 0 {
        char_is_whitespace(c)
    } else if class == 1 {
        word_char(c)
    } else if class == 2 {
        !char_is_whitespace(c) && !word_char(c)
    } else if class == 3 {
        word_char(c) && c != '\n' && c != '\r'
    } else {
        !word_char(c) && c != '\n' && c != '\r'
    }
}

/// Step left from `start` over characters of `class`.
fn scan_back_class(buffer: &Buffer, start: usize, class: u8) -> (r: usize)
    requires
        start <= buffer@.len(),
    ensures
        r == scan_back(buffer@, start as int, class),
        r <= start,
{
    let mut index = start;
    loop
        invariant
            index <= start <= buffer@.len(),
            scan_back(buffer@, index as int, class) == scan_back(buffer@, start as int, class),
        ensures
            index <= start,
            index == scan_back(buffer@, start as int, class),
        decreases index,
    {
        if index == 0 {
            break;
        }
        let ch = buffer.char_at(index - 1);
        if !char_in_class(class, ch) {
            break;
        }
        index -= 1;
    }
    index
}

/// Step right from `start` over characters of `class`.
fn scan_fwd_class(buffer: &Buffer, start: usize, class: u8) -> (r: usize)
    requires
        start <= buffer@.len(),
    ensures
        r == scan_fwd(buffer@, start as int, class),
        start <= r <= buffer@.len(),
{
    let total = buffer.len_chars();
    let mut offset = start;
    loop
        invariant
            start <= offset <= total,
            total == buffer@.len(),
            scan_fwd(buffer@, offset as int, class) == scan_fwd(buffer@, start as int, class),
        ensures
            start <= offset <= total,
            offset == scan_fwd(buffer@, start as int, class),
        decreases total - offset,
    {
        if offset >= total {
            break;
        }
        let ch = buffer.char_at(offset);
        if !char_in_class(class, ch) {
            break;
        }
        offset += 1;
    }
    offset
}

/// Where a word-wise move left from `caret_char` lands.
pub fn previous_word_boundary(buffer: &Buffer, caret_char: usize) -> (r: usize)
    requires
        caret_char <= buffer@.len(),
    ensures
        r == previous_word_boundary_of(buffer@, caret_char as int),
        r <= caret_char,
{
    if caret_char == 0 {
        return 0;
    }
    let a = scan_back_class(buffer, caret_char, 0);
    let b = scan_back_class(buffer, a, 1);
    scan_back_class(buffer, b, 2)
}

/// Where a word-wise move right from `caret_char` lands.
pub fn next_word_boundary(buffer: &Buffer, caret_char: usize) -> (r: usize)
    ensures
        r == next_word_boundary_of(buffer@, caret_char as int),
        r <= buffer@.len(),
        caret_char <= buffer@.len() ==> caret_char <= r,
{
    let total = buffer.len_chars();
    if caret_char >= total {
        return total;
    }
    let a = scan_fwd_class(buffer, caret_char, 0);
    let b = scan_fwd_class(buffer, a, 1);
    scan_fwd_class(buffer, b, 2)
}

/// The run of characters of one kind (word or not) around `char_index`, not
/// crossing `\n` or `\r`; `None` on an empty text or on whitespace.
pub open spec fn word_range_of(s: Seq<char>, char_index: int) -> Option<(int, int)> {
    if s.len() == 0 {
        None
    } else {
        let index = if char_index < s.len() - 1 {
            char_index
        } else {
            s.len() - 1
        };
        let ch = s[index];
        if ch == '\n' || ch == '\r' || is_whitespace(ch) {
            None
        } else {
            let class: u8 = if is_word_char(ch) {
                3
            } else {
                4
            };
            Some((scan_back(s, index, class), scan_fwd(s, index + 1, class)))
        }
    }
}

/// The word (or punctuation run) around `char_index`, as a character range.
pub fn word_char_range(buffer: &Buffer, char_index: usize) -> (r: Option<Range<usize>>)
    ensures
        match word_range_of(buffer@, char_index as int) {
            Some((start, end)) => (r matches Some(range) && range.start == start && range.end
                == end),
            None => r is None,
        },
        r matches Some(range) ==> range.start <= range.end <= buffer@.len(),
{
    let total_chars = buffer.len_chars();
    if total_chars == 0 {
        return None;
    }
    let index = if char_index < total_chars - 1 {
        char_index
    } else {
        total_chars - 1
    };
    let ch = buffer.char_at(index);
    if ch == '\n' || ch == '\r' || char_is_whitespace(ch) {
        return None;
    }
    let class: u8 = if word_char(ch) {
        3
    } else {
        4
    };
    let start = scan_back_class(buffer, index, class);
    let end = scan_fwd_class(buffer, index + 1, class);
    Some(start..end)
}

// ---------------------------------------------------------------------------
// Lines

/// The line a caret at `caret` is on; positions past the end count as the
/// last character's line.
pub open spec fn current_line_of(s: Seq<char>, caret: int) -> nat {
    if s.len() == 0 {
        0
    } else if caret < s.len() - 1 {
        breaks_before(s, caret)
    } else {
        breaks_before(s, s.len() - 1)
    }
}

/// `s` without its trailing run of `\n` and `\r` characters.
pub open spec fn trim_newlines_end(s: Seq<char>) -> Seq<char>
    decreases s.len(),
{
    if s.len() > 0 && (s.last() == '\n' || s.last() == '\r') {
        trim_newlines_end(s.drop_last())
    } else {
        s
    }
}

/// The text of line `l`, its line break included.
pub open spec fn line_text(s: Seq<char>, l: nat) -> Seq<char> {
    s.subrange(line_start(s, l), line_start(s, l + 1))
}

/// Where the visible part of line `l` ends: before its trailing `\n`/`\r`.
pub open spec fn visual_end_of(s: Seq<char>, l: nat) -> int {
    line_start(s, l) + trim_newlines_end(line_text(s, l)).len()
}

pub proof fn lemma_trim_newlines_len(s: Seq<char>)
    ensures
        trim_newlines_end(s).len() <= s.len(),
        trim_newlines_end(s) == s.take(trim_newlines_end(s).len() as int),
    decreases s.len(),
{
    if s.len() > 0 && (s.last() == '\n' || s.last() == '\r') {
        lemma_trim_newlines_len(s.drop_last());
        assert(s.drop_last().take(trim_newlines_end(s).len() as int) == s.take(
            trim_newlines_end(s).len() as int,
        ));
    } else {
        assert(s.take(s.len() as int) == s);
    }
}

proof fn lemma_current_line(s: Seq<char>, caret: int)
    ensures
        current_line_of(s, caret) < line_count(s),
        0 <= line_start(s, current_line_of(s, caret)) <= s.len(),
{
    if s.len() == 0 {
        lemma_line_start(s, 0);
    } else if caret < s.len() - 1 {
        if caret < 0 {
            assert(breaks_before(s, caret) == 0);
            lemma_line_start(s, 0);
        } else {
            lemma_line_of_start(s, caret);
            lemma_line_start(s, breaks_before(s, caret));
        }
    } else {
        lemma_line_of_start(s, s.len() - 1);
        lemma_line_start(s, breaks_before(s, s.len() - 1));
    }
}

/// Line of the caret at `caret_char`.
fn current_line_index(buffer: &Buffer, caret_char: usize) -> (l: usize)
    ensures
        l == current_line_of(buffer@, caret_char as int),
        l < line_count(buffer@),
{
    proof {
        lemma_current_line(buffer@, caret_char as int);
    }
    let total_chars = buffer.len_chars();
    if total_chars == 0 {
        return 0;
    }
    let clamped = if caret_char < total_chars - 1 {
        caret_char
    } else {
        total_chars - 1
    };
    buffer.char_to_line(clamped)
}

/// Number of characters of `s` left after trimming trailing `\n`/`\r`.
fn trimmed_newline_len(s: &str) -> (n: usize)
    ensures
        n == trim_newlines_end(s@).len(),
{
    let chars = crate::text::str_chars(s);
    let mut n = chars.len();
    proof {
        assert(chars@.take(n as int) == chars@);
    }
    loop
        invariant
            n <= chars.len(),
            chars@ == s@,
            trim_newlines_end(chars@.take(n as int)) == trim_newlines_end(s@),
        ensures
            n <= chars.len(),
            n == trim_newlines_end(s@).len(),
        decreases n,
    {
        if n == 0 {
            break;
        }
        let c = chars[n - 1];
        if c != '\n' && c != '\r' {
            break;
        }
        proof {
            assert(chars@.take(n as int).drop_last() == chars@.take(n - 1));
        }
        n -= 1;
    }
    n
}

/// Position right after the visible text of line `line`.
fn line_visual_end_char(buffer: &Buffer, line: usize) -> (e: usize)
    requires
        line < line_count(buffer@),
    ensures
        e == visual_end_of(buffer@, line as nat),
        line_start(buffer@, line as nat) <= e <= line_start(buffer@, (line + 1) as nat),
        e <= buffer@.len(),
{
    proof {
        lemma_line_starts_ordered(buffer@, line as nat);
    }
    let total = buffer.len_chars();
    let start = buffer.line_to_char(line);
    let line_text = buffer.line(line).unwrap();
    proof {
        assert(line_text@.len() == line_start(buffer@, (line + 1) as nat) - start);
    }
    let content_len = trimmed_newline_len(line_text.as_str());
    proof {
        lemma_trim_newlines_len(line_text@);
    }
    start + content_len
}

/// Position right after the visible text of line `line`.
pub fn visual_line_end(buffer: &Buffer, line: usize) -> (e: usize)
    requires
        line < line_count(buffer@),
    ensures
        e == visual_end_of(buffer@, line as nat),
        line_start(buffer@, line as nat) <= e <= line_start(buffer@, (line + 1) as nat),
        e <= buffer@.len(),
{
    line_visual_end_char(buffer, line)
}

/// One-based (line, column) of the caret at `caret_char`.
pub fn line_column(buffer: &Buffer, caret_char: usize) -> (lc: (usize, usize))
    requires
        caret_char < usize::MAX || line_start(buffer@, current_line_of(buffer@, caret_char as int))
            > 0,
    ensures
        lc.0 == current_line_of(buffer@, caret_char as int) + 1,
        lc.1 == (if caret_char >= line_start(buffer@, current_line_of(buffer@, caret_char as int)) {
            caret_char - line_start(buffer@, current_line_of(buffer@, caret_char as int))
        } else {
            0
        }) + 1,
{
    let line = current_line_index(buffer, caret_char);
    let line_start = buffer.line_to_char(line);
    // The line count is a `usize` and exceeds `line`, so `line + 1` fits.
    let _line_total: usize = buffer.len_lines();
    (line + 1, caret_char.saturating_sub(line_start) + 1)
}

} // verus!

verus! {

// ---------------------------------------------------------------------------
// Caret

/// Caret and selection anchor, as recorded around an edit.
#[derive(Clone, Copy, Debug, Default, PartialEq, Eq)]
pub struct CaretSnapshot {
    pub caret_char: usize,
    pub anchor_char: Option<usize>,
}

/// The caret, the anchor of a selection in progress, and the column that
/// vertical moves try to keep.
#[derive(Clone, Copy, Debug)]
pub struct CaretState {
    caret_char: usize,
    anchor_char: Option<usize>,
    preferred_column: Option<usize>,
}

/// `a` clamped to at most `b`.
pub open spec fn min_int(a: int, b: int) -> int {
    if a < b {
        a
    } else {
        b
    }
}

/// The selection spanned by `caret` and `anchor`, smaller end first; `None`
/// without an anchor or when both coincide.
pub open spec fn selection_of(caret: usize, anchor: Option<usize>) -> Option<(int, int)> {
    match anchor {
        Some(a) => if a == caret {
            None
        } else if a < caret {
            Some((a as int, caret as int))
        } else {
            Some((caret as int, a as int))
        },
        None => None,
    }
}

/// A vertical move aims for the column remembered by an earlier vertical
/// move, not the caret's own column, and remembers it again; without one,
/// it aims for the caret's column and remembers that.
pub proof fn law_vertical_move_keeps_the_column(
    c: CaretState,
    s: Seq<char>,
    line: nat,
    target_line: nat,
    selecting: bool,
    after: CaretState,
)
    requires
        c.vertical_move(s, line, target_line, selecting, after),
    ensures
        c.preferred() matches Some(p) ==> after.preferred() == Some(p) && after.caret() == min_int(
            min_int(line_start(s, target_line) + p, visual_end_of(s, target_line)),
            s.len() as int,
        ),
        c.preferred() is None && c.caret() >= line_start(s, line) ==> after.preferred() == Some(
            (c.caret() - line_start(s, line)) as usize,
        ) && after.caret() == min_int(
            min_int(line_start(s, target_line) + c.caret() - line_start(s, line), visual_end_of(s, target_line)),
            s.len() as int,
        ),
{
}

/// Two vertical moves in a row: the second aims for the column the caret
/// had before the first, even when the line in between was shorter.
pub proof fn law_column_survives_a_short_line(
    c1: CaretState,
    c2: CaretState,
    c3: CaretState,
    s: Seq<char>,
    l1: nat,
    l2: nat,
    l3: nat,
    selecting: bool,
)
    requires
        c1.preferred() is None,
        0 <= line_start(s, l1) <= c1.caret(),
        c1.vertical_move(s, l1, l2, selecting, c2),
        c2.vertical_move(s, l2, l3, selecting, c3),
    ensures
        c3.caret() == min_int(
            min_int(line_start(s, l3) + c1.caret() - line_start(s, l1), visual_end_of(s, l3)),
            s.len() as int,
        ),
        c3.preferred() == Some((c1.caret() - line_start(s, l1)) as usize),
{
    law_vertical_move_keeps_the_column(c1, s, l1, l2, selecting, c2);
    law_vertical_move_keeps_the_column(c2, s, l2, l3, selecting, c3);
}

/// A caret kept within a buffer, as every `CaretState` method keeps it from
/// its start at 0, reports a caret and a selection inside that buffer.
pub proof fn law_caret_stays_within(c: CaretState, len: int)
    requires
        c.within(len),
    ensures
        c.caret() <= len,
        c.selection() matches Some((s, e)) ==> 0 <= s <= e <= len,
{
}

impl Default for CaretState {
    fn default() -> (c: Self)
        ensures
            c.caret() == 0,
            c.anchor() is None,
            c.preferred() is None,
            forall|len: nat| #[trigger] c.within(len as int),
    {
        CaretState { caret_char: 0, anchor_char: None, preferred_column: None }
    }
}

impl CaretState {
    /// Caret position.
    pub closed spec fn caret(&self) -> usize {
        self.caret_char
    }

    /// Selection anchor.
    pub closed spec fn anchor(&self) -> Option<usize> {
        self.anchor_char
    }

    /// Column kept across vertical moves.
    pub closed spec fn preferred(&self) -> Option<usize> {
        self.preferred_column
    }

    /// Caret and anchor lie within a text of `len` characters. Every method
    /// that moves them keeps this for the buffer it is given.
    pub open spec fn within(&self, len: int) -> bool {
        &&& self.caret() <= len
        &&& self.anchor() matches Some(a) ==> a <= len
    }

    /// The current selection, smaller end first.
    pub open spec fn selection(&self) -> Option<(int, int)> {
        selection_of(self.caret(), self.anchor())
    }

    /// The state after `set_caret_char(next, ..)` on a text of `len`
    /// characters: caret clamped, anchor kept or started when selecting,
    /// dropped otherwise.
    pub open spec fn moved_to(&self, next: int, len: int, selecting: bool, after: CaretState) -> bool {
        &&& after.caret() == min_int(next, len)
        &&& after.anchor() == if selecting {
            match self.anchor() {
                Some(a) => Some(a),
                None => Some(self.caret()),
            }
        } else {
            None::<usize>
        }
    }

    /// Caret and anchor, as a snapshot.
    pub fn snapshot(&self) -> (s: CaretSnapshot)
        ensures
            s.caret_char == self.caret(),
            s.anchor_char == self.anchor(),
    {
        CaretSnapshot { caret_char: self.caret_char, anchor_char: self.anchor_char }
    }

    /// Put caret and anchor back as `snapshot` had them, clamped to the
    /// buffer, and forget the preferred column.
    pub fn restore(&mut self, snapshot: CaretSnapshot, buffer: &Buffer)
        ensures
            final(self).within(buffer@.len() as int),
            final(self).caret() == min_int(snapshot.caret_char as int, buffer@.len() as int),
            final(self).anchor() == match snapshot.anchor_char {
                Some(a) => Some(min_int(a as int, buffer@.len() as int) as usize),
                None => None,
            },
            final(self).preferred() is None,
    {
        let total = buffer.len_chars();
        self.caret_char = if snapshot.caret_char < total {
            snapshot.caret_char
        } else {
            total
        };
        self.anchor_char = match snapshot.anchor_char {
            Some(anchor) => Some(
                if anchor < total {
                    anchor
                } else {
                    total
                },
            ),
            None => None,
        };
        self.preferred_column = None;
    }

    /// Caret at the end of the buffer, no selection.
    pub fn reset_to_buffer_end(&mut self, buffer: &Buffer)
        ensures
            final(self).within(buffer@.len() as int),
            final(self).caret() == buffer@.len(),
            final(self).anchor() is None,
            final(self).preferred() is None,
    {
        self.caret_char = buffer.len_chars();
        self.anchor_char = None;
        self.preferred_column = None;
    }

    /// The selected range, smaller end first; `None` when nothing is
    /// selected.
    pub fn selection_range(&self) -> (r: Option<Range<usize>>)
        ensures
            match self.selection() {
                Some((s, e)) => (r matches Some(range) && range.start == s && range.end == e),
                None => r is None,
            },
    {
        let anchor = match self.anchor_char {
            Some(a) => a,
            None => return None,
        };
        if anchor == self.caret_char {
            return None;
        }
        if anchor < self.caret_char {
            Some(anchor..self.caret_char)
        } else {
            Some(self.caret_char..anchor)
        }
    }

    /// Number of selected characters.
    pub fn selection_len(&self) -> (n: usize)
        ensures
            n == match self.selection() {
                Some((s, e)) => e - s,
                None => 0,
            },
    {
        match self.selection_range() {
            Some(range) => range.end - range.start,
            None => 0,
        }
    }

    /// Caret position.
    pub fn caret_char(&self) -> (c: usize)
        ensures
            c == self.caret(),
    {
        self.caret_char
    }

    /// Move the caret to `next` (clamped to the buffer). Selecting keeps the
    /// anchor, or starts one at the old caret; otherwise the selection is
    /// dropped.
    pub fn set_caret_char(&mut self, next: usize, buffer: &Buffer, selecting: bool)
        ensures
            old(self).within(buffer@.len() as int) ==> final(self).within(buffer@.len() as int),
            old(self).moved_to(next as int, buffer@.len() as int, selecting, *final(self)),
            final(self).preferred() == old(self).preferred(),
    {
        let total = buffer.len_chars();
        let next = if next < total {
            next
        } else {
            total
        };
        if selecting {
            if self.anchor_char.is_none() {
                self.anchor_char = Some(self.caret_char);
            }
        } else {
            self.anchor_char = None;
        }
        self.caret_char = next;
    }

    /// Select the whole buffer, caret at its end.
    pub fn select_all(&mut self, buffer: &Buffer)
        ensures
            final(self).within(buffer@.len() as int),
            final(self).anchor() == Some(0usize),
            final(self).caret() == buffer@.len(),
            final(self).preferred() is None,
    {
        self.anchor_char = Some(0);
        self.caret_char = buffer.len_chars();
        self.preferred_column = None;
    }

    /// Select `start..end` (clamped), caret at `end`.
    pub fn select_range(&mut self, start: usize, end: usize, buffer: &Buffer)
        ensures
            final(self).within(buffer@.len() as int),
            final(self).anchor() == Some(min_int(start as int, buffer@.len() as int) as usize),
            final(self).caret() == min_int(end as int, buffer@.len() as int),
            final(self).preferred() is None,
    {
        let total_chars = buffer.len_chars();
        self.anchor_char = Some(
            if start < total_chars {
                start
            } else {
                total_chars
            },
        );
        self.caret_char = if end < total_chars {
            end
        } else {
            total_chars
        };
        self.preferred_column = None;
    }

    /// Drop the selection anchor.
    pub fn clear_selection(&mut self)
        ensures
            forall|len: int| #[trigger] old(self).within(len) ==> final(self).within(len),
            final(self).anchor() is None,
            final(self).caret() == old(self).caret(),
            final(self).preferred() == old(self).preferred(),
    {
        self.anchor_char = None;
    }

    /// Forget the column kept across vertical moves.
    pub fn clear_preferred_column(&mut self)
        ensures
            forall|len: int| #[trigger] old(self).within(len) ==> final(self).within(len),
            final(self).preferred() is None,
            final(self).caret() == old(self).caret(),
            final(self).anchor() == old(self).anchor(),
    {
        self.preferred_column = None;
    }

    /// The state after a horizontal move to `target`: a move without
    /// selecting collapses an existing selection to its `collapse_to` end
    /// instead.
    pub open spec fn horizontal_move(
        &self,
        target: int,
        collapse_left: bool,
        len: int,
        selecting: bool,
        after: CaretState,
    ) -> bool {
        &&& after.preferred() is None
        &&& match self.selection() {
            Some((s, e)) if !selecting => {
                &&& after.caret() == if collapse_left {
                    s
                } else {
                    e
                }
                &&& after.anchor() is None
            },
            _ => self.moved_to(target, len, selecting, after),
        }
    }

    /// One character left; without selecting, a selection collapses to its
    /// start.
    pub fn move_left(&mut self, buffer: &Buffer, selecting: bool)
        ensures
            old(self).within(buffer@.len() as int) ==> final(self).within(buffer@.len() as int),
            old(self).horizontal_move(
                if old(self).caret() > 0 {
                    old(self).caret() - 1
                } else {
                    0
                },
                true,
                buffer@.len() as int,
                selecting,
                *final(self),
            ),
    {
        if !selecting {
            if let Some(range) = self.selection_range() {
                self.caret_char = range.start;
                self.anchor_char = None;
                self.preferred_column = None;
                return;
            }
        }
        let previous = self.caret_char.saturating_sub(1);
        self.set_caret_char(previous, buffer, selecting);
        self.preferred_column = None;
    }

    /// One character right; without selecting, a selection collapses to its
    /// end.
    pub fn move_right(&mut self, buffer: &Buffer, selecting: bool)
        ensures
            old(self).within(buffer@.len() as int) ==> final(self).within(buffer@.len() as int),
            old(self).horizontal_move(
                min_int(old(self).caret() + 1, buffer@.len() as int),
                false,
                buffer@.len() as int,
                selecting,
                *final(self),
            ),
    {
        if !selecting {
            if let Some(range) = self.selection_range() {
                self.caret_char = range.end;
                self.anchor_char = None;
                self.preferred_column = None;
                return;
            }
        }
        let total = buffer.len_chars();
        let next = if self.caret_char < total {
            self.caret_char + 1
        } else {
            total
        };
        self.set_caret_char(next, buffer, selecting);
        self.preferred_column = None;
    }

    /// One word left; without selecting, a selection collapses to its start.
    pub fn move_word_left(&mut self, buffer: &Buffer, selecting: bool)
        requires
            (selecting || old(self).selection() is None) ==> old(self).caret() <= buffer@.len(),
        ensures
            old(self).within(buffer@.len() as int) ==> final(self).within(buffer@.len() as int),
            old(self).horizontal_move(
                previous_word_boundary_of(buffer@, old(self).caret() as int),
                true,
                buffer@.len() as int,
                selecting,
                *final(self),
            ),
    {
        if !selecting {
            if let Some(range) = self.selection_range() {
                self.caret_char = range.start;
                self.anchor_char = None;
                self.preferred_column = None;
                return;
            }
        }
        let target = self.previous_word_boundary(buffer);
        self.set_caret_char(target, buffer, selecting);
        self.preferred_column = None;
    }

    /// One word right; without selecting, a selection collapses to its end.
    pub fn move_word_right(&mut self, buffer: &Buffer, selecting: bool)
        ensures
            old(self).within(buffer@.len() as int) ==> final(self).within(buffer@.len() as int),
            old(self).horizontal_move(
                next_word_boundary_of(buffer@, old(self).caret() as int),
                false,
                buffer@.len() as int,
                selecting,
                *final(self),
            ),
    {
        if !selecting {
            if let Some(range) = self.selection_range() {
                self.caret_char = range.end;
                self.anchor_char = None;
                self.preferred_column = None;
                return;
            }
        }
        let target = self.next_word_boundary(buffer);
        self.set_caret_char(target, buffer, selecting);
        self.preferred_column = None;
    }

    /// Where a word-wise move left from the caret lands.
    pub fn previous_word_boundary(&self, buffer: &Buffer) -> (r: usize)
        requires
            self.caret() <= buffer@.len(),
        ensures
            r == previous_word_boundary_of(buffer@, self.caret() as int),
    {
        previous_word_boundary(buffer, self.caret_char)
    }

    /// Where a word-wise move right from the caret lands.
    pub fn next_word_boundary(&self, buffer: &Buffer) -> (r: usize)
        ensures
            r == next_word_boundary_of(buffer@, self.caret() as int),
    {
        next_word_boundary(buffer, self.caret_char)
    }

    /// To the start of the caret's line.
    pub fn move_home(&mut self, buffer: &Buffer, selecting: bool)
        ensures
            old(self).within(buffer@.len() as int) ==> final(self).within(buffer@.len() as int),
            old(self).moved_to(
                line_start(buffer@, current_line_of(buffer@, old(self).caret() as int)),
                buffer@.len() as int,
                selecting,
                *final(self),
            ),
            final(self).preferred() is None,
    {
        let line = current_line_index(buffer, self.caret_char);
        let start = buffer.line_to_char(line);
        self.set_caret_char(start, buffer, selecting);
        self.preferred_column = None;
    }

    /// To the end of the visible text of the caret's line.
    pub fn move_end(&mut self, buffer: &Buffer, selecting: bool)
        ensures
            old(self).within(buffer@.len() as int) ==> final(self).within(buffer@.len() as int),
            old(self).moved_to(
                visual_end_of(buffer@, current_line_of(buffer@, old(self).caret() as int)),
                buffer@.len() as int,
                selecting,
                *final(self),
            ),
            final(self).preferred() is None,
    {
        let line = current_line_index(buffer, self.caret_char);
        let end = line_visual_end_char(buffer, line);
        self.set_caret_char(end, buffer, selecting);
        self.preferred_column = None;
    }

    /// The column a vertical move aims for: the preferred one, or the caret's
    /// own column on line `line`.
    pub open spec fn target_column(&self, s: Seq<char>, line: nat) -> int {
        match self.preferred() {
            Some(p) => p as int,
            None => if self.caret() >= line_start(s, line) {
                self.caret() - line_start(s, line)
            } else {
                0
            },
        }
    }

    /// The state after a vertical move from line `line` to `target_line`:
    /// the target column on that line, no further than its visible end; the
    /// column is kept for the next vertical move.
    pub open spec fn vertical_move(
        &self,
        s: Seq<char>,
        line: nat,
        target_line: nat,
        selecting: bool,
        after: CaretState,
    ) -> bool {
        let column = self.target_column(s, line);
        &&& self.moved_to(
            min_int(line_start(s, target_line) + column, visual_end_of(s, target_line)),
            s.len() as int,
            selecting,
            after,
        )
        &&& after.preferred() == Some(column as usize)
    }

    /// One line up, keeping the preferred column; on the first line, to the
    /// start of the buffer.
    pub fn move_up(&mut self, buffer: &Buffer, selecting: bool)
        ensures
            old(self).within(buffer@.len() as int) ==> final(self).within(buffer@.len() as int),
            ({
                let line = current_line_of(buffer@, old(self).caret() as int);
                if line == 0 {
                    &&& old(self).moved_to(0, buffer@.len() as int, selecting, *final(self))
                    &&& final(self).preferred() == old(self).preferred()
                } else {
                    old(self).vertical_move(
                        buffer@,
                        line,
                        (line - 1) as nat,
                        selecting,
                        *final(self),
                    )
                }
            }),
    {
        let line = current_line_index(buffer, self.caret_char);
        if line == 0 {
            self.set_caret_char(0, buffer, selecting);
            return;
        }
        let current_start = buffer.line_to_char(line);
        let current_column = self.caret_char.saturating_sub(current_start);
        let target_column = match self.preferred_column {
            Some(p) => p,
            None => current_column,
        };
        let target_line = line - 1;
        let target_start = buffer.line_to_char(target_line);
        let target_end = line_visual_end_char(buffer, target_line);
        let sum = target_start.saturating_add(target_column);
        let target = if sum < target_end {
            sum
        } else {
            target_end
        };
        self.set_caret_char(target, buffer, selecting);
        self.preferred_column = Some(target_column);
    }

    /// One line down, keeping the preferred column; on the last line, to the
    /// end of the buffer.
    pub fn move_down(&mut self, buffer: &Buffer, selecting: bool)
        ensures
            old(self).within(buffer@.len() as int) ==> final(self).within(buffer@.len() as int),
            ({
                let line = current_line_of(buffer@, old(self).caret() as int);
                if line + 1 >= line_count(buffer@) {
                    &&& old(self).moved_to(
                        buffer@.len() as int,
                        buffer@.len() as int,
                        selecting,
                        *final(self),
                    )
                    &&& final(self).preferred() == old(self).preferred()
                } else {
                    old(self).vertical_move(
                        buffer@,
                        line,
                        (line + 1) as nat,
                        selecting,
                        *final(self),
                    )
                }
            }),
    {
        let total_lines = buffer.len_lines();
        let line = current_line_index(buffer, self.caret_char);
        if line + 1 >= total_lines {
            let end = buffer.len_chars();
            self.set_caret_char(end, buffer, selecting);
            return;
        }
        let current_start = buffer.line_to_char(line);
        let current_column = self.caret_char.saturating_sub(current_start);
        let target_column = match self.preferred_column {
            Some(p) => p,
            None => current_column,
        };
        let target_line = line + 1;
        let target_start = buffer.line_to_char(target_line);
        let target_end = line_visual_end_char(buffer, target_line);
        let sum = target_start.saturating_add(target_column);
        let target = if sum < target_end {
            sum
        } else {
            target_end
        };
        self.set_caret_char(target, buffer, selecting);
        self.preferred_column = Some(target_column);
    }
}

} // verus!

verus! {

// ---------------------------------------------------------------------------
// Undo history

/// Most undo steps kept; older ones are dropped.
pub const MAX_UNDO_DEPTH: usize = 1000;

/// One edit: at `start_char`, `deleted_text` was replaced by
/// `inserted_text`; the carets before and after it.
#[derive(Clone, Debug)]
pub struct EditTransaction {
    pub start_char: usize,
    pub deleted_text: String,
    pub inserted_text: String,
    pub before: CaretSnapshot,
    pub after: CaretSnapshot,
}

/// Undo and redo stacks of edits, most recent last.
#[derive(Debug)]
pub struct EditHistory {
    undo_stack: Vec<EditTransaction>,
    redo_stack: Vec<EditTransaction>,
}

/// `s` with `remove_len` characters at `start` replaced by `insert`.
pub open spec fn replaced(s: Seq<char>, start: int, remove_len: int, insert: Seq<char>) -> Seq<
    char,
> {
    s.take(start) + insert + s.skip(start + remove_len)
}

/// The text an edit produces from the text it was made on.
pub open spec fn applied(s: Seq<char>, t: EditTransaction) -> Seq<char> {
    replaced(s, t.start_char as int, t.deleted_text@.len() as int, t.inserted_text@)
}

/// The text undoing an edit produces from the text after it.
pub open spec fn unapplied(s: Seq<char>, t: EditTransaction) -> Seq<char> {
    replaced(s, t.start_char as int, t.inserted_text@.len() as int, t.deleted_text@)
}

/// `stack` with its oldest entry dropped once it is deeper than the cap.
pub open spec fn capped(stack: Seq<EditTransaction>) -> Seq<EditTransaction> {
    if stack.len() > MAX_UNDO_DEPTH {
        stack.skip(1)
    } else {
        stack
    }
}

impl Default for EditHistory {
    fn default() -> (h: Self)
        ensures
            h.undo_stack() == Seq::<EditTransaction>::empty(),
            h.redo_stack() == Seq::<EditTransaction>::empty(),
    {
        EditHistory { undo_stack: Vec::new(), redo_stack: Vec::new() }
    }
}

/// Replace `remove_len` characters at `start` by `insert_text`.
fn apply_replace(buffer: &mut Buffer, start: usize, remove_len: usize, insert_text: &str)
    requires
        start + remove_len <= old(buffer)@.len(),
    ensures
        final(buffer)@ == replaced(
            old(buffer)@,
            start as int,
            remove_len as int,
            insert_text@,
        ),
        final(buffer).path_view() == old(buffer).path_view(),
{
    let total = buffer.len_chars();
    if remove_len > 0 {
        buffer.remove(start..start + remove_len);
    }
    if !insert_text.is_empty() {
        buffer.insert(start, insert_text);
    }
    proof {
        let s = old(buffer)@;
        assert(s.take(start as int) + s.skip(start + remove_len) == replaced(
            s,
            start as int,
            remove_len as int,
            Seq::<char>::empty(),
        ));
    }
}

impl EditHistory {
    /// Undo stack, most recent last.
    pub closed spec fn undo_stack(&self) -> Seq<EditTransaction> {
        self.undo_stack@
    }

    /// Redo stack, most recent last.
    pub closed spec fn redo_stack(&self) -> Seq<EditTransaction> {
        self.redo_stack@
    }

    /// `t` continues the typing run of the last undo step: both only insert,
    /// and `t` starts where the last insertion ended.
    pub open spec fn coalesces(&self, t: EditTransaction) -> bool {
        &&& self.undo_stack().len() > 0
        &&& self.undo_stack().last().deleted_text@.len() == 0
        &&& t.deleted_text@.len() == 0
        &&& t.start_char == self.undo_stack().last().start_char
            + self.undo_stack().last().inserted_text@.len()
    }

    /// `after` is `before` with `t` recorded, as `push` records it.
    pub open spec fn pushed(before: EditHistory, t: EditTransaction, after: EditHistory) -> bool {
        if before.coalesces(t) {
            let last = before.undo_stack().last();
            let merged = after.undo_stack().last();
            &&& after.undo_stack().len() == before.undo_stack().len()
            &&& after.undo_stack().drop_last() == before.undo_stack().drop_last()
            &&& merged.start_char == last.start_char
            &&& merged.deleted_text == last.deleted_text
            &&& merged.inserted_text@ == last.inserted_text@ + t.inserted_text@
            &&& merged.before == last.before
            &&& merged.after == t.after
            &&& after.redo_stack() == before.redo_stack()
        } else {
            &&& after.undo_stack() == capped(before.undo_stack().push(t))
            &&& after.redo_stack() == Seq::<EditTransaction>::empty()
        }
    }

    /// Number of undo steps.
    pub fn undo_len(&self) -> (n: usize)
        ensures
            n == self.undo_stack().len(),
    {
        self.undo_stack.len()
    }

    /// Number of redo steps.
    pub fn redo_len(&self) -> (n: usize)
        ensures
            n == self.redo_stack().len(),
    {
        self.redo_stack.len()
    }

    /// Record an edit. An insertion that continues the last insertion is
    /// merged into it (so one undo removes the whole typed run, and the redo
    /// stack is kept); any other edit becomes a new undo step, the oldest
    /// step is dropped beyond the depth cap, and the redo stack is cleared.
    pub fn push(&mut self, transaction: EditTransaction)
        ensures
            EditHistory::pushed(*old(self), transaction, *final(self)),
    {
        let n = self.undo_stack.len();
        if n > 0 {
            let last = &self.undo_stack[n - 1];
            if last.deleted_text.as_str().is_empty() && transaction.deleted_text.as_str().is_empty()
                && transaction.start_char >= last.start_char && transaction.start_char
                - last.start_char == last.inserted_text.as_str().unicode_len() {
                let mut merged = self.undo_stack.pop().unwrap();
                merged.inserted_text.append(transaction.inserted_text.as_str());
                merged.after = transaction.after;
                self.undo_stack.push(merged);
                proof {
                    assert(self.undo_stack@.drop_last() == old(self).undo_stack@.drop_last());
                }
                return;
            }
        }
        self.undo_stack.push(transaction);
        if self.undo_stack.len() > MAX_UNDO_DEPTH {
            self.undo_stack.remove(0);
        }
        self.redo_stack.clear();
    }

    /// Forget all undo and redo steps.
    pub fn clear(&mut self)
        ensures
            final(self).undo_stack() == Seq::<EditTransaction>::empty(),
            final(self).redo_stack() == Seq::<EditTransaction>::empty(),
    {
        self.undo_stack.clear();
        self.redo_stack.clear();
    }

    /// Undo the most recent step: its inserted text is replaced by the text
    /// it deleted, the step moves to the redo stack, and the caret it started
    /// from is returned. `None`, with nothing changed, when there is nothing
    /// to undo.
    pub fn undo(&mut self, buffer: &mut Buffer) -> (r: Option<CaretSnapshot>)
        requires
            old(self).undo_stack().len() > 0 ==> old(self).undo_stack().last().start_char
                + old(self).undo_stack().last().inserted_text@.len() <= old(buffer)@.len(),
        ensures
            old(self).undo_stack().len() == 0 ==> {
                &&& r is None
                &&& *final(self) == *old(self)
                &&& *final(buffer) == *old(buffer)
            },
            old(self).undo_stack().len() > 0 ==> {
                let t = old(self).undo_stack().last();
                &&& r == Some(t.before)
                &&& final(self).undo_stack() == old(self).undo_stack().drop_last()
                &&& final(self).redo_stack() == old(self).redo_stack().push(t)
                &&& final(buffer)@ == unapplied(old(buffer)@, t)
            },
            final(buffer).path_view() == old(buffer).path_view(),
            old(self).fits(old(buffer)@.len() as int) ==> final(self).fits(
                final(buffer)@.len() as int,
            ),
    {
        if self.undo_stack.len() == 0 {
            return None;
        }
        let transaction = self.undo_stack.pop().unwrap();
        let remove_len = transaction.inserted_text.as_str().unicode_len();
        apply_replace(buffer, transaction.start_char, remove_len, transaction.deleted_text.as_str());
        let before = transaction.before;
        self.redo_stack.push(transaction);
        proof {
            assert(self.redo_stack@.drop_last() == old(self).redo_stack@);
        }
        Some(before)
    }

    /// Redo the most recently undone step: its deleted text is replaced by
    /// the text it inserted, the step moves back to the undo stack, and the
    /// caret after it is returned. `None`, with nothing changed, when there
    /// is nothing to redo.
    pub fn redo(&mut self, buffer: &mut Buffer) -> (r: Option<CaretSnapshot>)
        requires
            old(self).redo_stack().len() > 0 ==> old(self).redo_stack().last().start_char
                + old(self).redo_stack().last().deleted_text@.len() <= old(buffer)@.len(),
        ensures
            old(self).redo_stack().len() == 0 ==> {
                &&& r is None
                &&& *final(self) == *old(self)
                &&& *final(buffer) == *old(buffer)
            },
            old(self).redo_stack().len() > 0 ==> {
                let t = old(self).redo_stack().last();
                &&& r == Some(t.after)
                &&& final(self).redo_stack() == old(self).redo_stack().drop_last()
                &&& final(self).undo_stack() == old(self).undo_stack().push(t)
                &&& final(buffer)@ == applied(old(buffer)@, t)
            },
            final(buffer).path_view() == old(buffer).path_view(),
            old(self).fits(old(buffer)@.len() as int) ==> final(self).fits(
                final(buffer)@.len() as int,
            ),
    {
        if self.redo_stack.len() == 0 {
            return None;
        }
        let transaction = self.redo_stack.pop().unwrap();
        let remove_len = transaction.deleted_text.as_str().unicode_len();
        apply_replace(
            buffer,
            transaction.start_char,
            remove_len,
            transaction.inserted_text.as_str(),
        );
        let after = transaction.after;
        self.undo_stack.push(transaction);
        proof {
            assert(self.undo_stack@.drop_last() == old(self).undo_stack@);
        }
        Some(after)
    }
}

} // verus!

verus! {

/// Every undo step can be undone from a text of `len` characters and the
/// steps below it from the text that undoing it leaves: each inserted run
/// lies within the text it is taken from.
pub open spec fn undo_fits(stack: Seq<EditTransaction>, len: int) -> bool
    decreases stack.len(),
{
    if stack.len() == 0 {
        true
    } else {
        let t = stack.last();
        &&& t.start_char + t.inserted_text@.len() <= len
        &&& undo_fits(stack.drop_last(), len - t.inserted_text@.len() + t.deleted_text@.len())
    }
}

/// Every redo step can be redone from a text of `len` characters and the
/// steps below it from the text that redoing it leaves.
pub open spec fn redo_fits(stack: Seq<EditTransaction>, len: int) -> bool
    decreases stack.len(),
{
    if stack.len() == 0 {
        true
    } else {
        let t = stack.last();
        &&& t.start_char + t.deleted_text@.len() <= len
        &&& redo_fits(stack.drop_last(), len - t.deleted_text@.len() + t.inserted_text@.len())
    }
}

impl EditHistory {
    /// Undo and redo can run on a text of `len` characters without leaving it.
    pub open spec fn fits(&self, len: int) -> bool {
        undo_fits(self.undo_stack(), len) && redo_fits(self.redo_stack(), len)
    }
}

proof fn lemma_undo_fits_drop_oldest(stack: Seq<EditTransaction>, len: int)
    requires
        undo_fits(stack, len),
        stack.len() > 0,
    ensures
        undo_fits(stack.skip(1), len),
    decreases stack.len(),
{
    if stack.len() > 1 {
        let t = stack.last();
        assert(stack.skip(1).drop_last() == stack.drop_last().skip(1));
        assert(stack.skip(1).last() == t);
        lemma_undo_fits_drop_oldest(
            stack.drop_last(),
            len - t.inserted_text@.len() + t.deleted_text@.len(),
        );
    } else {
        assert(stack.skip(1).len() == 0);
    }
}

proof fn lemma_redo_fits_grow(stack: Seq<EditTransaction>, len: int, len2: int)
    requires
        redo_fits(stack, len),
        len <= len2,
    ensures
        redo_fits(stack, len2),
    decreases stack.len(),
{
    if stack.len() > 0 {
        let t = stack.last();
        lemma_redo_fits_grow(
            stack.drop_last(),
            len - t.deleted_text@.len() + t.inserted_text@.len(),
            len2 - t.deleted_text@.len() + t.inserted_text@.len(),
        );
    }
}

/// Recording an edit made on a text of `len` characters keeps the history
/// runnable on the edited text.
pub proof fn lemma_pushed_fits(before: EditHistory, t: EditTransaction, after: EditHistory, len: int)
    requires
        before.fits(len),
        EditHistory::pushed(before, t, after),
        t.start_char + t.deleted_text@.len() <= len,
    ensures
        after.fits(len - t.deleted_text@.len() + t.inserted_text@.len()),
{
    let new_len = len - t.deleted_text@.len() + t.inserted_text@.len();
    if before.coalesces(t) {
        let last = before.undo_stack().last();
        let merged = after.undo_stack().last();
        assert(after.undo_stack().drop_last() == before.undo_stack().drop_last());
        assert(undo_fits(after.undo_stack(), new_len));
        lemma_redo_fits_grow(before.redo_stack(), len, new_len);
    } else {
        let pushed = before.undo_stack().push(t);
        assert(pushed.drop_last() == before.undo_stack());
        assert(undo_fits(pushed, new_len));
        if pushed.len() > MAX_UNDO_DEPTH {
            lemma_undo_fits_drop_oldest(pushed, new_len);
        }
    }
}

} // verus!

verus! {

/// Undoing an edit gives back the text it was made on.
pub proof fn law_undo_inverts_edit(text: Seq<char>, t: EditTransaction)
    requires
        t.start_char + t.deleted_text@.len() <= text.len(),
        t.deleted_text@ == text.subrange(
            t.start_char as int,
            t.start_char + t.deleted_text@.len(),
        ),
    ensures
        unapplied(applied(text, t), t) == text,
{
    let s = t.start_char as int;
    let d = t.deleted_text@;
    let i = t.inserted_text@;
    let b = applied(text, t);
    assert(b.take(s) == text.take(s));
    assert(b.skip(s + i.len()) == text.skip(s + d.len()));
    assert(text.take(s) + d + text.skip(s + d.len()) == text);
}

/// Redoing an undone edit gives back the text it was undone from.
pub proof fn law_redo_inverts_undo(text: Seq<char>, t: EditTransaction)
    requires
        t.start_char + t.inserted_text@.len() <= text.len(),
        t.inserted_text@ == text.subrange(
            t.start_char as int,
            t.start_char + t.inserted_text@.len(),
        ),
    ensures
        applied(unapplied(text, t), t) == text,
{
    let s = t.start_char as int;
    let d = t.deleted_text@;
    let i = t.inserted_text@;
    let b = unapplied(text, t);
    assert(b.take(s) == text.take(s));
    assert(b.skip(s + d.len()) == text.skip(s + i.len()));
    assert(text.take(s) + i + text.skip(s + i.len()) == text);
}

/// Typing `x` and then `y` right after it is one insertion of `x + y`, and
/// taking that insertion out gives back the text before both.
pub proof fn law_typing_run_merges(text: Seq<char>, start: int, x: Seq<char>, y: Seq<char>)
    requires
        0 <= start <= text.len(),
    ensures
        replaced(replaced(text, start, 0, x), start + x.len(), 0, y) == replaced(
            text,
            start,
            0,
            x + y,
        ),
        replaced(replaced(text, start, 0, x + y), start, (x.len() + y.len()) as int, Seq::<char>::empty())
            == text,
{
    let a = replaced(text, start, 0, x);
    assert(a.take(start + x.len()) == text.take(start) + x);
    assert(a.skip(start + x.len()) == text.skip(start));
    let m = replaced(text, start, 0, x + y);
    assert(m.take(start) == text.take(start));
    assert(m.skip(start + x.len() + y.len()) == text.skip(start));
    assert(text.take(start) + text.skip(start) == text);
}

} // verus!
