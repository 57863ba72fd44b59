//! Line structure of a character sequence, as a rope counts it: a line ends
//! after LF, VT, FF, CR, NEL, LS or PS, and a CR directly followed by LF ends
//! its line only together with that LF.

use vstd::prelude::*;

verus! {

/// A character that can end a line.
pub open spec fn is_break_char(c: char) -> bool {
    c == '\n' || c == '\u{0B}' || c == '\u{0C}' || c == '\r' || c == '\u{85}' || c == '\u{2028}'
        || c == '\u{2029}'
}

/// Position `j` of `s` holds the last character of a line break.
pub open spec fn is_line_end(s: Seq<char>, j: int) -> bool {
    &&& 0 <= j < s.len()
    &&& is_break_char(s[j])
    &&& !(s[j] == '\r' && j + 1 < s.len() && s[j + 1] == '\n')
}

/// Number of line breaks that end before position `i`.
pub open spec fn breaks_before(s: Seq<char>, i: int) -> nat
    decreases i,
{
    if i <= 0 {
        0
    } else {
        breaks_before(s, i - 1) + if is_line_end(s, i - 1) {
            1nat
        } else {
            0nat
        }
    }
}

/// Number of lines of `s`; a text that ends with a line break has a final
/// empty line.
pub open spec fn line_count(s: Seq<char>) -> nat {
    breaks_before(s, s.len() as int) + 1
}

/// `r` is where line `l` of `s` starts.
pub open spec fn is_line_start(s: Seq<char>, l: nat, r: int) -> bool {
    &&& 0 <= r <= s.len()
    &&& breaks_before(s, r) == l
    &&& (r == 0 || is_line_end(s, r - 1))
}

/// Start of line `l`; one past the end for `l == line_count(s)` and beyond.
pub open spec fn line_start(s: Seq<char>, l: nat) -> int {
    if l < line_count(s) {
        choose|r: int| is_line_start(s, l, r)
    } else {
        s.len() as int
    }
}

/// Line index of position `i`, clamped to the text.
pub open spec fn line_of(s: Seq<char>, i: int) -> nat {
    breaks_before(s, i)
}

pub proof fn lemma_breaks_before_monotone(s: Seq<char>, i: int, j: int)
    requires
        i <= j,
    ensures
        breaks_before(s, i) <= breaks_before(s, j),
    decreases j - i,
{
    if i < j {
        lemma_breaks_before_monotone(s, i, j - 1);
    }
}

/// A position strictly after a line end has more breaks before it.
pub proof fn lemma_breaks_after_line_end(s: Seq<char>, e: int, j: int)
    requires
        is_line_end(s, e),
        e < j,
    ensures
        breaks_before(s, j) >= breaks_before(s, e) + 1,
{
    lemma_breaks_before_monotone(s, e + 1, j);
}

/// Between two positions with the same break count, no line ends.
pub proof fn lemma_no_line_end_between(s: Seq<char>, i: int, j: int, k: int)
    requires
        i <= k < j,
        breaks_before(s, i) == breaks_before(s, j),
    ensures
        !is_line_end(s, k),
{
    lemma_breaks_before_monotone(s, i, k);
    if is_line_end(s, k) {
        lemma_breaks_after_line_end(s, k, j);
    }
}

/// Every line has a start, and only one.
pub proof fn lemma_line_start(s: Seq<char>, l: nat)
    requires
        l < line_count(s),
    ensures
        is_line_start(s, l, line_start(s, l)),
        forall|r: int| is_line_start(s, l, r) ==> r == line_start(s, l),
{
    lemma_line_start_exists(s, l, s.len() as int);
    let r0 = line_start(s, l);
    assert forall|r: int| is_line_start(s, l, r) implies r == r0 by {
        lemma_line_start_unique(s, l, r, r0);
    }
}

proof fn lemma_line_start_unique(s: Seq<char>, l: nat, a: int, b: int)
    requires
        is_line_start(s, l, a),
        is_line_start(s, l, b),
    ensures
        a == b,
{
    if a < b {
        lemma_breaks_after_line_end(s, b - 1, b);
        lemma_breaks_before_monotone(s, a, b - 1);
    } else if b < a {
        lemma_breaks_after_line_end(s, a - 1, a);
        lemma_breaks_before_monotone(s, b, a - 1);
    }
}

proof fn lemma_line_start_exists(s: Seq<char>, l: nat, n: int)
    requires
        0 <= n <= s.len(),
        l <= breaks_before(s, n),
    ensures
        exists|r: int| is_line_start(s, l, r),
    decreases n,
{
    if n == 0 {
        assert(is_line_start(s, l, 0));
    } else if breaks_before(s, n - 1) >= l {
        lemma_line_start_exists(s, l, n - 1);
    } else {
        assert(is_line_start(s, l, n));
    }
}

/// The start of the line that holds position `i` is at or before `i`, and no
/// line ends between the two.
pub proof fn lemma_line_of_start(s: Seq<char>, i: int)
    requires
        0 <= i <= s.len(),
    ensures
        line_of(s, i) < line_count(s),
        line_start(s, line_of(s, i)) <= i,
        forall|k: int| line_start(s, line_of(s, i)) <= k < i ==> !is_line_end(s, k),
{
    let l = line_of(s, i);
    lemma_breaks_before_monotone(s, i, s.len() as int);
    lemma_line_start(s, l);
    let r = line_start(s, l);
    if r > i {
        lemma_breaks_after_line_end(s, r - 1, r);
        lemma_breaks_before_monotone(s, i, r - 1);
    }
    assert forall|k: int| r <= k < i implies !is_line_end(s, k) by {
        lemma_no_line_end_between(s, r, i, k);
    }
}

/// Consecutive line starts are ordered.
pub proof fn lemma_line_starts_ordered(s: Seq<char>, l: nat)
    requires
        l < line_count(s),
    ensures
        line_start(s, l) < line_start(s, l + 1) || (l + 1 == line_count(s) && line_start(s, l)
            <= line_start(s, l + 1)),
        0 <= line_start(s, l) <= s.len(),
        0 <= line_start(s, l + 1) <= s.len(),
{
    lemma_line_start(s, l);
    if l + 1 < line_count(s) {
        lemma_line_start(s, (l + 1) as nat);
        let a = line_start(s, l);
        let b = line_start(s, (l + 1) as nat);
        if b <= a {
            lemma_breaks_before_monotone(s, b, a);
        }
    }
}

} // verus!
