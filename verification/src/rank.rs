//! Fuzzy ranking for the command palette: score a query against command
//! titles and keywords, sort the matches, and derive the emphasis ranges of
//! the matched characters.

use vstd::prelude::*;

use crate::commands::PaletteItem;
use crate::text::{
    char_is_whitespace, is_whitespace, lowercase, str_chars, str_to_lowercase, string_from_chars,
    string_views,
};

verus! {

/// The first index at or after `start` where `c` holds `ch`.
pub open spec fn find_from(c: Seq<char>, ch: char, start: int) -> Option<int>
    decreases c.len() - start,
{
    if start < 0 || start >= c.len() {
        None
    } else if c[start] == ch {
        Some(start)
    } else {
        find_from(c, ch, start + 1)
    }
}

/// Where the characters of `q` are found in `c`, each as early as possible
/// after the one before; `None` when `q` is not a subsequence of `c`.
pub open spec fn greedy_positions(q: Seq<char>, c: Seq<char>) -> Option<Seq<int>>
    decreases q.len(),
{
    if q.len() == 0 {
        Some(Seq::<int>::empty())
    } else {
        match greedy_positions(q.drop_last(), c) {
            None => None,
            Some(ps) => {
                let start = if ps.len() == 0 {
                    0
                } else {
                    ps.last() + 1
                };
                match find_from(c, q.last(), start) {
                    None => None,
                    Some(i) => Some(ps.push(i)),
                }
            },
        }
    }
}

/// The score of a match of `qlen` characters at `ps` in a candidate of
/// `clen` characters: compact matches, matches at the start and short
/// candidates score higher.
pub open spec fn match_score(qlen: int, clen: int, ps: Seq<int>) -> int {
    let first = ps[0];
    let span = ps.last() - first + 1;
    let prefix_bonus: int = if first == 0 {
        24
    } else {
        0
    };
    qlen * 16 - span * 4 + prefix_bonus - first - clen
}

/// The fuzzy match of `q` against `c` (both already lowercased): its score
/// and positions, or `None` when `q` is empty or not a subsequence of `c`.
pub open spec fn fuzzy(q: Seq<char>, c: Seq<char>) -> Option<(int, Seq<int>)> {
    if q.len() == 0 {
        None
    } else {
        match greedy_positions(q, c) {
            None => None,
            Some(ps) => Some((match_score(q.len() as int, c.len() as int, ps), ps)),
        }
    }
}

/// A score as 32-bit arithmetic leaves it: the exact value, wrapped into
/// `i32`. It is the exact value whenever that fits.
pub open spec fn wrapped(score: int) -> int {
    (score as i32) as int
}

/// The fuzzy match of `query` against `candidate`, compared in lowercase,
/// with its score in `i32`.
pub open spec fn fuzzy_of(query: Seq<char>, candidate: Seq<char>) -> Option<(int, Seq<int>)> {
    match fuzzy(lowercase(query), lowercase(candidate)) {
        Some((score, ps)) => Some((wrapped(score), ps)),
        None => None,
    }
}

/// A sequence of indices as integers.
pub open spec fn int_seq(v: Seq<usize>) -> Seq<int> {
    v.map_values(|p: usize| p as int)
}

/// A sequence of index pairs as integers.
pub open spec fn int_pairs(v: Seq<(usize, usize)>) -> Seq<(int, int)> {
    v.map_values(|p: (usize, usize)| (p.0 as int, p.1 as int))
}

/// Maximal runs of consecutive positions, each as a half-open range.
pub open spec fn runs(ps: Seq<int>) -> Seq<(int, int)>
    decreases ps.len(),
{
    if ps.len() == 0 {
        Seq::<(int, int)>::empty()
    } else {
        let before = runs(ps.drop_last());
        let p = ps.last();
        if before.len() > 0 && before.last().1 == p {
            before.update(before.len() - 1, (before.last().0, p + 1))
        } else {
            before.push((p, p + 1))
        }
    }
}

/// A fuzzy (subsequence) match: its score and the matched character
/// positions.
pub struct FuzzyMatch {
    pub score: i32,
    pub positions: Vec<usize>,
}

/// Strictly increasing positions inside `0..len`, each at least its index.
pub open spec fn increasing_within(ps: Seq<int>, len: int) -> bool {
    &&& forall|i: int, j: int| 0 <= i < j < ps.len() ==> ps[i] < ps[j]
    &&& forall|i: int| 0 <= i < ps.len() ==> i <= #[trigger] ps[i] < len
}

/// Once a prefix of the query fails to match, the whole query fails.
proof fn lemma_greedy_none_stays(q: Seq<char>, c: Seq<char>, k: int)
    requires
        0 <= k <= q.len(),
        greedy_positions(q.take(k), c) is None,
    ensures
        greedy_positions(q, c) is None,
    decreases q.len() - k,
{
    if k < q.len() {
        assert(q.take(k + 1).drop_last() =~= q.take(k));
        lemma_greedy_none_stays(q, c, k + 1);
    } else {
        assert(q.take(k) =~= q);
    }
}

/// What `find_from` finds is at or after the start, inside `c`, and is `ch`.
proof fn lemma_find_from(c: Seq<char>, ch: char, start: int)
    ensures
        find_from(c, ch, start) matches Some(i) ==> start <= i < c.len() && c[i] == ch,
    decreases c.len() - start,
{
    if 0 <= start < c.len() && c[start] != ch {
        lemma_find_from(c, ch, start + 1);
    }
}

/// Search `c` for `ch` from `start` on.
fn find_char_from(c: &Vec<char>, ch: char, start: usize) -> (r: Option<usize>)
    requires
        start <= c.len(),
    ensures
        match find_from(c@, ch, start as int) {
            Some(i) => r == Some(i as usize),
            None => r is None,
        },
{
    let mut idx = start;
    while idx < c.len()
        invariant
            start <= idx <= c.len(),
            find_from(c@, ch, start as int) == find_from(c@, ch, idx as int),
        decreases c.len() - idx,
    {
        if c[idx] == ch {
            return Some(idx);
        }
        idx += 1;
    }
    None
}

/// Match a lowercased query against a lowercased candidate: positions
/// found greedily left to right, and the score of the match, wrapped into
/// `i32`.
pub fn fuzzy_match_lowered(query: &Vec<char>, candidate: &Vec<char>) -> (r: Option<FuzzyMatch>)
    ensures
        match fuzzy(query@, candidate@) {
            Some((score, ps)) => r matches Some(m) && m.score == wrapped(score) && int_seq(m.positions@) == ps
                && increasing_within(ps, candidate.len() as int),
            None => r is None,
        },
{
    let ghost q = query@;
    let ghost c = candidate@;
    let mut positions: Vec<usize> = Vec::new();
    let mut search_index: usize = 0;
    let mut qi: usize = 0;
    proof {
        assert(q.take(0) =~= Seq::<char>::empty());
    }
    while qi < query.len()
        invariant
            qi <= query.len(),
            q == query@,
            c == candidate@,
            greedy_positions(q.take(qi as int), c) == Some(int_seq(positions@)),
            positions.len() == qi,
            increasing_within(int_seq(positions@), c.len() as int),
            search_index == (if qi == 0 {
                0
            } else {
                positions@.last() + 1
            }),
            search_index <= c.len(),
        decreases query.len() - qi,
    {
        let ghost prefix = q.take(qi + 1);
        proof {
            assert(prefix.drop_last() =~= q.take(qi as int));
            assert(prefix.last() == q[qi as int]);
            if qi > 0 {
                assert(int_seq(positions@).last() == positions@.last() as int);
            }
        }
        let found = find_char_from(candidate, query[qi], search_index);
        match found {
            None => {
                proof {
                    lemma_greedy_none_stays(q, c, qi + 1);
                }
                return None;
            },
            Some(idx) => {
                proof {
                    lemma_find_from(c, q[qi as int], search_index as int);
                    assert(greedy_positions(prefix, c) == Some(int_seq(positions@).push(idx as int)));
                }
                let ghost before = positions@;
                positions.push(idx);
                search_index = idx + 1;
                proof {
                    assert(int_seq(positions@) =~= int_seq(before).push(idx as int));
                }
            },
        }
        qi += 1;
    }
    proof {
        assert(q.take(qi as int) =~= q);
    }
    if positions.len() == 0 {
        return None;
    }
    let ghost ps = int_seq(positions@);
    let first: usize = positions[0];
    let last: usize = positions[positions.len() - 1];
    proof {
        assert(ps[0] == first as int);
        assert(ps.last() == last as int);
        assert(ps[ps.len() - 1] == last as int);
        assert(first <= last);
        assert(query.len() <= candidate.len());
    }
    let first_w: i128 = first as i128;
    let last_w: i128 = last as i128;
    let span: i128 = last_w - first_w + 1;
    let count: i128 = query.len() as i128;
    let compactness_bonus: i128 = count * 16 - span * 4;
    let prefix_bonus: i128 = if first == 0 {
        24
    } else {
        0
    };
    let length_penalty: i128 = candidate.len() as i128;
    let exact: i128 = compactness_bonus + prefix_bonus - first_w - length_penalty;
    proof {
        assert(exact == match_score(q.len() as int, c.len() as int, ps));
    }
    let score: i32 = exact as i32;
    Some(FuzzyMatch { score, positions })
}

/// Match `query` against `candidate`, both compared in lowercase. `None` when
/// the query is empty or is not a subsequence of the candidate.
pub fn fuzzy_match(query: &str, candidate: &str) -> (r: Option<FuzzyMatch>)
    ensures
        match fuzzy_of(query@, candidate@) {
            Some((score, ps)) => r matches Some(m) && m.score == score && int_seq(m.positions@) == ps
                && increasing_within(ps, lowercase(candidate@).len() as int),
            None => r is None,
        },
{
    let query_lower = str_to_lowercase(query);
    let candidate_lower = str_to_lowercase(candidate);
    let q = str_chars(query_lower.as_str());
    let c = str_chars(candidate_lower.as_str());
    fuzzy_match_lowered(&q, &c)
}

/// The score of matching `query` against `candidate`, if it matches.
pub fn fuzzy_score(query: &str, candidate: &str) -> (r: Option<i32>)
    ensures
        match fuzzy_of(query@, candidate@) {
            Some((score, _)) => r == Some(score as i32) && score == r->0,
            None => r is None,
        },
{
    match fuzzy_match(query, candidate) {
        Some(m) => Some(m.score),
        None => None,
    }
}

/// Collapse consecutive matched positions into half-open character ranges.
pub fn positions_to_ranges(positions: &Vec<usize>) -> (r: Vec<(usize, usize)>)
    requires
        forall|i: int| 0 <= i < positions.len() ==> positions@[i] < usize::MAX,
    ensures
        int_pairs(r@) == runs(int_seq(positions@)),
{
    let ghost ps = int_seq(positions@);
    let mut ranges: Vec<(usize, usize)> = Vec::new();
    if positions.len() == 0 {
        proof {
            assert(int_pairs(ranges@) =~= runs(ps));
        }
        return ranges;
    }
    let mut start: usize = positions[0];
    let mut end: usize = start + 1;
    let mut i: usize = 1;
    proof {
        reveal_with_fuel(runs, 2);
        assert(ps.take(1).drop_last() =~= Seq::<int>::empty());
        assert(ps.take(1).last() == ps[0]);
        assert(int_pairs(ranges@).push((start as int, end as int)) =~= runs(ps.take(1)));
    }
    while i < positions.len()
        invariant
            1 <= i <= positions.len(),
            ps == int_seq(positions@),
            forall|k: int| 0 <= k < positions.len() ==> positions@[k] < usize::MAX,
            int_pairs(ranges@).push((start as int, end as int)) == runs(ps.take(i as int)),
        decreases positions.len() - i,
    {
        let position = positions[i];
        let ghost before = int_pairs(ranges@).push((start as int, end as int));
        proof {
            assert(ps.take(i + 1).drop_last() =~= ps.take(i as int));
            assert(ps.take(i + 1).last() == position as int);
            assert(before.last() == (start as int, end as int));
        }
        if position == end {
            end = position + 1;
            proof {
                assert(int_pairs(ranges@).push((start as int, end as int)) =~= before.update(
                    before.len() - 1,
                    (before.last().0, position + 1),
                ));
            }
        } else {
            let ghost old_ranges = ranges@;
            ranges.push((start, end));
            start = position;
            end = position + 1;
            proof {
                assert(int_pairs(ranges@) =~= int_pairs(old_ranges).push((before.last().0, before.last().1)));
                assert(int_pairs(ranges@).push((start as int, end as int)) =~= before.push(
                    (position as int, position + 1),
                ));
            }
        }
        i += 1;
    }
    let ghost old_ranges = ranges@;
    ranges.push((start, end));
    proof {
        assert(ps.take(positions.len() as int) =~= ps);
        assert(int_pairs(ranges@) =~= int_pairs(old_ranges).push((start as int, end as int)));
    }
    ranges
}

/// `s` without its leading whitespace.
pub open spec fn trim_start(s: Seq<char>) -> Seq<char>
    decreases s.len(),
{
    if s.len() > 0 && is_whitespace(s[0]) {
        trim_start(s.drop_first())
    } else {
        s
    }
}

/// `s` without its trailing whitespace.
pub open spec fn trim_end(s: Seq<char>) -> Seq<char>
    decreases s.len(),
{
    if s.len() > 0 && is_whitespace(s.last()) {
        trim_end(s.drop_last())
    } else {
        s
    }
}

/// `s` without leading and trailing whitespace, as `str::trim` gives it.
pub open spec fn trimmed(s: Seq<char>) -> Seq<char> {
    trim_end(trim_start(s))
}

/// The characters of `s` without leading and trailing whitespace.
pub fn trim_chars(s: &str) -> (r: Vec<char>)
    ensures
        r@ == trimmed(s@),
{
    let chars = str_chars(s);
    let ghost full = chars@;
    let mut a: usize = 0;
    proof {
        assert(full.skip(0) =~= full);
    }
    while a < chars.len() && char_is_whitespace(chars[a])
        invariant
            a <= chars.len(),
            full == chars@,
            trim_start(full) == trim_start(full.skip(a as int)),
        decreases chars.len() - a,
    {
        proof {
            assert(full.skip(a as int)[0] == full[a as int]);
            assert(full.skip(a as int).drop_first() =~= full.skip(a + 1));
        }
        a += 1;
    }
    let ghost rest = full.skip(a as int);
    proof {
        if a < chars.len() {
            assert(rest[0] == full[a as int]);
        }
        assert(trim_start(full) == rest);
    }
    let mut b: usize = chars.len();
    proof {
        assert(rest.take(rest.len() as int) =~= rest);
    }
    while b > a && char_is_whitespace(chars[b - 1])
        invariant
            a <= b <= chars.len(),
            full == chars@,
            rest == full.skip(a as int),
            trim_end(rest) == trim_end(rest.take(b - a)),
        decreases b,
    {
        proof {
            assert(rest.take(b - a).last() == full[b - 1]);
            assert(rest.take(b - a).drop_last() =~= rest.take(b - 1 - a));
        }
        b -= 1;
    }
    proof {
        if b > a {
            assert(rest.take(b - a).last() == full[b - 1]);
        }
    }
    let mut out: Vec<char> = Vec::new();
    let mut k: usize = a;
    while k < b
        invariant
            a <= k <= b <= chars.len(),
            full == chars@,
            out@ == full.subrange(a as int, k as int),
        decreases b - k,
    {
        out.push(chars[k]);
        proof {
            assert(full.subrange(a as int, k + 1) =~= full.subrange(a as int, k as int).push(full[k as int]));
        }
        k += 1;
    }
    proof {
        assert(out@ =~= rest.take(b - a));
    }
    out
}

/// The better of a best score so far and a new candidate score: a new
/// score replaces the best only when strictly higher.
pub open spec fn better(best: Option<int>, score: Option<int>) -> Option<int> {
    match score {
        None => best,
        Some(s) => match best {
            None => Some(s),
            Some(b) => if s > b {
                Some(s)
            } else {
                Some(b)
            },
        },
    }
}

/// The score of a match, if there is one.
pub open spec fn score_only(m: Option<(int, Seq<int>)>) -> Option<int> {
    match m {
        Some((score, _)) => Some(score),
        None => None,
    }
}

/// The best score of the (trimmed) query against the title and keywords.
pub open spec fn best_score(q: Seq<char>, title: Seq<char>, keywords: Seq<Seq<char>>) -> Option<int>
    decreases keywords.len(),
{
    if keywords.len() == 0 {
        score_only(fuzzy_of(q, title))
    } else {
        better(best_score(q, title, keywords.drop_last()), score_only(fuzzy_of(q, keywords.last())))
    }
}

/// A command's score is the best of its matches: there is one exactly when
/// the title or a keyword matches, it is at least the score of the title
/// and of every keyword that match, and it is the score of one of them.
pub proof fn law_command_score_is_the_best_match(q: Seq<char>, title: Seq<char>, keywords: Seq<Seq<char>>)
    ensures
        ({
            let best = best_score(q, title, keywords);
            let t = score_only(fuzzy_of(q, title));
            &&& best is Some <==> (t is Some || exists|k: int|
                0 <= k < keywords.len() && #[trigger] score_only(fuzzy_of(q, keywords[k])) is Some)
            &&& t is Some ==> best is Some && t->0 <= best->0
            &&& forall|k: int|
                0 <= k < keywords.len() && #[trigger] score_only(fuzzy_of(q, keywords[k])) is Some ==> best is Some
                    && score_only(fuzzy_of(q, keywords[k]))->0 <= best->0
            &&& best is Some ==> t == best || exists|k: int|
                0 <= k < keywords.len() && #[trigger] score_only(fuzzy_of(q, keywords[k])) == best
        }),
    decreases keywords.len(),
{
    if keywords.len() > 0 {
        let init = keywords.drop_last();
        law_command_score_is_the_best_match(q, title, init);
        let last = keywords.len() - 1;
        assert(keywords[last] == keywords.last());
        assert forall|k: int| 0 <= k < init.len() implies #[trigger] keywords[k] == init[k] by {}
        let b = best_score(q, title, init);
        let t = score_only(fuzzy_of(q, title));
        if b is Some && t != b {
            let k = choose|k: int| 0 <= k < init.len() && #[trigger] score_only(fuzzy_of(q, init[k])) == b;
            assert(keywords[k] == init[k]);
        }
        if exists|k: int| 0 <= k < keywords.len() && #[trigger] score_only(fuzzy_of(q, keywords[k])) is Some {
            let k = choose|k: int| 0 <= k < keywords.len() && #[trigger] score_only(fuzzy_of(q, keywords[k])) is Some;
            if k < last {
                assert(keywords[k] == init[k]);
            }
        }
        assert forall|k: int|
            0 <= k < keywords.len() && #[trigger] score_only(fuzzy_of(q, keywords[k])) is Some implies best_score(
                q,
                title,
                keywords,
            ) is Some && score_only(fuzzy_of(q, keywords[k]))->0 <= best_score(q, title, keywords)->0 by {
            if k < last {
                assert(keywords[k] == init[k]);
            }
        }
    }
}

/// The emphasis ranges of the title: the runs of the title match, shown only
/// when lowercasing keeps the title's length (so positions still line up).
pub open spec fn title_spans(q: Seq<char>, title: Seq<char>) -> Option<Seq<(int, int)>> {
    match fuzzy_of(q, title) {
        Some((_, ps)) => if lowercase(title).len() == title.len() {
            Some(runs(ps))
        } else {
            None
        },
        None => None,
    }
}

/// The score and emphasis of a command for a query: every command scores 0
/// with no emphasis for a blank query; otherwise the best of its title and
/// keywords, and none when nothing matches.
pub open spec fn command_score(query: Seq<char>, title: Seq<char>, keywords: Seq<Seq<char>>) -> Option<(int, Option<Seq<(int, int)>>)> {
    let q = trimmed(query);
    if q.len() == 0 {
        Some((0, None))
    } else {
        match best_score(q, title, keywords) {
            None => None,
            Some(b) => Some((b, title_spans(q, title))),
        }
    }
}

/// Emphasis ranges as integers.
pub open spec fn spans_view(spans: Option<Vec<(usize, usize)>>) -> Option<Seq<(int, int)>> {
    match spans {
        Some(v) => Some(int_pairs(v@)),
        None => None,
    }
}

/// Score `command` against `query`; `None` when neither its title nor a
/// keyword matches.
pub fn score_command(query: &str, command: &PaletteItem) -> (r: Option<(i32, Option<Vec<(usize, usize)>>)>)
    ensures
        match command_score(query@, command.title@, string_views(command.keywords@)) {
            Some((score, spans)) => r matches Some((s, sp)) && s == score && spans_view(sp) == spans,
            None => r is None,
        },
{
    let normalized_chars = trim_chars(query);
    if normalized_chars.len() == 0 {
        return Some((0, None));
    }
    let normalized = string_from_chars(normalized_chars.as_slice());
    let ghost q = trimmed(query@);
    let ghost title = command.title@;
    let ghost keywords = string_views(command.keywords@);
    let title_match = fuzzy_match(normalized.as_str(), command.title.as_str());
    let mut best: Option<i32> = match &title_match {
        Some(m) => Some(m.score),
        None => None,
    };
    let mut k: usize = 0;
    while k < command.keywords.len()
        invariant
            k <= command.keywords.len(),
            q == normalized@,
            keywords == string_views(command.keywords@),
            match best_score(q, title, keywords.take(k as int)) {
                Some(b) => best == Some(b as i32) && b == best->0,
                None => best is None,
            },
        decreases command.keywords.len() - k,
    {
        proof {
            assert(keywords.take(k + 1).drop_last() =~= keywords.take(k as int));
            assert(keywords.take(k + 1).last() == command.keywords@[k as int]@);
        }
        let matched = fuzzy_match(normalized.as_str(), command.keywords[k].as_str());
        match matched {
            Some(m) => {
                let replace = match best {
                    Some(b) => m.score > b,
                    None => true,
                };
                if replace {
                    best = Some(m.score);
                }
            },
            None => {},
        }
        k += 1;
    }
    proof {
        assert(keywords.take(command.keywords.len() as int) =~= keywords);
    }
    let score = match best {
        Some(s) => s,
        None => return None,
    };
    let spans = match title_match {
        Some(m) => {
            let lowered = str_chars(str_to_lowercase(command.title.as_str()).as_str());
            let original = str_chars(command.title.as_str());
            if lowered.len() == original.len() {
                proof {
                    assert forall|i: int| 0 <= i < m.positions@.len() implies m.positions@[i] < usize::MAX by {
                        assert(int_seq(m.positions@)[i] == m.positions@[i] as int);
                    }
                }
                Some(positions_to_ranges(&m.positions))
            } else {
                None
            }
        },
        None => None,
    };
    Some((score, spans))
}

/// Strict lexicographic order on character sequences (by code point, which
/// for UTF-8 strings is also the byte order `String` compares by).
pub open spec fn lex_less(a: Seq<char>, b: Seq<char>) -> bool
    decreases a.len(),
{
    if b.len() == 0 {
        false
    } else if a.len() == 0 {
        true
    } else if a[0] != b[0] {
        a[0] < b[0]
    } else {
        lex_less(a.drop_first(), b.drop_first())
    }
}

proof fn lemma_lex_irreflexive(a: Seq<char>)
    ensures
        !lex_less(a, a),
    decreases a.len(),
{
    if a.len() > 0 {
        lemma_lex_irreflexive(a.drop_first());
    }
}

proof fn lemma_lex_transitive(a: Seq<char>, b: Seq<char>, c: Seq<char>)
    requires
        lex_less(a, b),
        lex_less(b, c),
    ensures
        lex_less(a, c),
    decreases a.len(),
{
    if a.len() > 0 && b.len() > 0 && c.len() > 0 && a[0] == b[0] && b[0] == c[0] {
        lemma_lex_transitive(a.drop_first(), b.drop_first(), c.drop_first());
    }
}

proof fn lemma_lex_total(a: Seq<char>, b: Seq<char>)
    ensures
        lex_less(a, b) || lex_less(b, a) || a == b,
    decreases a.len(),
{
    if a.len() > 0 && b.len() > 0 && a[0] == b[0] {
        lemma_lex_total(a.drop_first(), b.drop_first());
        if a.drop_first() == b.drop_first() {
            assert(a =~= seq![a[0]] + a.drop_first());
            assert(b =~= seq![b[0]] + b.drop_first());
        }
    } else if a.len() == 0 && b.len() == 0 {
        assert(a =~= b);
    }
}

/// Whether the title `a` sorts before `b`.
fn title_less(a: &String, b: &String) -> (r: bool)
    ensures
        r == lex_less(a@, b@),
{
    let ca = str_chars(a.as_str());
    let cb = str_chars(b.as_str());
    let mut i: usize = 0;
    proof {
        assert(ca@.skip(0) =~= ca@);
        assert(cb@.skip(0) =~= cb@);
    }
    while i < ca.len() && i < cb.len() && ca[i] == cb[i]
        invariant
            i <= ca.len(),
            i <= cb.len(),
            ca@ == a@,
            cb@ == b@,
            lex_less(a@, b@) == lex_less(ca@.skip(i as int), cb@.skip(i as int)),
        decreases ca.len() - i,
    {
        proof {
            assert(ca@.skip(i as int)[0] == ca@[i as int]);
            assert(cb@.skip(i as int)[0] == cb@[i as int]);
            assert(ca@.skip(i as int).drop_first() =~= ca@.skip(i + 1));
            assert(cb@.skip(i as int).drop_first() =~= cb@.skip(i + 1));
        }
        i += 1;
    }
    if i == cb.len() {
        false
    } else if i == ca.len() {
        true
    } else {
        proof {
            assert(ca@.skip(i as int)[0] == ca@[i as int]);
            assert(cb@.skip(i as int)[0] == cb@[i as int]);
        }
        ca[i] < cb[i]
    }
}

/// A command ranked by a query: its row, its score and the emphasis ranges
/// (character ranges of the title that matched).
pub struct RankedCommand {
    pub command: PaletteItem,
    pub score: i32,
    pub match_spans: Option<Vec<(usize, usize)>>,
}

/// A run of commands shown under an optional group header.
pub struct Group {
    pub title: Option<&'static str>,
    pub commands: Vec<RankedCommand>,
}

/// A scored row: the row, its score and its emphasis.
pub type Scored = (PaletteItem, int, Option<Seq<(int, int)>>);

/// A ranked command as a scored row.
pub open spec fn entry_of(r: RankedCommand) -> Scored {
    (r.command, r.score as int, spans_view(r.match_spans))
}

/// The scored rows of `items` for `query`, in their order; rows that do not
/// match are left out.
pub open spec fn scored(query: Seq<char>, items: Seq<PaletteItem>) -> Seq<Scored>
    decreases items.len(),
{
    if items.len() == 0 {
        Seq::<Scored>::empty()
    } else {
        let rest = scored(query, items.drop_last());
        let item = items.last();
        match command_score(query, item.title@, string_views(item.keywords@)) {
            Some((score, spans)) => rest.push((item, score, spans)),
            None => rest,
        }
    }
}

/// `a` ranks strictly before `b`: a higher score, or the same score and a
/// title that sorts first.
pub open spec fn ranks_before(a: Scored, b: Scored) -> bool {
    a.1 > b.1 || (a.1 == b.1 && lex_less(a.0.title@, b.0.title@))
}

/// `a` and `b` rank the same: same score and same title.
pub open spec fn same_rank(a: Scored, b: Scored) -> bool {
    a.1 == b.1 && a.0.title@ == b.0.title@
}

/// `out` is `input` sorted by rank, best first, with rows of the same rank
/// in their input order; `perm` maps each output row to its input row.
pub open spec fn is_ranking(out: Seq<Scored>, input: Seq<Scored>, perm: Seq<int>) -> bool {
    &&& out.len() == input.len()
    &&& perm.len() == input.len()
    &&& forall|i: int| 0 <= i < perm.len() ==> 0 <= #[trigger] perm[i] < input.len()
    &&& forall|i: int, j: int| 0 <= i < j < perm.len() ==> #[trigger] perm[i] != #[trigger] perm[j]
    &&& forall|i: int| 0 <= i < out.len() ==> #[trigger] out[i] == input[perm[i]]
    &&& forall|i: int, j: int| 0 <= i < j < out.len() ==> !ranks_before(#[trigger] out[j], #[trigger] out[i])
    &&& forall|i: int, j: int|
        0 <= i < j < out.len() && same_rank(#[trigger] out[i], #[trigger] out[j]) ==> perm[i] < perm[j]
}

proof fn lemma_rank_order(a: Scored, b: Scored, c: Scored)
    ensures
        !ranks_before(a, a),
        ranks_before(a, b) && ranks_before(b, c) ==> ranks_before(a, c),
        ranks_before(a, b) || ranks_before(b, a) || same_rank(a, b),
        same_rank(a, b) ==> !ranks_before(a, b) && !ranks_before(b, a),
        same_rank(a, b) ==> (ranks_before(a, c) == ranks_before(b, c)) && (ranks_before(c, a)
            == ranks_before(c, b)),
{
    lemma_lex_irreflexive(a.0.title@);
    lemma_lex_irreflexive(b.0.title@);
    lemma_lex_total(a.0.title@, b.0.title@);
    if ranks_before(a, b) && ranks_before(b, c) && a.1 == b.1 && b.1 == c.1 {
        lemma_lex_transitive(a.0.title@, b.0.title@, c.0.title@);
    }
}

/// Whether `a` ranks strictly before `b`.
fn ranked_before(a: &RankedCommand, b: &RankedCommand) -> (r: bool)
    ensures
        r == ranks_before(entry_of(*a), entry_of(*b)),
{
    if a.score != b.score {
        a.score > b.score
    } else {
        title_less(&a.command.title, &b.command.title)
    }
}

/// The rows of `v` as scored rows.
pub open spec fn entries(v: Seq<RankedCommand>) -> Seq<Scored> {
    v.map_values(|r: RankedCommand| entry_of(r))
}

/// Index `m` of the first row of `rem` that no row ranks before.
fn first_best(rem: &Vec<RankedCommand>) -> (m: usize)
    requires
        rem.len() > 0,
    ensures
        m < rem.len(),
        forall|k: int| 0 <= k < rem.len() ==> !ranks_before(#[trigger] entries(rem@)[k], entries(rem@)[m as int]),
        forall|k: int| 0 <= k < m ==> ranks_before(entries(rem@)[m as int], #[trigger] entries(rem@)[k]),
{
    let ghost e = entries(rem@);
    let mut b: usize = 0;
    let mut s: usize = 1;
    proof {
        lemma_rank_order(e[0], e[0], e[0]);
    }
    while s < rem.len()
        invariant
            e == entries(rem@),
            b < s <= rem.len(),
            forall|k: int| 0 <= k < s ==> !ranks_before(#[trigger] e[k], e[b as int]),
            forall|k: int| 0 <= k < b ==> ranks_before(e[b as int], #[trigger] e[k]),
        decreases rem.len() - s,
    {
        proof {
            assert(e[s as int] == entry_of(rem@[s as int]));
            assert(e[b as int] == entry_of(rem@[b as int]));
        }
        if ranked_before(&rem[s], &rem[b]) {
            proof {
                assert forall|k: int| 0 <= k < s + 1 implies !ranks_before(#[trigger] e[k], e[s as int]) by {
                    lemma_rank_order(e[k], e[s as int], e[b as int]);
                    lemma_rank_order(e[s as int], e[s as int], e[s as int]);
                }
                assert forall|k: int| 0 <= k < s implies ranks_before(e[s as int], #[trigger] e[k]) by {
                    lemma_rank_order(e[s as int], e[b as int], e[k]);
                    lemma_rank_order(e[b as int], e[k], e[s as int]);
                    lemma_rank_order(e[k], e[b as int], e[s as int]);
                }
            }
            b = s;
        }
        s += 1;
    }
    b
}

/// Rank `commands` for `query`: the rows that match, best score first, rows
/// of equal score by title, rows that rank the same in their given order.
pub fn rank_commands(query: &str, commands: Vec<PaletteItem>) -> (r: Vec<RankedCommand>)
    ensures
        exists|perm: Seq<int>| is_ranking(entries(r@), scored(query@, commands@), perm),
{
    let ghost items = commands@;
    let mut pending = commands;
    let total: usize = pending.len();
    let mut rem: Vec<RankedCommand> = Vec::new();
    let mut taken: usize = 0;
    proof {
        assert(items.skip(0) =~= items);
        assert(entries(rem@) =~= scored(query@, items.take(0)));
    }
    while pending.len() > 0
        invariant
            taken <= items.len(),
            items.len() == total,
            items.len() == taken + pending.len(),
            pending@ == items.skip(taken as int),
            entries(rem@) == scored(query@, items.take(taken as int)),
        decreases pending.len(),
    {
        let item = pending.remove(0);
        proof {
            assert(items.skip(taken as int).remove(0) =~= items.skip(taken + 1));
            assert(item == items[taken as int]);
            assert(items.take(taken + 1).drop_last() =~= items.take(taken as int));
            assert(items.take(taken + 1).last() == item);
        }
        match score_command(query, &item) {
            Some((score, match_spans)) => {
                let ghost before = rem@;
                let ranked = RankedCommand { command: item, score, match_spans };
                rem.push(ranked);
                proof {
                    assert(entries(rem@) =~= entries(before).push(entry_of(ranked)));
                }
            },
            None => {},
        }
        taken += 1;
    }
    proof {
        assert(taken == items.len());
        assert(items.take(taken as int) =~= items);
    }
    let ghost f = entries(rem@);
    let ghost mut ri: Seq<int> = Seq::new(f.len(), |k: int| k);
    let ghost mut oi: Seq<int> = Seq::<int>::empty();
    let mut out: Vec<RankedCommand> = Vec::new();
    while rem.len() > 0
        invariant
            f == scored(query@, items),
            out.len() == oi.len(),
            rem.len() == ri.len(),
            oi.len() + ri.len() == f.len(),
            forall|i: int| 0 <= i < oi.len() ==> 0 <= #[trigger] oi[i] < f.len(),
            forall|k: int| 0 <= k < ri.len() ==> 0 <= #[trigger] ri[k] < f.len(),
            forall|i: int| 0 <= i < out.len() ==> #[trigger] entries(out@)[i] == f[oi[i]],
            forall|k: int| 0 <= k < rem.len() ==> #[trigger] entries(rem@)[k] == f[ri[k]],
            forall|i: int, j: int| 0 <= i < j < oi.len() ==> #[trigger] oi[i] != #[trigger] oi[j],
            forall|k: int, l: int| 0 <= k < l < ri.len() ==> #[trigger] ri[k] < #[trigger] ri[l],
            forall|i: int, k: int| 0 <= i < oi.len() && 0 <= k < ri.len() ==> #[trigger] oi[i] != #[trigger] ri[k],
            forall|i: int, j: int|
                0 <= i < j < out.len() ==> !ranks_before(#[trigger] entries(out@)[j], #[trigger] entries(out@)[i]),
            forall|i: int, k: int|
                0 <= i < out.len() && 0 <= k < rem.len() ==> !ranks_before(
                    #[trigger] entries(rem@)[k],
                    #[trigger] entries(out@)[i],
                ),
            forall|i: int, j: int|
                0 <= i < j < out.len() && same_rank(#[trigger] entries(out@)[i], #[trigger] entries(out@)[j])
                    ==> oi[i] < oi[j],
            forall|i: int, k: int|
                0 <= i < out.len() && 0 <= k < rem.len() && same_rank(
                    #[trigger] entries(out@)[i],
                    #[trigger] entries(rem@)[k],
                ) ==> oi[i] < ri[k],
        decreases rem.len(),
    {
        let m = first_best(&rem);
        let ghost old_out = entries(out@);
        let ghost old_rem = entries(rem@);
        let ghost pick = ri[m as int];
        let x = rem.remove(m);
        proof {
            assert(entry_of(x) == old_rem[m as int]);
            assert(entries(rem@) =~= old_rem.remove(m as int));
        }
        out.push(x);
        proof {
            assert(entries(out@) =~= old_out.push(entry_of(x)));
            let new_ri = ri.remove(m as int);
            let new_oi = oi.push(pick);
            let eo = entries(out@);
            let er = entries(rem@);
            assert forall|i: int, j: int| 0 <= i < j < eo.len() implies !ranks_before(#[trigger] eo[j], #[trigger] eo[i]) by {
                if j == eo.len() - 1 {
                    assert(eo[i] == old_out[i]);
                } else {
                    assert(eo[i] == old_out[i] && eo[j] == old_out[j]);
                }
            }
            assert forall|i: int, k: int| 0 <= i < eo.len() && 0 <= k < er.len() implies !ranks_before(
                #[trigger] er[k],
                #[trigger] eo[i],
            ) by {
                let kk = if k < m { k } else { k + 1 };
                assert(er[k] == old_rem[kk]);
                if i < eo.len() - 1 {
                    assert(eo[i] == old_out[i]);
                }
            }
            assert forall|i: int, j: int|
                0 <= i < j < eo.len() && same_rank(#[trigger] eo[i], #[trigger] eo[j]) implies new_oi[i]
                < new_oi[j] by {
                if j == eo.len() - 1 {
                    assert(eo[i] == old_out[i]);
                    assert(eo[j] == old_rem[m as int]);
                } else {
                    assert(eo[i] == old_out[i] && eo[j] == old_out[j]);
                }
            }
            assert forall|i: int, k: int|
                0 <= i < eo.len() && 0 <= k < er.len() && same_rank(#[trigger] eo[i], #[trigger] er[k])
                    implies new_oi[i] < new_ri[k] by {
                let kk = if k < m { k } else { k + 1 };
                assert(er[k] == old_rem[kk]);
                assert(new_ri[k] == ri[kk]);
                if i < eo.len() - 1 {
                    assert(eo[i] == old_out[i]);
                } else {
                    assert(eo[i] == old_rem[m as int]);
                    if kk < m {
                        lemma_rank_order(old_rem[m as int], old_rem[kk], old_rem[kk]);
                    }
                }
            }
            assert forall|i: int| 0 <= i < eo.len() implies #[trigger] eo[i] == f[new_oi[i]] by {
                if i < eo.len() - 1 {
                    assert(eo[i] == old_out[i]);
                }
            }
            assert forall|k: int| 0 <= k < er.len() implies #[trigger] er[k] == f[new_ri[k]] by {
                let kk = if k < m { k } else { k + 1 };
                assert(er[k] == old_rem[kk]);
            }
            assert forall|i: int, j: int| 0 <= i < j < new_oi.len() implies #[trigger] new_oi[i]
                != #[trigger] new_oi[j] by {
                if j == new_oi.len() - 1 {
                    assert(oi[i] != ri[m as int]);
                }
            }
            assert forall|k: int, l: int| 0 <= k < l < new_ri.len() implies #[trigger] new_ri[k]
                < #[trigger] new_ri[l] by {
                let kk = if k < m { k } else { k + 1 };
                let ll = if l < m { l } else { l + 1 };
                assert(new_ri[k] == ri[kk] && new_ri[l] == ri[ll]);
            }
            assert forall|i: int, k: int| 0 <= i < new_oi.len() && 0 <= k < new_ri.len() implies #[trigger] new_oi[i]
                != #[trigger] new_ri[k] by {
                let kk = if k < m { k } else { k + 1 };
                assert(new_ri[k] == ri[kk]);
                if i == new_oi.len() - 1 {
                    assert(kk != m);
                }
            }
            assert forall|k: int| 0 <= k < new_ri.len() implies 0 <= #[trigger] new_ri[k] < f.len() by {
                let kk = if k < m { k } else { k + 1 };
                assert(new_ri[k] == ri[kk]);
            }
            ri = new_ri;
            oi = new_oi;
        }
    }
    proof {
        assert(is_ranking(entries(out@), f, oi));
    }
    out
}

/// `e` places the characters of `q` in `c`, in order.
pub open spec fn embeds(e: Seq<int>, q: Seq<char>, c: Seq<char>) -> bool {
    &&& e.len() == q.len()
    &&& forall|i: int, j: int| 0 <= i < j < e.len() ==> #[trigger] e[i] < #[trigger] e[j]
    &&& forall|i: int| 0 <= i < e.len() ==> 0 <= #[trigger] e[i] < c.len() && c[e[i]] == q[i]
}

/// The greedy positions place the query in the candidate, in order.
proof fn lemma_greedy_embeds(q: Seq<char>, c: Seq<char>)
    ensures
        greedy_positions(q, c) matches Some(ps) ==> embeds(ps, q, c),
    decreases q.len(),
{
    if q.len() > 0 {
        lemma_greedy_embeds(q.drop_last(), c);
        if let Some(ps) = greedy_positions(q.drop_last(), c) {
            let start = if ps.len() == 0 {
                0
            } else {
                ps.last() + 1
            };
            lemma_find_from(c, q.last(), start);
            if let Some(i) = find_from(c, q.last(), start) {
                let out = ps.push(i);
                assert forall|a: int, b: int| 0 <= a < b < out.len() implies #[trigger] out[a] < #[trigger] out[b] by {
                    if b == out.len() - 1 && a < ps.len() {
                        assert(ps[a] <= ps[ps.len() - 1]);
                    }
                }
                assert forall|a: int| 0 <= a < out.len() implies 0 <= #[trigger] out[a] < c.len() && c[out[a]] == q[a] by {
                    if a < ps.len() {
                        assert(q.drop_last()[a] == q[a]);
                    }
                }
            }
        }
    }
}

/// Searching from `start` finds `ch` no later than any place at or after
/// `start` that holds it.
proof fn lemma_find_from_finds(c: Seq<char>, ch: char, start: int, j: int)
    requires
        0 <= start <= j < c.len(),
        c[j] == ch,
    ensures
        find_from(c, ch, start) matches Some(i) && i <= j,
    decreases j - start,
{
    if c[start] != ch {
        lemma_find_from_finds(c, ch, start + 1, j);
    }
}

/// Where the query can be placed in the candidate, the greedy positions
/// exist and end no later than that placement.
proof fn lemma_greedy_complete(q: Seq<char>, c: Seq<char>, e: Seq<int>)
    requires
        embeds(e, q, c),
    ensures
        greedy_positions(q, c) matches Some(ps) && (q.len() > 0 ==> ps.last() <= e.last()),
    decreases q.len(),
{
    if q.len() > 0 {
        let e2 = e.drop_last();
        assert(embeds(e2, q.drop_last(), c)) by {
            assert forall|i: int| 0 <= i < e2.len() implies 0 <= #[trigger] e2[i] < c.len() && c[e2[i]]
                == q.drop_last()[i] by {
                assert(e2[i] == e[i]);
            }
        }
        lemma_greedy_complete(q.drop_last(), c, e2);
        lemma_greedy_embeds(q.drop_last(), c);
        let ps = greedy_positions(q.drop_last(), c)->0;
        let start = if ps.len() == 0 {
            0
        } else {
            ps.last() + 1
        };
        let last = e.len() - 1;
        if ps.len() > 0 {
            assert(e2.last() == e[last - 1]);
            assert(e[last - 1] < e[last]);
        }
        assert(0 <= e[last] < c.len() && c[e[last]] == q[last]);
        lemma_find_from_finds(c, q.last(), start, e[last]);
    }
}

/// A non-empty query matches exactly when it is a subsequence of the
/// candidate, and the matched positions place it there.
pub proof fn law_match_iff_subsequence(q: Seq<char>, c: Seq<char>)
    requires
        q.len() > 0,
    ensures
        fuzzy(q, c) is Some <==> exists|e: Seq<int>| embeds(e, q, c),
        fuzzy(q, c) matches Some((_, ps)) ==> embeds(ps, q, c),
{
    lemma_greedy_embeds(q, c);
    if exists|e: Seq<int>| embeds(e, q, c) {
        let e = choose|e: Seq<int>| embeds(e, q, c);
        lemma_greedy_complete(q, c, e);
    }
    if let Some(ps) = greedy_positions(q, c) {
        assert(embeds(ps, q, c));
    }
}

/// `k` lies in one of the ranges.
pub open spec fn covered(ranges: Seq<(int, int)>, k: int) -> bool {
    exists|r: int| 0 <= r < ranges.len() && ranges[r].0 <= k < #[trigger] ranges[r].1
}

/// The ranges of strictly increasing positions cover exactly those
/// positions, and each range is non-empty.
pub proof fn law_runs_cover_positions(ps: Seq<int>)
    requires
        forall|i: int, j: int| 0 <= i < j < ps.len() ==> ps[i] < ps[j],
    ensures
        forall|k: int| covered(runs(ps), k) <==> ps.contains(k),
        forall|r: int| 0 <= r < runs(ps).len() ==> #[trigger] runs(ps)[r].0 < runs(ps)[r].1,
        ps.len() > 0 ==> runs(ps).len() > 0 && runs(ps).last().1 == ps.last() + 1,
    decreases ps.len(),
{
    if ps.len() > 0 {
        let d = ps.drop_last();
        assert forall|i: int, j: int| 0 <= i < j < d.len() implies d[i] < d[j] by {
            assert(d[i] == ps[i] && d[j] == ps[j]);
        }
        law_runs_cover_positions(d);
        let before = runs(d);
        let p = ps.last();
        let after = runs(ps);
        if d.len() > 0 {
            assert(d.last() == ps[ps.len() - 2]);
            assert(d.last() < p);
        }
        assert forall|k: int| covered(after, k) <==> ps.contains(k) by {
            if covered(after, k) {
                let r = choose|r: int| 0 <= r < after.len() && after[r].0 <= k < #[trigger] after[r].1;
                if k == p {
                    assert(ps[ps.len() - 1] == p);
                } else if r < before.len() {
                    if before.len() > 0 && before.last().1 == p && r == before.len() - 1 {
                        assert(after[r] == (before[r].0, p + 1));
                        assert(before[r].0 <= k < before[r].1);
                    } else {
                        assert(after[r] == before[r]);
                        assert(before[r].0 <= k < before[r].1);
                    }
                    assert(covered(before, k));
                    assert(d.contains(k));
                    let i = choose|i: int| 0 <= i < d.len() && d[i] == k;
                    assert(ps[i] == k);
                } else {
                    assert(after[r] == (p, p + 1));
                }
            }
            if ps.contains(k) {
                let i = choose|i: int| 0 <= i < ps.len() && ps[i] == k;
                if i == ps.len() - 1 {
                    let r = after.len() - 1;
                    assert(after[r].0 <= k < after[r].1);
                } else {
                    assert(d[i] == k);
                    assert(d.contains(k));
                    let r = choose|r: int| 0 <= r < before.len() && before[r].0 <= k < #[trigger] before[r].1;
                    if before.last().1 == p && r == before.len() - 1 {
                        assert(after[r].0 <= k < after[r].1);
                    } else {
                        assert(after[r] == before[r]);
                    }
                }
            }
        }
        assert forall|r: int| 0 <= r < after.len() implies #[trigger] after[r].0 < after[r].1 by {
            if r < before.len() {
                if !(before.last().1 == p && r == before.len() - 1) {
                    assert(after[r] == before[r]);
                }
            }
        }
    }
}

/// Whether character `i` of a title lies in one of the emphasis ranges.
pub open spec fn in_spans(spans: Option<Seq<(int, int)>>, i: int) -> bool {
    match spans {
        Some(ranges) => in_ranges(ranges, i),
        None => false,
    }
}

/// Whether `i` lies in one of the ranges.
pub open spec fn in_ranges(ranges: Seq<(int, int)>, i: int) -> bool {
    exists|r: int| 0 <= r < ranges.len() && (#[trigger] ranges[r]).0 <= i && i < ranges[r].1
}

/// The title cut into runs of emphasized and plain characters, in order; an
/// empty title is one empty run.
pub open spec fn segments(chars: Seq<char>, spans: Option<Seq<(int, int)>>) -> Seq<(Seq<char>, bool)>
    decreases chars.len(),
{
    if chars.len() <= 1 {
        seq![(chars, in_spans(spans, 0))]
    } else {
        let before = segments(chars.drop_last(), spans);
        let i = chars.len() - 1;
        let m = in_spans(spans, i);
        if before.last().1 == m {
            before.update(before.len() - 1, (before.last().0.push(chars[i]), m))
        } else {
            before.push((seq![chars[i]], m))
        }
    }
}

/// Segment views as character sequences.
pub open spec fn segment_views(v: Seq<(String, bool)>) -> Seq<(Seq<char>, bool)> {
    v.map_values(|s: (String, bool)| (s.0@, s.1))
}

/// Whether character `i` lies in one of `spans`.
fn is_matched(spans: &Option<Vec<(usize, usize)>>, i: usize) -> (r: bool)
    ensures
        r == in_spans(spans_view(*spans), i as int),
{
    match spans {
        None => false,
        Some(ranges) => {
            let ghost rs = int_pairs(ranges@);
            proof {
                assert(spans_view(*spans) == Some(rs));
            }
            let mut k: usize = 0;
            while k < ranges.len()
                invariant
                    k <= ranges.len(),
                    rs == int_pairs(ranges@),
                    spans_view(*spans) == Some(rs),
                    forall|r: int| 0 <= r < k ==> !((#[trigger] rs[r]).0 <= i && i < rs[r].1),
                decreases ranges.len() - k,
            {
                let (start, end) = ranges[k];
                proof {
                    assert(rs[k as int] == (start as int, end as int));
                }
                if i >= start && i < end {
                    proof {
                        assert(rs[k as int].0 <= i as int && (i as int) < rs[k as int].1);

                    }
                    return true;
                }
                k += 1;
            }
            false
        },
    }
}

/// The title of a row cut into emphasized and plain runs, for drawing.
pub fn title_segments(title: &str, spans: &Option<Vec<(usize, usize)>>) -> (r: Vec<(String, bool)>)
    ensures
        segment_views(r@) == segments(title@, spans_view(*spans)),
{
    let chars = str_chars(title);
    let ghost sv = spans_view(*spans);
    let mut out: Vec<(String, bool)> = Vec::new();
    let mut run_start: usize = 0;
    let mut run_matched = is_matched(spans, 0);
    let mut i: usize = 1;
    proof {
        reveal_with_fuel(segments, 1);
        if chars.len() >= 1 {
            assert(chars@.take(1).len() == 1);
        }
    }
    while i < chars.len()
        invariant
            1 <= i,
            i <= chars.len() || chars.len() == 0,
            run_start < i || chars.len() == 0,
            chars.len() == 0 ==> run_start == 0 && out@.len() == 0 && run_matched == in_spans(sv, 0),
            chars@ == title@,
            sv == spans_view(*spans),
            chars.len() > 0 ==> segment_views(out@).push((chars@.subrange(run_start as int, i as int), run_matched))
                == segments(chars@.take(i as int), sv),
        decreases chars.len() - i,
    {
        let matched = is_matched(spans, i);
        let ghost prefix = chars@.take(i + 1);
        let ghost before = segment_views(out@).push((chars@.subrange(run_start as int, i as int), run_matched));
        proof {
            assert(prefix.drop_last() =~= chars@.take(i as int));
            assert(prefix[i as int] == chars@[i as int]);
            assert(before.last() == (chars@.subrange(run_start as int, i as int), run_matched));
        }
        if matched != run_matched {
            proof {
                assert(chars@.subrange(i as int, i + 1) =~= seq![chars@[i as int]]);
            }
            let segment = string_from_chars(chars_slice(&chars, run_start, i).as_slice());
            let ghost old_out = out@;
            out.push((segment, run_matched));
            proof {
                assert(segment_views(out@) =~= segment_views(old_out).push(
                    (chars@.subrange(run_start as int, i as int), run_matched),
                ));
                assert(segment_views(out@).push((chars@.subrange(i as int, i + 1), matched)) =~= before.push(
                    (seq![chars@[i as int]], matched),
                ));
            }
            run_start = i;
            run_matched = matched;
        } else {
            proof {
                assert(chars@.subrange(run_start as int, i + 1) =~= chars@.subrange(run_start as int, i as int).push(
                    chars@[i as int],
                ));
                assert(segment_views(out@).push((chars@.subrange(run_start as int, i + 1), run_matched))
                    =~= before.update(
                    before.len() - 1,
                    (before.last().0.push(chars@[i as int]), matched),
                ));
            }
        }
        i += 1;
    }
    let end = chars.len();
    let segment = string_from_chars(chars_slice(&chars, run_start, end).as_slice());
    let ghost old_out = out@;
    out.push((segment, run_matched));
    proof {
        assert(segment_views(out@) =~= segment_views(old_out).push(
            (chars@.subrange(run_start as int, end as int), run_matched),
        ));
        if chars.len() == 0 {
            assert(chars@ =~= Seq::<char>::empty());
            assert(segment_views(old_out) =~= Seq::<(Seq<char>, bool)>::empty());
            assert(chars@.subrange(0, 0) =~= chars@);
            assert(segments(chars@, sv) == seq![(chars@, in_spans(sv, 0))]);
            assert(segment_views(out@) =~= seq![(chars@, in_spans(sv, 0))]);
        } else {
            assert(i == end);
            assert(chars@.take(end as int) =~= chars@);
            assert(segment_views(out@) == segments(chars@.take(i as int), sv));
        }
    }
    out
}

/// The characters `chars[start..end]`.
fn chars_slice(chars: &Vec<char>, start: usize, end: usize) -> (r: Vec<char>)
    requires
        start <= end <= chars.len(),
    ensures
        r@ == chars@.subrange(start as int, end as int),
{
    let mut out: Vec<char> = Vec::new();
    let mut k = start;
    while k < end
        invariant
            start <= k <= end <= chars.len(),
            out@ == chars@.subrange(start as int, k as int),
        decreases end - k,
    {
        out.push(chars[k]);
        proof {
            assert(chars@.subrange(start as int, k + 1) =~= chars@.subrange(start as int, k as int).push(chars@[k as int]));
        }
        k += 1;
    }
    out
}

} // verus!
