//! Unix path rules on `/`-separated strings, as `std::path` reads them:
//! components (repeated and trailing separators and inner `.` ignored),
//! equality, parent, file name, extension, prefix and joining.

use vstd::prelude::*;

use crate::text::{str_chars, string_from_chars};

verus! {

/// `s` split at every `/`, empty pieces included.
pub open spec fn split_slash(s: Seq<char>) -> Seq<Seq<char>>
    decreases s.len(),
{
    if s.len() == 0 {
        seq![Seq::<char>::empty()]
    } else {
        let rest = split_slash(s.drop_last());
        if s.last() == '/' {
            rest.push(Seq::<char>::empty())
        } else {
            rest.update(rest.len() - 1, rest.last().push(s.last()))
        }
    }
}

/// Pieces that name no component: empty ones and `.`.
pub open spec fn is_skipped(seg: Seq<char>) -> bool {
    seg.len() == 0 || seg == seq!['.']
}

/// The pieces that name components, in order.
pub open spec fn kept(segs: Seq<Seq<char>>) -> Seq<Seq<char>>
    decreases segs.len(),
{
    if segs.len() == 0 {
        Seq::empty()
    } else {
        let rest = kept(segs.drop_last());
        if is_skipped(segs.last()) {
            rest
        } else {
            rest.push(segs.last())
        }
    }
}

/// The component before the named ones: the root (written `/`) for an
/// absolute path, the current directory (written `.`) for a relative path
/// that starts with `.` alone, nothing otherwise.
pub open spec fn head(s: Seq<char>) -> Seq<Seq<char>> {
    if s.len() > 0 && s[0] == '/' {
        seq![seq!['/']]
    } else if s.len() > 0 && s[0] == '.' && (s.len() == 1 || s[1] == '/') {
        seq![seq!['.']]
    } else {
        Seq::empty()
    }
}

/// The components of a path; the root is `/`, the current directory `.`.
pub open spec fn components(s: Seq<char>) -> Seq<Seq<char>> {
    head(s) + kept(split_slash(s))
}

/// A component that is a name (not root, `.` or `..`).
pub open spec fn is_normal(c: Seq<char>) -> bool {
    c != seq!['/'] && c != seq!['.'] && c != seq!['.', '.']
}

/// The last component, when it is a name.
pub open spec fn file_name_of(s: Seq<char>) -> Option<Seq<char>> {
    let c = components(s);
    if c.len() > 0 && is_normal(c.last()) {
        Some(c.last())
    } else {
        None
    }
}

/// The components of the parent path; `None` for the root and the empty
/// path.
pub open spec fn parent_of(s: Seq<char>) -> Option<Seq<Seq<char>>> {
    let c = components(s);
    if c.len() > 0 && c.last() != seq!['/'] {
        Some(c.drop_last())
    } else {
        None
    }
}

/// Index of the last `.` of `s`, if any.
pub open spec fn last_dot(s: Seq<char>) -> Option<int>
    decreases s.len(),
{
    if s.len() == 0 {
        None
    } else if s.last() == '.' {
        Some(s.len() - 1)
    } else {
        last_dot(s.drop_last())
    }
}

/// The extension of a file name: what follows its last `.`, unless that
/// `.` starts the name.
pub open spec fn extension_of_name(name: Seq<char>) -> Option<Seq<char>> {
    match last_dot(name) {
        Some(k) => if k == 0 {
            None
        } else {
            Some(name.skip(k + 1))
        },
        None => None,
    }
}

/// The extension of a path's file name.
pub open spec fn extension_of(s: Seq<char>) -> Option<Seq<char>> {
    match file_name_of(s) {
        Some(name) => extension_of_name(name),
        None => None,
    }
}

/// `name` joined onto `base`: an absolute `name` replaces `base`; otherwise
/// a `/` goes between unless `base` is empty or already ends with one.
pub open spec fn joined(base: Seq<char>, name: Seq<char>) -> Seq<char> {
    if name.len() > 0 && name[0] == '/' {
        name
    } else if base.len() > 0 && base.last() != '/' {
        base + seq!['/'] + name
    } else {
        base + name
    }
}

/// The components of `base` come first in `path`.
pub open spec fn starts_with_components(path: Seq<char>, base: Seq<char>) -> bool {
    components(base).len() <= components(path).len() && components(base) == components(path).take(
        components(base).len() as int,
    )
}

/// The character views of a vector of character vectors.
pub open spec fn views(v: Seq<Vec<char>>) -> Seq<Seq<char>> {
    Seq::new(v.len(), |i: int| v[i]@)
}

proof fn lemma_split_nonempty(s: Seq<char>)
    ensures
        split_slash(s).len() >= 1,
    decreases s.len(),
{
    if s.len() > 0 {
        lemma_split_nonempty(s.drop_last());
    }
}

/// Whether `seg` names no component.
fn seg_skipped(seg: &Vec<char>) -> (b: bool)
    ensures
        b == is_skipped(seg@),
{
    let b = seg.len() == 0 || (seg.len() == 1 && seg[0] == '.');
    proof {
        if seg.len() == 1 && seg[0] == '.' {
            assert(seg@ =~= seq!['.']);
        }
    }
    b
}

/// The components of `path`.
pub fn components_of(path: &str) -> (c: Vec<Vec<char>>)
    ensures
        views(c@) == components(path@),
{
    let chars = str_chars(path);
    let n = chars.len();
    let mut out: Vec<Vec<char>> = Vec::new();
    let mut h: Vec<char> = Vec::new();
    if n > 0 && chars[0] == '/' {
        h.push('/');
        out.push(h);
    } else if n > 0 && chars[0] == '.' && (n == 1 || chars[1] == '/') {
        h.push('.');
        out.push(h);
    }
    proof {
        assert(views(out@) =~= head(chars@));
    }
    let ghost hd = views(out@);
    let mut cur: Vec<char> = Vec::new();
    let mut i: usize = 0;
    proof {
        assert(chars@.take(0) =~= Seq::<char>::empty());
        assert(split_slash(chars@.take(0)).drop_last() =~= Seq::<Seq<char>>::empty());
    }
    while i < n
        invariant
            i <= n == chars.len(),
            chars@ == path@,
            hd == head(path@),
            views(out@) == hd + kept(split_slash(chars@.take(i as int)).drop_last()),
            split_slash(chars@.take(i as int)).len() >= 1,
            split_slash(chars@.take(i as int)).last() == cur@,
        decreases n - i,
    {
        let c = chars[i];
        let ghost prev = split_slash(chars@.take(i as int));
        proof {
            assert(chars@.take(i + 1).drop_last() == chars@.take(i as int));
            assert(chars@.take(i + 1).last() == c);
        }
        if c == '/' {
            proof {
                let next = split_slash(chars@.take(i + 1));
                assert(next == prev.push(Seq::<char>::empty()));
                assert(next.drop_last() == prev);
                assert(prev == prev.drop_last().push(prev.last()));
            }
            if !seg_skipped(&cur) {
                let ghost before = out@;
                out.push(cur);
                proof {
                    assert(views(out@) =~= views(before).push(prev.last()));
                }
            }
            cur = Vec::new();
            proof {
                assert(cur@ =~= Seq::<char>::empty());
            }
        } else {
            cur.push(c);
            proof {
                let next = split_slash(chars@.take(i + 1));
                assert(next == prev.update(prev.len() - 1, prev.last().push(c)));
                assert(next.drop_last() =~= prev.drop_last());
            }
        }
        i += 1;
    }
    proof {
        assert(chars@.take(n as int) == chars@);
        let all = split_slash(chars@);
        assert(all == all.drop_last().push(all.last()));
    }
    if !seg_skipped(&cur) {
        let ghost before = out@;
        out.push(cur);
        proof {
            assert(views(out@) =~= views(before).push(cur@));
        }
    }
    out
}

/// Whether two character vectors hold the same characters.
fn chars_eq(a: &Vec<char>, b: &Vec<char>) -> (r: bool)
    ensures
        r == (a@ == b@),
{
    if a.len() != b.len() {
        return false;
    }
    let mut i: usize = 0;
    while i < a.len()
        invariant
            i <= a.len() == b.len(),
            forall|k: int| 0 <= k < i ==> a@[k] == b@[k],
        decreases a.len() - i,
    {
        if a[i] != b[i] {
            return false;
        }
        i += 1;
    }
    proof {
        assert(a@ =~= b@);
    }
    true
}

/// Whether the first `n` components of `a` and `b` agree.
fn prefix_eq(a: &Vec<Vec<char>>, b: &Vec<Vec<char>>, n: usize) -> (r: bool)
    requires
        n <= a.len(),
        n <= b.len(),
    ensures
        r == (views(a@).take(n as int) == views(b@).take(n as int)),
{
    let mut i: usize = 0;
    while i < n
        invariant
            i <= n <= a.len(),
            n <= b.len(),
            views(a@).take(i as int) == views(b@).take(i as int),
        decreases n - i,
    {
        if !chars_eq(&a[i], &b[i]) {
            proof {
                assert(views(a@).take(n as int)[i as int] != views(b@).take(n as int)[i as int]);
            }
            return false;
        }
        proof {
            assert(views(a@).take(i + 1) =~= views(b@).take(i + 1));
        }
        i += 1;
    }
    true
}

/// Whether `a` and `b` name the same path (component by component).
pub fn paths_equal(a: &str, b: &str) -> (r: bool)
    ensures
        r == (components(a@) == components(b@)),
{
    let ca = components_of(a);
    let cb = components_of(b);
    if ca.len() != cb.len() {
        return false;
    }
    let r = prefix_eq(&ca, &cb, ca.len());
    proof {
        assert(views(ca@).take(ca.len() as int) == views(ca@));
        assert(views(cb@).take(cb.len() as int) == views(cb@));
    }
    r
}

/// Whether the components of `base` begin `path`.
pub fn path_starts_with(path: &str, base: &str) -> (r: bool)
    ensures
        r == starts_with_components(path@, base@),
{
    let cp = components_of(path);
    let cb = components_of(base);
    if cb.len() > cp.len() {
        return false;
    }
    let r = prefix_eq(&cb, &cp, cb.len());
    proof {
        assert(views(cb@).take(cb.len() as int) == views(cb@));
    }
    r
}

/// Whether `c` is a name (not root, `.` or `..`).
fn comp_is_normal(c: &Vec<char>) -> (b: bool)
    ensures
        b == is_normal(c@),
{
    let root = c.len() == 1 && c[0] == '/';
    let cur = c.len() == 1 && c[0] == '.';
    let up = c.len() == 2 && c[0] == '.' && c[1] == '.';
    proof {
        if c.len() == 1 {
            if c@[0] == '/' {
                assert(c@ =~= seq!['/']);
            }
            if c@[0] == '.' {
                assert(c@ =~= seq!['.']);
            }
        }
        if c.len() == 2 && c@[0] == '.' && c@[1] == '.' {
            assert(c@ =~= seq!['.', '.']);
        }
        if c@ == seq!['/'] {
            assert(c@[0] == '/');
        }
        if c@ == seq!['.'] {
            assert(c@[0] == '.');
        }
        if c@ == seq!['.', '.'] {
            assert(c@[0] == '.' && c@[1] == '.');
        }
    }
    !root && !cur && !up
}

/// The last component of `path` when it is a name.
pub fn path_file_name(path: &str) -> (r: Option<String>)
    ensures
        match file_name_of(path@) {
            Some(n) => (r matches Some(s) && s@ == n),
            None => r is None,
        },
{
    let c = components_of(path);
    let n = c.len();
    if n == 0 {
        return None;
    }
    if !comp_is_normal(&c[n - 1]) {
        return None;
    }
    Some(string_from_chars(c[n - 1].as_slice()))
}

/// Whether `a` and `b` have the same parent (both none, or equal ones).
pub fn same_parent(a: &str, b: &str) -> (r: bool)
    ensures
        r == (parent_of(a@) == parent_of(b@)),
{
    let ca = components_of(a);
    let cb = components_of(b);
    let pa = ca.len() > 0 && !(ca[ca.len() - 1].len() == 1 && ca[ca.len() - 1][0] == '/');
    let pb = cb.len() > 0 && !(cb[cb.len() - 1].len() == 1 && cb[cb.len() - 1][0] == '/');
    proof {
        if ca.len() > 0 {
            let l = ca@[ca.len() - 1]@;
            assert(views(ca@).last() == l);
            if l.len() == 1 && l[0] == '/' {
                assert(l =~= seq!['/']);
            }
            if l == seq!['/'] {
                assert(l[0] == '/');
            }
        }
        if cb.len() > 0 {
            let l = cb@[cb.len() - 1]@;
            assert(views(cb@).last() == l);
            if l.len() == 1 && l[0] == '/' {
                assert(l =~= seq!['/']);
            }
            if l == seq!['/'] {
                assert(l[0] == '/');
            }
        }
    }
    if !pa || !pb {
        return !pa && !pb;
    }
    if ca.len() != cb.len() {
        proof {
            assert(views(ca@).drop_last().len() != views(cb@).drop_last().len());
        }
        return false;
    }
    let r = prefix_eq(&ca, &cb, ca.len() - 1);
    proof {
        assert(views(ca@).take(ca.len() - 1) == views(ca@).drop_last());
        assert(views(cb@).take(cb.len() - 1) == views(cb@).drop_last());
    }
    r
}

/// The extension of `path`'s file name.
pub fn path_extension(path: &str) -> (r: Option<String>)
    ensures
        match extension_of(path@) {
            Some(e) => (r matches Some(s) && s@ == e),
            None => r is None,
        },
{
    let name = match path_file_name(path) {
        Some(n) => n,
        None => return None,
    };
    let chars = str_chars(name.as_str());
    let mut k = chars.len();
    proof {
        assert(chars@.take(k as int) == chars@);
    }
    loop
        invariant
            k <= chars.len(),
            chars@ == name@,
            last_dot(chars@) == last_dot(chars@.take(k as int)),
        ensures
            k <= chars.len(),
            last_dot(chars@) == if k == 0 {
                None::<int>
            } else {
                Some(k - 1)
            },
        decreases k,
    {
        if k == 0 {
            proof {
                assert(chars@.take(0) =~= Seq::<char>::empty());
            }
            break;
        }
        proof {
            assert(chars@.take(k as int).drop_last() == chars@.take(k - 1));
        }
        if chars[k - 1] == '.' {
            break;
        }
        k -= 1;
    }
    if k <= 1 {
        return None;
    }
    let mut ext: Vec<char> = Vec::new();
    let mut i = k;
    while i < chars.len()
        invariant
            k <= i <= chars.len(),
            ext@ == chars@.subrange(k as int, i as int),
        decreases chars.len() - i,
    {
        ext.push(chars[i]);
        proof {
            assert(chars@.subrange(k as int, i + 1) == chars@.subrange(k as int, i as int).push(
                chars@[i as int],
            ));
        }
        i += 1;
    }
    proof {
        assert(chars@.skip(k as int) == chars@.subrange(k as int, chars.len() as int));
    }
    Some(string_from_chars(ext.as_slice()))
}

/// `name` joined onto `base`.
pub fn path_join(base: &str, name: &str) -> (r: String)
    ensures
        r@ == joined(base@, name@),
{
    let b = str_chars(base);
    let n = str_chars(name);
    if n.len() > 0 && n[0] == '/' {
        return name.to_string();
    }
    let mut out = b.clone();
    if b.len() > 0 && b[b.len() - 1] != '/' {
        out.push('/');
    }
    let mut i: usize = 0;
    let ghost start = out@;
    while i < n.len()
        invariant
            i <= n.len(),
            out@ == start + n@.take(i as int),
        decreases n.len() - i,
    {
        out.push(n[i]);
        proof {
            assert(n@.take(i + 1) == n@.take(i as int).push(n@[i as int]));
        }
        i += 1;
    }
    proof {
        assert(n@.take(n.len() as int) == n@);
    }
    string_from_chars(out.as_slice())
}

} // verus!
