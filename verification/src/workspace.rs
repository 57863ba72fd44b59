//! Rules for file-tree changes: which renames may run, and which name a new
//! file or folder gets so that it never replaces an existing entry.

use vstd::prelude::*;

use crate::paths::{file_name_of, joined, last_dot, parent_of, path_file_name, path_join, same_parent};
use crate::text::{decimal, lemma_decimal_injective, str_chars, string_from_chars, string_views, usize_to_string};

verus! {

/// `new` may be the target of renaming `old`: its file name is a plain name
/// (no separator, not `.` or `..`), it sits in the same folder as `old`,
/// and nothing exists there yet.
pub open spec fn rename_allowed(old: Seq<char>, new: Seq<char>, new_exists: bool) -> bool {
    &&& file_name_of(new) matches Some(name) && !name.contains('/') && !name.contains('\\')
        && name != seq!['.'] && name != seq!['.', '.']
    &&& parent_of(old) == parent_of(new)
    &&& !new_exists
}

/// Whether renaming `old` to `new` is allowed; `new_exists` tells whether
/// something already exists at `new`.
pub fn is_rename_target(old: &str, new: &str, new_exists: bool) -> (r: bool)
    ensures
        r == rename_allowed(old@, new@, new_exists),
{
    let plain_name = match path_file_name(new) {
        Some(name) => {
            let chars = str_chars(name.as_str());
            let mut ok = true;
            let mut i: usize = 0;
            while i < chars.len()
                invariant
                    i <= chars.len(),
                    chars@ == name@,
                    ok == (forall|k: int| 0 <= k < i ==> chars@[k] != '/' && chars@[k] != '\\'),
                decreases chars.len() - i,
            {
                if chars[i] == '/' || chars[i] == '\\' {
                    ok = false;
                }
                i += 1;
            }
            let dot = chars.len() == 1 && chars[0] == '.';
            let dotdot = chars.len() == 2 && chars[0] == '.' && chars[1] == '.';
            proof {
                let n = name@;
                if n.contains('/') {
                    let k = choose|k: int| 0 <= k < n.len() && n[k] == '/';
                    assert(chars@[k] == '/');
                }
                if n.contains('\\') {
                    let k = choose|k: int| 0 <= k < n.len() && n[k] == '\\';
                    assert(chars@[k] == '\\');
                }
                if !ok {
                    let k = choose|k: int| 0 <= k < i && !(chars@[k] != '/' && chars@[k] != '\\');
                    if chars@[k] == '/' {
                        assert(n.contains('/'));
                    } else {
                        assert(n.contains('\\'));
                    }
                }
                if dot {
                    assert(n =~= seq!['.']);
                }
                if dotdot {
                    assert(n =~= seq!['.', '.']);
                }
                if n == seq!['.'] {
                    assert(n[0] == '.');
                }
                if n == seq!['.', '.'] {
                    assert(n[0] == '.' && n[1] == '.');
                }
            }
            ok && !dot && !dotdot
        },
        None => false,
    };
    plain_name && same_parent(old, new) && !new_exists
}

/// Stem and extension of a new entry's name: split at its last `.` unless
/// that `.` starts the name (the extension keeps its `.`).
pub open spec fn stem_and_extension(name: Seq<char>) -> (Seq<char>, Seq<char>) {
    match last_dot(name) {
        Some(k) => if k > 0 {
            (name.take(k), name.skip(k))
        } else {
            (name, Seq::<char>::empty())
        },
        None => (name, Seq::<char>::empty()),
    }
}

/// The `index`th alternative name: `stem_index.ext`.
pub open spec fn numbered_name(name: Seq<char>, index: nat) -> Seq<char> {
    let (stem, ext) = stem_and_extension(name);
    stem + seq!['_'] + decimal(index) + ext
}

/// The first name, among `name`, then `stem_2.ext`, `stem_3.ext`, …, that
/// `taken` does not hold, as a path in `parent`.
pub open spec fn unused_child_of(parent: Seq<char>, name: Seq<char>, taken: Seq<Seq<char>>) -> Seq<
    char,
> {
    if !taken.contains(name) {
        joined(parent, name)
    } else {
        let k = choose|k: nat|
            k >= 2 && !taken.contains(numbered_name(name, k)) && forall|j: nat|
                2 <= j < k ==> taken.contains(#[trigger] numbered_name(name, j));
        joined(parent, numbered_name(name, k))
    }
}

proof fn lemma_numbered_injective(name: Seq<char>, a: nat, b: nat)
    requires
        numbered_name(name, a) == numbered_name(name, b),
    ensures
        a == b,
{
    let (stem, ext) = stem_and_extension(name);
    let p = stem + seq!['_'];
    let x = numbered_name(name, a);
    let y = numbered_name(name, b);
    let da = decimal(a);
    let db = decimal(b);
    assert(x == p + da + ext);
    assert(y == p + db + ext);
    assert(x.len() == p.len() + da.len() + ext.len());
    assert(y.len() == p.len() + db.len() + ext.len());
    assert(x.subrange(p.len() as int, (p.len() + da.len()) as int) == da);
    assert(y.subrange(p.len() as int, (p.len() + db.len()) as int) == db);
    assert(da.len() == db.len());
    lemma_decimal_injective(a, b);
}

/// Whether `taken` holds `candidate`.
fn is_taken(taken: &Vec<String>, candidate: &String) -> (r: bool)
    ensures
        r == string_views(taken@).contains(candidate@),
{
    let mut i: usize = 0;
    while i < taken.len()
        invariant
            i <= taken.len(),
            forall|k: int| 0 <= k < i ==> taken@[k]@ != candidate@,
        decreases taken.len() - i,
    {
        if taken[i] == *candidate {
            proof {
                assert(string_views(taken@)[i as int] == candidate@);
            }
            return true;
        }
        i += 1;
    }
    proof {
        if string_views(taken@).contains(candidate@) {
            let k = choose|k: int| 0 <= k < taken.len() && string_views(taken@)[k] == candidate@;
            assert(taken@[k]@ == candidate@);
        }
    }
    false
}

/// The `index`th alternative name.
fn numbered(stem: &Vec<char>, ext: &Vec<char>, index: usize) -> (r: String)
    ensures
        r@ == stem@ + seq!['_'] + decimal(index as nat) + ext@,
{
    let digits = str_chars(usize_to_string(index).as_str());
    let mut out = stem.clone();
    out.push('_');
    let ghost base = out@;
    let mut i: usize = 0;
    while i < digits.len()
        invariant
            i <= digits.len(),
            out@ == base + digits@.take(i as int),
        decreases digits.len() - i,
    {
        out.push(digits[i]);
        proof {
            assert(digits@.take(i + 1) == digits@.take(i as int).push(digits@[i as int]));
        }
        i += 1;
    }
    let ghost mid = out@;
    let mut j: usize = 0;
    while j < ext.len()
        invariant
            j <= ext.len(),
            out@ == mid + ext@.take(j as int),
        decreases ext.len() - j,
    {
        out.push(ext[j]);
        proof {
            assert(ext@.take(j + 1) == ext@.take(j as int).push(ext@[j as int]));
        }
        j += 1;
    }
    proof {
        assert(digits@.take(digits.len() as int) == digits@);
        assert(ext@.take(ext.len() as int) == ext@);
    }
    string_from_chars(out.as_slice())
}

/// A path in `parent` for a new entry called `name` that none of the names
/// in `taken` (the entries already in `parent`) occupies: `name` itself, or
/// `stem_2.ext`, `stem_3.ext`, … for the first free number.
pub fn unused_child(parent: &str, name: &str, taken: &Vec<String>) -> (r: String)
    requires
        taken.len() < usize::MAX - 3,
    ensures
        r@ == unused_child_of(parent@, name@, string_views(taken@)),
{
    let name_string = name.to_string();
    if !is_taken(taken, &name_string) {
        return path_join(parent, name);
    }
    let chars = str_chars(name);
    let mut k = chars.len();
    proof {
        assert(chars@.take(k as int) == chars@);
    }
    loop
        invariant
            k <= chars.len(),
            chars@ == name@,
            last_dot(chars@) == last_dot(chars@.take(k as int)),
        ensures
            k <= chars.len(),
            last_dot(chars@) == if k == 0 {
                None::<int>
            } else {
                Some(k - 1)
            },
        decreases k,
    {
        if k == 0 {
            proof {
                assert(chars@.take(0) =~= Seq::<char>::empty());
            }
            break;
        }
        proof {
            assert(chars@.take(k as int).drop_last() == chars@.take(k - 1));
        }
        if chars[k - 1] == '.' {
            break;
        }
        k -= 1;
    }
    let mut stem: Vec<char> = Vec::new();
    let mut ext: Vec<char> = Vec::new();
    let split = if k >= 2 {
        k - 1
    } else {
        chars.len()
    };
    let mut i: usize = 0;
    while i < chars.len()
        invariant
            i <= chars.len(),
            split <= chars.len(),
            stem@ == chars@.take(if i < split {
                i as int
            } else {
                split as int
            }),
            ext@ == if i < split {
                Seq::<char>::empty()
            } else {
                chars@.subrange(split as int, i as int)
            },
        decreases chars.len() - i,
    {
        if i < split {
            stem.push(chars[i]);
            proof {
                assert(chars@.take(i + 1) == chars@.take(i as int).push(chars@[i as int]));
            }
        } else {
            ext.push(chars[i]);
            proof {
                assert(chars@.subrange(split as int, i + 1) == chars@.subrange(
                    split as int,
                    i as int,
                ).push(chars@[i as int]));
            }
        }
        i += 1;
    }
    proof {
        assert(stem@ == stem_and_extension(name@).0) by {
            if k >= 2 {
                assert(chars@.take(split as int) == name@.take(k - 1));
            } else {
                assert(chars@.take(chars.len() as int) == name@);
            }
        }
        assert(ext@ == stem_and_extension(name@).1) by {
            if k >= 2 {
                assert(chars@.subrange(split as int, chars.len() as int) == name@.skip(k - 1));
            } else {
                assert(ext@ =~= Seq::<char>::empty());
            }
        }
    }
    let ghost views = string_views(taken@);
    let mut index: usize = 2;
    loop
        invariant
            2 <= index <= taken.len() + 2,
            taken.len() < usize::MAX - 3,
            views == string_views(taken@),
            views.contains(name@),
            stem@ == stem_and_extension(name@).0,
            ext@ == stem_and_extension(name@).1,
            forall|j: nat| 2 <= j < index ==> views.contains(#[trigger] numbered_name(name@, j)),
        decreases taken.len() + 3 - index,
    {
        let candidate = numbered(&stem, &ext, index);
        if !is_taken(taken, &candidate) {
            proof {
                let kk = index as nat;
                assert(!views.contains(numbered_name(name@, kk)));
                let k0 = choose|k: nat|
                    k >= 2 && !views.contains(numbered_name(name@, k)) && forall|j: nat|
                        2 <= j < k ==> views.contains(#[trigger] numbered_name(name@, j));
                if k0 < kk {
                    assert(views.contains(numbered_name(name@, k0)));
                } else if kk < k0 {
                    assert(views.contains(numbered_name(name@, kk)));
                }
            }
            return path_join(parent, candidate.as_str());
        }
        proof {
            let cands = Seq::new((index - 1) as nat, |j: int| numbered_name(name@, (j + 2) as nat));
            assert forall|a: int, b: int| 0 <= a < cands.len() && 0 <= b < cands.len() && a != b
                implies cands[a] != cands[b] by {
                if cands[a] == cands[b] {
                    lemma_numbered_injective(name@, (a + 2) as nat, (b + 2) as nat);
                }
            }
            assert(cands.no_duplicates());
            cands.unique_seq_to_set();
            assert forall|c: Seq<char>| cands.to_set().contains(c) implies views.to_set().contains(
                c,
            ) by {
                let j = choose|j: int| 0 <= j < cands.len() && cands[j] == c;
                assert(cands[j] == numbered_name(name@, (j + 2) as nat));
                if j + 2 < index {
                    assert(views.contains(numbered_name(name@, (j + 2) as nat)));
                } else {
                    assert(views.contains(candidate@));
                }
            }
            views.lemma_cardinality_of_set();
            vstd::set_lib::lemma_len_subset(cands.to_set(), views.to_set());
        }
        index += 1;
    }
}

} // verus!
