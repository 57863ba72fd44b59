//! Which files the editor shows as pictures, and the URI they load under.

use vstd::prelude::*;

use crate::paths::{extension_of, path_extension};
use crate::text::{str_chars, string_from_chars};

verus! {

/// ASCII lowercase of one character.
pub open spec fn ascii_lower(c: char) -> char {
    if 'A' <= c <= 'Z' {
        ((c as u32) + 32) as char
    } else {
        c
    }
}

/// ASCII lowercase of a string.
pub open spec fn ascii_lowercase(s: Seq<char>) -> Seq<char> {
    s.map_values(|c: char| ascii_lower(c))
}

/// The extensions of the picture formats the editor shows.
pub open spec fn image_extensions() -> Seq<Seq<char>> {
    seq![
        seq!['p', 'n', 'g'],
        seq!['j', 'p', 'g'],
        seq!['j', 'p', 'e', 'g'],
        seq!['g', 'i', 'f'],
        seq!['w', 'e', 'b', 'p'],
        seq!['b', 'm', 'p'],
        seq!['i', 'c', 'o'],
    ]
}

/// A path whose extension, in any ASCII case, is a picture format.
pub open spec fn is_image(path: Seq<char>) -> bool {
    match extension_of(path) {
        Some(e) => image_extensions().contains(ascii_lowercase(e)),
        None => false,
    }
}

/// ASCII lowercase of one character, computed.
fn lower_char(c: char) -> (r: char)
    ensures
        r == ascii_lower(c),
{
    if 'A' <= c && c <= 'Z' {
        let code: u32 = c as u32;
        let lowered: u8 = (code + 32) as u8;
        lowered as char
    } else {
        c
    }
}

/// Whether `a` lowercased (ASCII) is `b`.
fn eq_lowered(a: &Vec<char>, b: &Vec<char>) -> (r: bool)
    ensures
        r == (ascii_lowercase(a@) == b@),
{
    if a.len() != b.len() {
        return false;
    }
    let mut i: usize = 0;
    while i < a.len()
        invariant
            i <= a.len() == b.len(),
            forall|k: int| 0 <= k < i ==> ascii_lower(a@[k]) == b@[k],
        decreases a.len() - i,
    {
        let c = lower_char(a[i]);
        if c != b[i] {
            proof {
                assert(ascii_lowercase(a@)[i as int] == ascii_lower(a@[i as int]));
            }
            return false;
        }
        i += 1;
    }
    proof {
        assert(ascii_lowercase(a@) =~= b@);
    }
    true
}

/// Whether `path` names a picture the editor can show (png, jpg, jpeg, gif,
/// webp, bmp, ico, in any ASCII case).
pub fn is_image_path(path: &str) -> (r: bool)
    ensures
        r == is_image(path@),
{
    let ext = match path_extension(path) {
        Some(e) => e,
        None => return false,
    };
    let chars = str_chars(ext.as_str());
    let known: Vec<Vec<char>> = vec![
        vec!['p', 'n', 'g'],
        vec!['j', 'p', 'g'],
        vec!['j', 'p', 'e', 'g'],
        vec!['g', 'i', 'f'],
        vec!['w', 'e', 'b', 'p'],
        vec!['b', 'm', 'p'],
        vec!['i', 'c', 'o'],
    ];
    proof {
        assert(Seq::new(known@.len(), |i: int| known@[i]@) =~= image_extensions());
    }
    let mut i: usize = 0;
    while i < known.len()
        invariant
            i <= known.len(),
            known@.len() == 7,
            Seq::new(known@.len(), |j: int| known@[j]@) == image_extensions(),
            extension_of(path@) == Some(chars@),
            forall|k: int| 0 <= k < i ==> known@[k]@ != ascii_lowercase(chars@),
        decreases known.len() - i,
    {
        if eq_lowered(&chars, &known[i]) {
            proof {
                let ext_seq = Seq::new(known@.len(), |j: int| known@[j]@);
                assert(ext_seq[i as int] == known@[i as int]@);
                assert(image_extensions()[i as int] == ascii_lowercase(chars@));
                assert(image_extensions().len() == 7);
            }
            return true;
        }
        i += 1;
    }
    proof {
        if image_extensions().contains(ascii_lowercase(chars@)) {
            let k = choose|k: int|
                0 <= k < image_extensions().len() && image_extensions()[k] == ascii_lowercase(chars@);
            let ext_seq = Seq::new(known@.len(), |j: int| known@[j]@);
            assert(ext_seq[k] == known@[k]@);
            assert(known@[k]@ == image_extensions()[k]);
        }
    }
    false
}

/// The `file://` URI of a path: the same string for rendering and for
/// dropping a cached picture.
pub fn file_uri(path: &str) -> (r: String)
    ensures
        r@ == seq!['f', 'i', 'l', 'e', ':', '/', '/'] + path@,
{
    let mut out = vec!['f', 'i', 'l', 'e', ':', '/', '/'];
    let chars = str_chars(path);
    let ghost start = out@;
    let mut i: usize = 0;
    while i < chars.len()
        invariant
            i <= chars.len(),
            out@ == start + chars@.take(i as int),
        decreases chars.len() - i,
    {
        out.push(chars[i]);
        proof {
            assert(chars@.take(i + 1) == chars@.take(i as int).push(chars@[i as int]));
        }
        i += 1;
    }
    proof {
        assert(chars@.take(chars.len() as int) == chars@);
        assert(start =~= seq!['f', 'i', 'l', 'e', ':', '/', '/']);
    }
    string_from_chars(out.as_slice())
}

} // verus!
