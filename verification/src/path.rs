//! Unix path semantics (`/`-separated), as `std::path` applies them on Unix.
use vstd::prelude::*;
use crate::text::{chars_eq, chars_of, copy_chars, last_index_of, last_index_of_char, push_all, slice_chars};

verus! {

pub proof fn lemma_last_index_of_char(s: Seq<char>, c: char)
    ensures
        match last_index_of_char(s, c) {
            Some(j) => 0 <= j < s.len() && s[j] == c && forall|k: int|
                j < k < s.len() ==> s[k] != c,
            None => forall|k: int| 0 <= k < s.len() ==> s[k] != c,
        },
    decreases s.len(),
{
    if s.len() > 0 && s.last() != c {
        let t = s.drop_last();
        lemma_last_index_of_char(t, c);
        assert forall|k: int| 0 <= k < t.len() implies t[k] == s[k] by {}
        match last_index_of_char(t, c) {
            Some(j) => {
                assert forall|k: int| j < k < s.len() implies s[k] != c by {
                    if k < t.len() {
                        assert(t[k] == s[k]);
                    }
                }
            },
            None => {
                assert forall|k: int| 0 <= k < s.len() implies s[k] != c by {
                    if k < t.len() {
                        assert(t[k] == s[k]);
                    }
                }
            },
        }
    }
}

/// The last normal component of a path, as `Path::file_name` gives it:
/// empty and `.` components are skipped, a final `..` has no file name.
pub open spec fn path_file_name(s: Seq<char>) -> Option<Seq<char>>
    decreases s.len(),
{
    if s.len() == 0 {
        None
    } else {
        match last_index_of_char(s, '/') {
            None => if s == seq!['.'] || s == seq!['.', '.'] {
                None
            } else {
                Some(s)
            },
            Some(j) => {
                let seg = s.skip(j + 1);
                if seg.len() == 0 || seg == seq!['.'] {
                    proof {
                        lemma_last_index_of_char(s, '/');
                    }
                    path_file_name(s.take(j))
                } else if seg == seq!['.', '.'] {
                    None
                } else {
                    Some(seg)
                }
            },
        }
    }
}

/// The extension of a path, as `Path::extension` gives it: the part of the file name
/// after its last `.`, unless that dot is the first character of the name.
pub open spec fn path_extension(s: Seq<char>) -> Option<Seq<char>> {
    match path_file_name(s) {
        None => None,
        Some(name) => match last_index_of_char(name, '.') {
            None => None,
            Some(i) => if i == 0 {
                None
            } else {
                Some(name.skip(i + 1))
            },
        },
    }
}

/// Whether a path is absolute (it begins at the root `/`).
pub open spec fn path_is_absolute(s: Seq<char>) -> bool {
    s.len() > 0 && s[0] == '/'
}

/// `base.join(p)`: `p` itself when absolute, else `p` appended after a separator.
pub open spec fn path_join(base: Seq<char>, p: Seq<char>) -> Seq<char> {
    if path_is_absolute(p) {
        p
    } else if base.len() > 0 && base.last() != '/' {
        base + seq!['/'] + p
    } else {
        base + p
    }
}

/// The file name of the path `s`.
pub fn file_name(s: &Vec<char>) -> (r: Option<Vec<char>>)
    ensures
        match r {
            Some(n) => path_file_name(s@) == Some(n@),
            None => path_file_name(s@) is None,
        },
{
    let mut n = s.len();
    assert(s@.take(n as int) =~= s@);
    let dot = chars_of(".");
    let dotdot = chars_of("..");
    proof {
        reveal_strlit(".");
        reveal_strlit("..");
        assert(dot@ =~= seq!['.']);
        assert(dotdot@ =~= seq!['.', '.']);
    }
    loop
        invariant
            n <= s.len(),
            path_file_name(s@) == path_file_name(s@.take(n as int)),
            dot@ == seq!['.'],
            dotdot@ == seq!['.', '.'],
        decreases n,
    {
        if n == 0 {
            return None;
        }
        let ghost t = s@.take(n as int);
        let prefix = slice_chars(s, 0, n);
        assert(prefix@ =~= t);
        match last_index_of(&prefix, '/') {
            None => {
                if chars_eq(&prefix, &dot) || chars_eq(&prefix, &dotdot) {
                    return None;
                }
                return Some(prefix);
            },
            Some(j) => {
                proof {
                    lemma_last_index_of_char(t, '/');
                }
                let seg = slice_chars(s, j + 1, n);
                assert(seg@ =~= t.skip(j + 1));
                if seg.len() == 0 || chars_eq(&seg, &dot) {
                    assert(t.take(j as int) =~= s@.take(j as int));
                    n = j;
                } else if chars_eq(&seg, &dotdot) {
                    return None;
                } else {
                    return Some(seg);
                }
            },
        }
    }
}

/// The extension of the path `s`.
pub fn extension(s: &Vec<char>) -> (r: Option<Vec<char>>)
    ensures
        match r {
            Some(e) => path_extension(s@) == Some(e@),
            None => path_extension(s@) is None,
        },
{
    match file_name(s) {
        None => None,
        Some(name) => match last_index_of(&name, '.') {
            None => None,
            Some(i) => {
                if i == 0 {
                    None
                } else {
                    proof {
                        lemma_last_index_of_char(name@, '.');
                    }
                    let e = slice_chars(&name, i + 1, name.len());
                    assert(e@ =~= name@.skip(i + 1));
                    Some(e)
                }
            },
        },
    }
}

/// Whether the path `s` is absolute.
pub fn is_absolute(s: &Vec<char>) -> (r: bool)
    ensures
        r == path_is_absolute(s@),
{
    s.len() > 0 && s[0] == '/'
}

/// `base.join(p)`.
pub fn join(base: &Vec<char>, p: &Vec<char>) -> (r: Vec<char>)
    ensures
        r@ == path_join(base@, p@),
{
    if is_absolute(p) {
        copy_chars(p)
    } else {
        let mut r = copy_chars(base);
        if base.len() > 0 && base[base.len() - 1] != '/' {
            r.push('/');
        }
        push_all(&mut r, p);
        proof {
            if base.len() > 0 && base@.last() != '/' {
                assert(r@ =~= base@ + seq!['/'] + p@);
            }
        }
        r
    }
}

} // verus!
