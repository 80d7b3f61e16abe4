//! Paths and other strings as sequences of characters.

use vstd::prelude::*;
use vstd::string::StringSliceAdditionalSpecFns;

verus! {

/// The separator between the components of a path.
pub const SEPARATOR: char = '/';

/// Whether `path` names `root` itself or something below it: `root` is a prefix of `path`
/// that ends where a component of `path` ends. This is said of paths that are spelled in
/// the one way that [`is_plain_path`] allows, and of the empty root, which is above every
/// path.
pub open spec fn is_at_or_beneath(path: Seq<char>, root: Seq<char>) -> bool {
    &&& root.len() <= path.len()
    &&& path.subrange(0, root.len() as int) == root
    &&& (root.len() == path.len() || root.len() == 0 || root.last() == SEPARATOR
        || path[root.len() as int] == SEPARATOR)
}

/// Whether the character at `place` starts a component that is empty or is `.`.
pub open spec fn is_odd_at(path: Seq<char>, place: int) -> bool {
    ||| path[place] == SEPARATOR && place + 1 < path.len() && path[place + 1] == SEPARATOR
    ||| path[place] == '.' && (place == 0 || path[place - 1] == SEPARATOR) && (place + 1
        == path.len() || path[place + 1] == SEPARATOR)
}

/// Whether `path` is spelled in the one way in which its components can be spelled: it is not
/// empty, none of its components is empty or is `.`, and it ends in the separator only
/// where it is the root. Two paths spelled so have the same components exactly where they
/// are the same string, and one lies at or beneath the other exactly where
/// [`is_at_or_beneath`] says so.
pub open spec fn is_plain_path(path: Seq<char>) -> bool {
    &&& path.len() > 0
    &&& path.len() > 1 ==> path.last() != SEPARATOR
    &&& forall|place: int| 0 <= place < path.len() ==> !#[trigger] is_odd_at(path, place)
}

/// Whether each of `paths` is spelled in the one way.
pub open spec fn are_plain_paths(paths: Seq<Seq<char>>) -> bool {
    forall|i: int| 0 <= i < paths.len() ==> is_plain_path(#[trigger] paths[i])
}

/// Whether `text` ends with `suffix`.
pub open spec fn has_suffix(text: Seq<char>, suffix: Seq<char>) -> bool {
    &&& suffix.len() <= text.len()
    &&& text.subrange(text.len() - suffix.len(), text.len() as int) == suffix
}

/// Whether `needle` occurs in `text` at position `at`.
pub open spec fn occurs_at(text: Seq<char>, needle: Seq<char>, at: int) -> bool {
    &&& 0 <= at
    &&& at + needle.len() <= text.len()
    &&& text.subrange(at, at + needle.len()) == needle
}

/// Whether `needle` occurs somewhere in `text`.
pub open spec fn has_substring(text: Seq<char>, needle: Seq<char>) -> bool {
    exists|at: int| occurs_at(text, needle, at)
}

/// The characters of `s`, in order.
pub fn to_chars(s: &str) -> (v: Vec<char>)
    ensures
        v@ == s@,
{
    broadcast use vstd::string::axiom_spec_iter;

    let mut v: Vec<char> = Vec::new();
    for c in it: s.chars()
        invariant
            it.seq() == s@,
            v@ == it.seq().take(it.index() as int),
    {
        v.push(c);
    }
    v
}

/// Whether two strings hold the same characters.
pub fn str_eq(a: &str, b: &str) -> (eq: bool)
    ensures
        eq == (a@ == b@),
{
    let x = a.as_bytes();
    let y = b.as_bytes();
    proof {
        vstd::utf8::encode_utf8_decode_utf8(a@);
        vstd::utf8::encode_utf8_decode_utf8(b@);
    }
    if x.len() != y.len() {
        return false;
    }
    let mut i: usize = 0;
    while i < x.len()
        invariant
            i <= x.len(),
            x.len() == y.len(),
            x@ == a.spec_bytes(),
            y@ == b.spec_bytes(),
            forall|j: int| 0 <= j < i ==> x@[j] == y@[j],
        decreases x.len() - i,
    {
        if x[i] != y[i] {
            return false;
        }
        i += 1;
    }
    assert(x@ =~= y@);
    true
}

/// Whether `text[at..]` begins with `needle`.
fn matches_at(text: &Vec<char>, needle: &Vec<char>, at: usize) -> (found: bool)
    requires
        at + needle.len() <= text.len(),
    ensures
        found == occurs_at(text@, needle@, at as int),
{
    let mut i: usize = 0;
    while i < needle.len()
        invariant
            i <= needle.len(),
            at + needle.len() <= text.len(),
            forall|j: int| 0 <= j < i ==> text@[at + j] == needle@[j],
        decreases needle.len() - i,
    {
        if text[at + i] != needle[i] {
            assert(text@.subrange(at as int, at + needle.len())[i as int] != needle@[i as int]);
            return false;
        }
        i += 1;
    }
    assert(text@.subrange(at as int, at + needle.len()) =~= needle@);
    true
}

/// Whether `path` names `root` itself or something below it. Both are spelled in the one
/// way; the empty root is above every path.
pub fn path_starts_with(path: &str, root: &str) -> (beneath: bool)
    requires
        is_plain_path(path@),
        is_plain_path(root@) || root@.len() == 0,
    ensures
        beneath == is_at_or_beneath(path@, root@),
{
    let p = to_chars(path);
    let r = to_chars(root);
    if r.len() > p.len() {
        return false;
    }
    if !matches_at(&p, &r, 0) {
        return false;
    }
    r.len() == p.len() || r.len() == 0 || r[r.len() - 1] == SEPARATOR || p[r.len()] == SEPARATOR
}

/// Whether `path` is spelled in the one way in which its components can be spelled.
pub fn is_plain(path: &str) -> (plain: bool)
    ensures
        plain == is_plain_path(path@),
{
    let p = to_chars(path);
    let n = p.len();
    if n == 0 {
        return false;
    }
    if n > 1 && p[n - 1] == SEPARATOR {
        return false;
    }
    let mut i: usize = 0;
    while i < n
        invariant
            i <= n,
            n == p@.len(),
            p@ == path@,
            forall|place: int| 0 <= place < i ==> !#[trigger] is_odd_at(p@, place),
        decreases n - i,
    {
        let doubled = p[i] == SEPARATOR && i + 1 < n && p[i + 1] == SEPARATOR;
        let dot = p[i] == '.' && (i == 0 || p[i - 1] == SEPARATOR) && (i + 1 == n || p[i + 1]
            == SEPARATOR);
        if doubled || dot {
            assert(is_odd_at(p@, i as int));
            return false;
        }
        i += 1;
    }
    true
}

/// Whether `text` ends with `suffix`.
pub fn str_ends_with(text: &str, suffix: &str) -> (ends: bool)
    ensures
        ends == has_suffix(text@, suffix@),
{
    let t = to_chars(text);
    let s = to_chars(suffix);
    if s.len() > t.len() {
        return false;
    }
    matches_at(&t, &s, t.len() - s.len())
}

/// Whether `needle` occurs somewhere in `text`.
pub fn str_contains(text: &str, needle: &str) -> (found: bool)
    ensures
        found == has_substring(text@, needle@),
{
    let t = to_chars(text);
    let n = to_chars(needle);
    if n.len() > t.len() {
        assert(forall|at: int| !occurs_at(t@, n@, at));
        return false;
    }
    let last: usize = t.len() - n.len();
    let mut at: usize = 0;
    loop
        invariant
            t@ == text@,
            n@ == needle@,
            last == t.len() - n.len(),
            at <= last,
            forall|k: int| 0 <= k < at ==> !occurs_at(t@, n@, k),
        decreases last - at,
    {
        if matches_at(&t, &n, at) {
            return true;
        }
        if at == last {
            assert(forall|k: int| !occurs_at(t@, n@, k));
            return false;
        }
        at += 1;
    }
}

} // verus!
