//! Character-level helpers on names.

use vstd::prelude::*;

verus! {

/// The ASCII lower-case form of a character; other characters stay as they are.
pub open spec fn ascii_lower(c: char) -> char {
    if 'A' <= c <= 'Z' {
        ((c as u32) + 32) as char
    } else {
        c
    }
}

/// The ASCII lower-case form of a text.
pub open spec fn lower(s: Seq<char>) -> Seq<char> {
    s.map_values(|c: char| ascii_lower(c))
}

/// Lower-cases one character as `char::to_ascii_lowercase` does.
pub fn to_ascii_lower(c: char) -> (r: char)
    ensures
        r == ascii_lower(c),
{
    if 'A' <= c && c <= 'Z' {
        let code = c as u32 + 32;
        assert(0x61 <= code <= 0x7a);
        char_from_ascii(code)
    } else {
        c
    }
}

/// The character with an ASCII code.
fn char_from_ascii(code: u32) -> (c: char)
    requires
        code < 128,
    ensures
        c == code as char,
{
    (code as u8) as char
}

/// Whether `prefix` begins `s`, ignoring ASCII case.
pub fn starts_with_ignore_ascii_case(s: &str, prefix: &str) -> (r: bool)
    ensures
        r == lower(prefix@).is_prefix_of(lower(s@)),
{
    let n = s.unicode_len();
    let m = prefix.unicode_len();
    if m > n {
        return false;
    }
    let mut i: usize = 0;
    while i < m
        invariant
            n == s@.len(),
            m == prefix@.len(),
            m <= n,
            0 <= i <= m,
            forall|k: int| 0 <= k < i ==> ascii_lower(s@[k]) == ascii_lower(prefix@[k]),
        decreases m - i,
    {
        if to_ascii_lower(s.get_char(i)) != to_ascii_lower(prefix.get_char(i)) {
            assert(lower(s@)[i as int] != lower(prefix@)[i as int]);
            return false;
        }
        i = i + 1;
    }
    assert(lower(prefix@) =~= lower(s@).take(m as int));
    true
}

/// Whether `a` and `b` are equal, ignoring ASCII case.
pub fn eq_ignore_ascii_case(a: &str, b: &str) -> (r: bool)
    ensures
        r == (lower(a@) == lower(b@)),
{
    let n = a.unicode_len();
    let m = b.unicode_len();
    if n != m {
        assert(lower(a@).len() != lower(b@).len());
        return false;
    }
    let mut i: usize = 0;
    while i < n
        invariant
            n == a@.len(),
            m == b@.len(),
            n == m,
            0 <= i <= n,
            forall|k: int| 0 <= k < i ==> ascii_lower(a@[k]) == ascii_lower(b@[k]),
        decreases n - i,
    {
        if to_ascii_lower(a.get_char(i)) != to_ascii_lower(b.get_char(i)) {
            assert(lower(a@)[i as int] != lower(b@)[i as int]);
            return false;
        }
        i = i + 1;
    }
    assert(lower(a@) =~= lower(b@));
    true
}

/// The first position at or after `from` where `s` holds "::".
pub open spec fn find_separator(s: Seq<char>, from: int) -> Option<int>
    decreases s.len() - from,
{
    if from < 0 || from + 1 >= s.len() {
        None
    } else if s[from] == ':' && s[from + 1] == ':' {
        Some(from)
    } else {
        find_separator(s, from + 1)
    }
}

/// A separator found at or after `from` lies at or after `from` and fits in the text.
pub proof fn lemma_find_separator_bounds(s: Seq<char>, from: int)
    ensures
        find_separator(s, from) matches Some(i) ==> from <= i && i + 1 < s.len() && s[i] == ':'
            && s[i + 1] == ':',
    decreases s.len() - from,
{
    if from >= 0 && from + 1 < s.len() && !(s[from] == ':' && s[from + 1] == ':') {
        lemma_find_separator_bounds(s, from + 1);
    }
}

/// Finds the first "::" in `s` at or after `from`.
pub fn find_separator_from(s: &str, from: usize) -> (r: Option<usize>)
    ensures
        match find_separator(s@, from as int) {
            None => r is None,
            Some(i) => r == Some(i as usize),
        },
{
    let n = s.unicode_len();
    if from >= n {
        return None;
    }
    let mut i = from;
    while i < n - 1
        invariant
            n == s@.len(),
            from <= i,
            i < n,
            find_separator(s@, i as int) == find_separator(s@, from as int),
        decreases n - i,
    {
        if s.get_char(i) == ':' && s.get_char(i + 1) == ':' {
            return Some(i);
        }
        i = i + 1;
    }
    None
}

} // verus!
