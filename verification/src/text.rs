//! Character-level helpers: ASCII case folding and case-insensitive
//! comparison of strings, with exact specifications over `Seq<char>`.

use vstd::prelude::*;

verus! {

/// ASCII case folding of one character: `'A'..='Z'` map to `'a'..='z'`,
/// every other character is unchanged.
pub open spec fn lower_char(c: char) -> char {
    if 'A' <= c && c <= 'Z' {
        ((c as u32) + 32) as char
    } else {
        c
    }
}

/// ASCII case folding of a whole character sequence.
pub open spec fn lower_of(s: Seq<char>) -> Seq<char> {
    s.map_values(|c: char| lower_char(c))
}

/// Case folding is idempotent: folding a folded sequence changes nothing.
pub proof fn lemma_lower_idempotent(s: Seq<char>)
    ensures
        lower_of(lower_of(s)) == lower_of(s),
{
    assert forall|i: int| 0 <= i < s.len() implies lower_char(lower_char(s[i])) == lower_char(
        s[i],
    ) by {}
    assert(lower_of(lower_of(s)) =~= lower_of(s));
}

/// Case folding maps letters to letters: it never creates or removes a dot
/// or a path separator.
pub proof fn lemma_lower_char_special(c: char)
    ensures
        (lower_char(c) == '.') == (c == '.'),
        (lower_char(c) == '/') == (c == '/'),
        (lower_char(c) == '\\') == (c == '\\'),
{
}

/// Executable ASCII case folding of one character.
pub fn char_to_lower(c: char) -> (r: char)
    ensures
        r == lower_char(c),
{
    if 'A' <= c && c <= 'Z' {
        (((c as u32) + 32) as u8) as char
    } else {
        c
    }
}

/// Exact string equality, character by character.
pub fn str_eq(a: &str, b: &str) -> (r: bool)
    ensures
        r == (a@ == b@),
{
    let a_len = a.unicode_len();
    let b_len = b.unicode_len();
    if a_len != b_len {
        return false;
    }
    for i in 0..a_len
        invariant
            a_len == a@.len(),
            a_len == b@.len(),
            forall|j: int| 0 <= j < i ==> a@[j] == b@[j],
    {
        if a.get_char(i) != b.get_char(i) {
            return false;
        }
    }
    assert(a@ =~= b@);
    true
}

/// Two strings are equal up to ASCII case.
pub fn eq_ignore_case(a: &str, b: &str) -> (r: bool)
    ensures
        r == (lower_of(a@) == lower_of(b@)),
{
    let a_len = a.unicode_len();
    let b_len = b.unicode_len();
    if a_len != b_len {
        assert(lower_of(a@).len() != lower_of(b@).len());
        return false;
    }
    for i in 0..a_len
        invariant
            a_len == a@.len(),
            a_len == b@.len(),
            forall|j: int| 0 <= j < i ==> lower_char(a@[j]) == lower_char(b@[j]),
    {
        let ca = a.get_char(i);
        let cb = b.get_char(i);
        if char_to_lower(ca) != char_to_lower(cb) {
            assert(lower_of(a@)[i as int] != lower_of(b@)[i as int]);
            return false;
        }
    }
    assert(lower_of(a@) =~= lower_of(b@));
    true
}

/// A string is already entirely free of ASCII upper-case letters.
pub fn is_lower(s: &str) -> (r: bool)
    ensures
        r == (lower_of(s@) == s@),
{
    let len = s.unicode_len();
    for i in 0..len
        invariant
            len == s@.len(),
            forall|j: int| 0 <= j < i ==> lower_char(s@[j]) == s@[j],
    {
        let c = s.get_char(i);
        if char_to_lower(c) != c {
            assert(lower_of(s@)[i as int] != s@[i as int]);
            return false;
        }
    }
    assert(lower_of(s@) =~= s@);
    true
}

} // verus!
