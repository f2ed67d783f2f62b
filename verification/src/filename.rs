//! Filename handling for untrusted, client-supplied names: reduction to a
//! base name (defeating path traversal) and extension extraction.

use vstd::prelude::*;

verus! {

/// A path separator, on either convention.
pub open spec fn is_separator(c: char) -> bool {
    c == '/' || c == '\\'
}

/// The base name of a path: the suffix after the last separator. A name
/// ending in a separator has an empty base name.
pub open spec fn basename_of(s: Seq<char>) -> Seq<char>
    decreases s.len(),
{
    if s.len() == 0 {
        Seq::empty()
    } else if is_separator(s.last()) {
        Seq::empty()
    } else {
        basename_of(s.drop_last()).push(s.last())
    }
}

/// A base name never contains a separator.
pub proof fn lemma_basename_no_separator(s: Seq<char>)
    ensures
        forall|i: int| 0 <= i < basename_of(s).len() ==> !is_separator(#[trigger] basename_of(s)[i]),
    decreases s.len(),
{
    if s.len() == 0 || is_separator(s.last()) {
    } else {
        lemma_basename_no_separator(s.drop_last());
        let b = basename_of(s.drop_last());
        assert forall|i: int| 0 <= i < basename_of(s).len() implies !is_separator(
            basename_of(s)[i],
        ) by {
            if i < b.len() {
                assert(basename_of(s)[i] == b[i]);
            } else {
                assert(basename_of(s)[i] == s.last());
            }
        }
    }
}

/// The base name is the suffix that starts right after the last separator.
proof fn lemma_basename_subrange(s: Seq<char>, cut: int)
    requires
        0 <= cut <= s.len(),
        forall|i: int| cut <= i < s.len() ==> !is_separator(#[trigger] s[i]),
        cut > 0 ==> is_separator(s[cut - 1]),
    ensures
        basename_of(s) == s.subrange(cut, s.len() as int),
    decreases s.len(),
{
    if s.len() == 0 {
        assert(basename_of(s) =~= s.subrange(cut, s.len() as int));
    } else if cut == s.len() {
        assert(is_separator(s.last()));
        assert(basename_of(s) =~= s.subrange(cut, s.len() as int));
    } else {
        assert(!is_separator(s.last()));
        lemma_basename_subrange(s.drop_last(), cut);
        assert(basename_of(s) =~= s.subrange(cut, s.len() as int));
    }
}

/// Reduces a client-supplied filename to its base name: everything up to and
/// including the last path separator is stripped.
pub fn sanitize_filename(raw: &str) -> (r: String)
    ensures
        r@ == basename_of(raw@),
        forall|i: int| 0 <= i < r@.len() ==> !is_separator(#[trigger] r@[i]),
{
    let len = raw.unicode_len();
    let mut cut: usize = 0;
    for i in 0..len
        invariant
            len == raw@.len(),
            0 <= cut <= i,
            cut > 0 ==> is_separator(raw@[cut - 1]),
            forall|j: int| cut <= j < i ==> !is_separator(#[trigger] raw@[j]),
    {
        let c = raw.get_char(i);
        if c == '/' || c == '\\' {
            cut = i + 1;
        }
    }
    proof {
        lemma_basename_subrange(raw@, cut as int);
        lemma_basename_no_separator(raw@);
    }
    raw.substring_char(cut, len).to_owned()
}

/// The extension of a base name: the part after the last `'.'`, provided
/// that dot is not the leading character. A name with no dot, or whose only
/// dot leads it, has no extension.
pub open spec fn ext_of(s: Seq<char>) -> Option<Seq<char>>
    decreases s.len(),
{
    if s.len() <= 1 {
        None
    } else if s.last() == '.' {
        Some(Seq::empty())
    } else {
        match ext_of(s.drop_last()) {
            Some(e) => Some(e.push(s.last())),
            None => None,
        }
    }
}

/// An extension never contains a dot.
pub proof fn lemma_ext_no_dot(s: Seq<char>)
    requires
        ext_of(s) is Some,
    ensures
        forall|i: int| 0 <= i < ext_of(s)->Some_0.len() ==> (#[trigger] ext_of(s)->Some_0[i]) != '.',
    decreases s.len(),
{
    if s.len() <= 1 || s.last() == '.' {
    } else {
        lemma_ext_no_dot(s.drop_last());
    }
}

/// An extension of a separator-free name is separator-free.
pub proof fn lemma_ext_no_separator(s: Seq<char>)
    requires
        ext_of(s) is Some,
        forall|i: int| 0 <= i < s.len() ==> !is_separator(#[trigger] s[i]),
    ensures
        forall|i: int|
            0 <= i < ext_of(s)->Some_0.len() ==> !is_separator(#[trigger] ext_of(s)->Some_0[i]),
    decreases s.len(),
{
    if s.len() <= 1 || s.last() == '.' {
    } else {
        lemma_ext_no_separator(s.drop_last());
    }
}

/// The extension is the suffix that starts right after the last dot, when
/// that dot is not leading.
pub proof fn lemma_ext_subrange(s: Seq<char>, d: int)
    requires
        1 <= d < s.len(),
        s[d] == '.',
        forall|i: int| d < i < s.len() ==> (#[trigger] s[i]) != '.',
    ensures
        ext_of(s) == Some(s.subrange(d + 1, s.len() as int)),
    decreases s.len(),
{
    if d == s.len() - 1 {
        assert(s.last() == '.');
        assert(s.subrange(d + 1, s.len() as int) =~= Seq::<char>::empty());
    } else {
        assert(s.last() != '.');
        lemma_ext_subrange(s.drop_last(), d);
        assert(s.drop_last().subrange(d + 1, s.len() - 1).push(s.last()) =~= s.subrange(
            d + 1,
            s.len() as int,
        ));
    }
}

/// A name with no non-leading dot has no extension.
proof fn lemma_ext_none(s: Seq<char>)
    requires
        forall|i: int| 1 <= i < s.len() ==> (#[trigger] s[i]) != '.',
    ensures
        ext_of(s) is None,
    decreases s.len(),
{
    if s.len() <= 1 {
    } else {
        assert(s.last() != '.');
        lemma_ext_none(s.drop_last());
    }
}

/// Extracts the extension of a (sanitized) filename, not yet case-folded.
pub fn extension_of(name: &str) -> (r: Option<String>)
    ensures
        r matches Some(e) ==> ext_of(name@) == Some(e@),
        r is None ==> ext_of(name@) is None,
{
    let len = name.unicode_len();
    let mut dot: usize = 0;
    let mut found = false;
    for i in 0..len
        invariant
            len == name@.len(),
            found ==> dot < i && name@[dot as int] == '.' && (forall|j: int|
                dot < j < i ==> (#[trigger] name@[j]) != '.'),
            !found ==> forall|j: int| 0 <= j < i ==> (#[trigger] name@[j]) != '.',
    {
        if name.get_char(i) == '.' {
            dot = i;
            found = true;
        }
    }
    if !found || dot == 0 {
        proof {
            lemma_ext_none(name@);
        }
        None
    } else {
        proof {
            lemma_ext_subrange(name@, dot as int);
        }
        Some(name.substring_char(dot + 1, len).to_owned())
    }
}

} // verus!
