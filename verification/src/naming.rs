//! Collision-safe storage names: a freshly drawn token, a dot, and the
//! validated extension. Client-supplied text never becomes part of the name
//! that reaches the filesystem.

use vstd::prelude::*;
use crate::filename::{ext_of, is_separator};

verus! {

/// A character that can occur in a printed version-4 UUID: a lower-case
/// hexadecimal digit or a hyphen.
pub open spec fn is_token_char(c: char) -> bool {
    ('0' <= c && c <= '9') || ('a' <= c && c <= 'f') || c == '-'
}

/// The shape of a printed UUID: 36 token characters.
pub open spec fn is_token(t: Seq<char>) -> bool {
    t.len() == 36 && forall|i: int| 0 <= i < t.len() ==> is_token_char(#[trigger] t[i])
}

/// Relies on uuid::Uuid::new_v4 and the Display impl of uuid::Uuid: a fresh
/// version-4 UUID printed in the hyphenated form, 36 characters, each a
/// lower-case hexadecimal digit or a hyphen. The draw is random, so the
/// contract states only the shape of the text, true of every outcome.
#[verifier::external_body]
pub(crate) fn fresh_token() -> (r: String)
    ensures
        is_token(r@),
{
    uuid::Uuid::new_v4().to_string()
}

/// The storage name built from token `t` and extension `e`.
pub open spec fn stored_name_of(t: Seq<char>, e: Seq<char>) -> Seq<char> {
    t + seq!['.'] + e
}

/// Joins a token and a validated extension into a storage name.
pub(crate) fn make_stored_name(token: String, ext: &str) -> (r: String)
    ensures
        r@ == stored_name_of(token@, ext@),
{
    let mut r = token;
    r.append(".");
    r.append(ext);
    proof {
        reveal_strlit(".");
        assert("."@ =~= seq!['.']);
    }
    r
}

/// Distinct tokens give distinct storage names, whatever the extensions:
/// a storage name starts with its 36-character token, so the token can be
/// read back off the name. Uploads therefore never overwrite one another as
/// long as every stored file's name was built from a fresh, distinct token.
pub proof fn lemma_distinct_tokens_distinct_names(
    t1: Seq<char>,
    e1: Seq<char>,
    t2: Seq<char>,
    e2: Seq<char>,
)
    requires
        is_token(t1),
        is_token(t2),
        t1 != t2,
    ensures
        stored_name_of(t1, e1) != stored_name_of(t2, e2),
{
    if stored_name_of(t1, e1) == stored_name_of(t2, e2) {
        assert(stored_name_of(t1, e1).subrange(0, 36) =~= t1);
        assert(stored_name_of(t2, e2).subrange(0, 36) =~= t2);
        assert(t1 == t2);
    }
}

/// A storage name's extension is exactly the validated extension it was
/// built from, and the name contains no path separator: the stored file
/// lies directly inside the namespace directory, and a later directory scan
/// recovers the same extension.
pub proof fn lemma_stored_name_parts(t: Seq<char>, e: Seq<char>)
    requires
        is_token(t),
        forall|i: int| 0 <= i < e.len() ==> (#[trigger] e[i]) != '.',
        forall|i: int| 0 <= i < e.len() ==> !is_separator(#[trigger] e[i]),
    ensures
        ext_of(stored_name_of(t, e)) == Some(e),
        forall|i: int|
            0 <= i < stored_name_of(t, e).len() ==> !is_separator(#[trigger] stored_name_of(t, e)[i]),
{
    let n = stored_name_of(t, e);
    assert(n.len() == 37 + e.len());
    assert(n[36] == '.');
    assert forall|i: int| 36 < i < n.len() implies (n[i]) != '.' by {
        assert(n[i] == e[i - 37]);
    }
    crate::filename::lemma_ext_subrange(n, 36);
    assert(n.subrange(37, n.len() as int) =~= e);
    assert forall|i: int| 0 <= i < n.len() implies !is_separator(n[i]) by {
        if i < 36 {
            assert(is_token_char(t[i]));
        } else if i == 36 {
        } else {
            assert(n[i] == e[i - 37]);
        }
    }
}

} // verus!
