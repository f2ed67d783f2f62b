//! Lexicographic (codepoint) ordering of names: the tie-break that makes
//! gallery listings deterministic.

use vstd::prelude::*;
use vstd::relations::{sorted_by, total_ordering};
use vstd::seq_lib::lemma_sorted_unique;

verus! {

/// `a` comes no later than `b` in codepoint order.
pub open spec fn lex_leq(a: Seq<char>, b: Seq<char>) -> bool
    decreases a.len(),
{
    if a.len() == 0 {
        true
    } else if b.len() == 0 {
        false
    } else if a[0] == b[0] {
        lex_leq(a.drop_first(), b.drop_first())
    } else {
        a[0] < b[0]
    }
}

/// The ordering as a function value, as `Seq::sort_by` expects it.
pub open spec fn name_order() -> spec_fn(Seq<char>, Seq<char>) -> bool {
    |a: Seq<char>, b: Seq<char>| lex_leq(a, b)
}

pub proof fn lemma_lex_reflexive(a: Seq<char>)
    ensures
        lex_leq(a, a),
    decreases a.len(),
{
    if a.len() > 0 {
        lemma_lex_reflexive(a.drop_first());
    }
}

pub proof fn lemma_lex_connected(a: Seq<char>, b: Seq<char>)
    ensures
        lex_leq(a, b) || lex_leq(b, a),
    decreases a.len(),
{
    if a.len() > 0 && b.len() > 0 {
        if a[0] == b[0] {
            lemma_lex_connected(a.drop_first(), b.drop_first());
        }
    }
}

pub proof fn lemma_lex_antisymmetric(a: Seq<char>, b: Seq<char>)
    requires
        lex_leq(a, b),
        lex_leq(b, a),
    ensures
        a == b,
    decreases a.len(),
{
    if a.len() == 0 {
        assert(b.len() == 0);
        assert(a =~= b);
    } else {
        assert(b.len() > 0);
        assert(a[0] == b[0]);
        lemma_lex_antisymmetric(a.drop_first(), b.drop_first());
        assert forall|i: int| 0 <= i < a.len() implies a[i] == b[i] by {
            if i > 0 {
                assert(a.drop_first()[i - 1] == b.drop_first()[i - 1]);
            }
        }
        assert(a =~= b);
    }
}

pub proof fn lemma_lex_transitive(a: Seq<char>, b: Seq<char>, c: Seq<char>)
    requires
        lex_leq(a, b),
        lex_leq(b, c),
    ensures
        lex_leq(a, c),
    decreases a.len(),
{
    if a.len() == 0 || b.len() == 0 || c.len() == 0 {
    } else if a[0] == b[0] && b[0] == c[0] {
        lemma_lex_transitive(a.drop_first(), b.drop_first(), c.drop_first());
    }
}

/// Codepoint order is a total order, so sorting by it has a unique result.
pub proof fn lemma_name_order_total()
    ensures
        total_ordering(name_order()),
{
    let leq = name_order();
    assert forall|a: Seq<char>| #[trigger] leq(a, a) by {
        lemma_lex_reflexive(a);
    }
    assert forall|a: Seq<char>, b: Seq<char>| #[trigger] leq(a, b) && #[trigger] leq(b, a) implies a
        == b by {
        lemma_lex_antisymmetric(a, b);
    }
    assert forall|a: Seq<char>, b: Seq<char>| #[trigger] leq(a, b) || #[trigger] leq(b, a) by {
        lemma_lex_connected(a, b);
    }
    assert forall|a: Seq<char>, b: Seq<char>, c: Seq<char>|
        #[trigger] leq(a, b) && #[trigger] leq(b, c) implies leq(a, c) by {
        lemma_lex_transitive(a, b, c);
    }
}

/// Compares two strings in codepoint order.
pub fn str_lex_leq(a: &str, b: &str) -> (r: bool)
    ensures
        r == lex_leq(a@, b@),
{
    let a_len = a.unicode_len();
    let b_len = b.unicode_len();
    let min = if a_len < b_len {
        a_len
    } else {
        b_len
    };
    proof {
        assert(a@.skip(0) =~= a@);
        assert(b@.skip(0) =~= b@);
    }
    for i in 0..min
        invariant
            a_len == a@.len(),
            b_len == b@.len(),
            min == if a_len < b_len {
                a_len
            } else {
                b_len
            },
            lex_leq(a@, b@) == lex_leq(a@.skip(i as int), b@.skip(i as int)),
    {
        let ca = a.get_char(i);
        let cb = b.get_char(i);
        if ca != cb {
            assert(a@.skip(i as int)[0] == ca && b@.skip(i as int)[0] == cb);
            return ca < cb;
        }
        proof {
            assert(a@.skip(i as int)[0] == b@.skip(i as int)[0]);
            assert(a@.skip(i as int).drop_first() =~= a@.skip(i + 1));
            assert(b@.skip(i as int).drop_first() =~= b@.skip(i + 1));
        }
    }
    if a_len <= b_len {
        assert(a@.skip(min as int).len() == 0);
        true
    } else {
        assert(b@.skip(min as int).len() == 0 && a@.skip(min as int).len() > 0);
        false
    }
}

/// Inserts a name into an already sorted vector, keeping it sorted.
fn sorted_insert(v: &mut Vec<String>, s: String)
    requires
        sorted_by(old(v).deep_view(), name_order()),
    ensures
        sorted_by(final(v).deep_view(), name_order()),
        final(v).deep_view().to_multiset() == old(v).deep_view().to_multiset().insert(s@),
{
    broadcast use vstd::seq_lib::to_multiset_insert;

    let n = v.len();
    let mut j: usize = 0;
    while j < n && str_lex_leq(v[j].as_str(), s.as_str())
        invariant
            n == v@.len(),
            v@ == old(v)@,
            0 <= j <= n,
            forall|k: int| 0 <= k < j ==> lex_leq(#[trigger] v.deep_view()[k], s@),
        decreases n - j,
    {
        j += 1;
    }
    proof {
        if j < n {
            lemma_lex_connected(v.deep_view()[j as int], s@);
            assert(lex_leq(s@, v.deep_view()[j as int]));
        }
    }
    let ghost pre = v.deep_view();
    v.insert(j, s);
    proof {
        assert(v.deep_view() =~= pre.insert(j as int, s@));
        assert forall|x: int, y: int| 0 <= x < y < v.deep_view().len() implies name_order()(
            v.deep_view()[x],
            v.deep_view()[y],
        ) by {
            let dv = v.deep_view();
            if y < j {
                assert(dv[x] == pre[x] && dv[y] == pre[y]);
            } else if x > j {
                assert(dv[x] == pre[x - 1] && dv[y] == pre[y - 1]);
            } else if x < j && y == j {
                assert(dv[x] == pre[x] && dv[y] == s@);
            } else if x == j {
                assert(dv[x] == s@ && dv[y] == pre[y - 1]);
                assert(lex_leq(s@, pre[j as int]));
                if y - 1 > j {
                    assert(name_order()(pre[j as int], pre[y - 1]));
                    lemma_lex_transitive(s@, pre[j as int], pre[y - 1]);
                }
            } else {
                assert(x < j && y > j);
                assert(dv[x] == pre[x] && dv[y] == pre[y - 1]);
                assert(lex_leq(pre[x], s@));
                if y - 1 == j {
                    assert(lex_leq(s@, pre[j as int]));
                    lemma_lex_transitive(pre[x], s@, pre[j as int]);
                } else {
                    assert(name_order()(pre[x], pre[y - 1]));
                }
            }
        }
        assert(pre.insert(j as int, s@).to_multiset() == pre.to_multiset().insert(s@));
    }
}

/// Sorts names into codepoint order; the result is exactly `Seq::sort_by`
/// under `name_order`, so it is uniquely determined.
pub fn sort_names(names: &Vec<String>) -> (r: Vec<String>)
    ensures
        r.deep_view() == names.deep_view().sort_by(name_order()),
{
    broadcast use vstd::seq_lib::to_multiset_build;

    let mut out: Vec<String> = Vec::new();
    let n = names.len();
    proof {
        assert(out.deep_view() =~= Seq::<Seq<char>>::empty());
        assert(names.deep_view().subrange(0, 0) =~= Seq::<Seq<char>>::empty());
    }
    for i in 0..n
        invariant
            n == names@.len(),
            sorted_by(out.deep_view(), name_order()),
            out.deep_view().to_multiset() == names.deep_view().subrange(0, i as int).to_multiset(),
    {
        let ghost pre = names.deep_view().subrange(0, i as int);
        let s = names[i].clone();
        proof {
            assert(s@ == names.deep_view()[i as int]);
        }
        sorted_insert(&mut out, s);
        proof {
            let d = names.deep_view()[i as int];
            assert(names.deep_view().subrange(0, i + 1) =~= pre.push(d));
            vstd::seq_lib::to_multiset_build::<Seq<char>>(pre, d);
        }
    }
    proof {
        lemma_name_order_total();
        assert(names.deep_view().subrange(0, n as int) =~= names.deep_view());
        names.deep_view().lemma_sort_by_ensures(name_order());
        lemma_sorted_unique(
            out.deep_view(),
            names.deep_view().sort_by(name_order()),
            name_order(),
        );
        assert(out.deep_view() =~= names.deep_view().sort_by(name_order()));
    }
    out
}

} // verus!
