//! Gallery listing: filter a directory's entries through the extension
//! policy, then sort them into codepoint order, so that repeated calls over
//! the same contents give the same answer whatever order the directory was
//! scanned in.

use vstd::prelude::*;
use vstd::relations::sorted_by;
use vstd::seq_lib::lemma_sorted_unique;
use crate::filename::{ext_of, extension_of};
use crate::order::{lemma_name_order_total, name_order, sort_names};
use crate::policy::{spec_allowed, GalleryConfig, NamespacePolicy};
use crate::text::lower_of;

verus! {

/// One listed file: its stored name and the public path it is served under.
pub struct GalleryEntry {
    pub name: String,
    pub url: String,
}

/// A directory entry is visible in a namespace's listing exactly when its
/// extension, case-folded, is accepted by that namespace. Files placed in
/// the directory with any other extension stay invisible.
pub open spec fn visible(policies: Seq<NamespacePolicy>, ns: Seq<char>, name: Seq<char>) -> bool {
    match ext_of(name) {
        Some(e) => spec_allowed(policies, ns, lower_of(e)),
        None => false,
    }
}

/// The visibility test as a function value, for `Seq::filter`.
pub open spec fn visible_filter(policies: Seq<NamespacePolicy>, ns: Seq<char>) -> spec_fn(
    Seq<char>,
) -> bool {
    |n: Seq<char>| visible(policies, ns, n)
}

/// The names a listing returns, in order: the visible entries, sorted.
pub open spec fn listed_names(
    policies: Seq<NamespacePolicy>,
    ns: Seq<char>,
    names: Seq<Seq<char>>,
) -> Seq<Seq<char>> {
    names.filter(visible_filter(policies, ns)).sort_by(name_order())
}

/// The public path a stored file is served under.
pub open spec fn url_of(ns: Seq<char>, name: Seq<char>) -> Seq<char> {
    "/images/"@ + ns + seq!['/'] + name
}

/// Whether one directory entry is visible under `ns`.
pub fn is_visible(cfg: &GalleryConfig, ns: &str, name: &str) -> (r: bool)
    requires
        cfg.wf(),
    ensures
        r == visible(cfg.policies@, ns@, name@),
{
    match extension_of(name) {
        Some(e) => cfg.allowed(ns, e.as_str()),
        None => false,
    }
}

/// Builds the public path of one stored file.
pub fn make_url(ns: &str, name: &str) -> (r: String)
    ensures
        r@ == url_of(ns@, name@),
{
    let mut u = "/images/".to_owned();
    u.append(ns);
    u.append("/");
    u.append(name);
    proof {
        reveal_strlit("/");
        assert("/"@ =~= seq!['/']);
        assert(u@ =~= url_of(ns@, name@));
    }
    u
}

/// Lists a namespace: `dir` holds the names found in its storage directory,
/// or `None` when the directory does not exist yet — an empty gallery, not
/// an error. The result is exactly the visible entries in ascending
/// codepoint order, each paired with its public path.
pub fn list_entries(cfg: &GalleryConfig, ns: &str, dir: Option<Vec<String>>) -> (r: Vec<
    GalleryEntry,
>)
    requires
        cfg.wf(),
    ensures
        ({
            let names = match dir {
                Some(d) => d.deep_view(),
                None => Seq::<Seq<char>>::empty(),
            };
            let listed = listed_names(cfg.policies@, ns@, names);
            &&& r@.len() == listed.len()
            &&& forall|i: int|
                0 <= i < r@.len() ==> (#[trigger] r@[i]).name@ == listed[i] && r@[i].url@ == url_of(
                    ns@,
                    listed[i],
                )
            &&& sorted_by(listed, name_order())
        }),
{
    let names: Vec<String> = match dir {
        Some(d) => d,
        None => Vec::new(),
    };
    let ghost all = names.deep_view();
    let ghost pred = visible_filter(cfg.policies@, ns@);
    let mut kept: Vec<String> = Vec::new();
    proof {
        reveal(Seq::filter);
        assert(kept.deep_view() =~= Seq::<Seq<char>>::empty());
        assert(all.subrange(0, 0) =~= Seq::<Seq<char>>::empty());
    }
    let n = names.len();
    for i in 0..n
        invariant
            cfg.wf(),
            n == names@.len(),
            all == names.deep_view(),
            pred == visible_filter(cfg.policies@, ns@),
            kept.deep_view() == all.subrange(0, i as int).filter(pred),
    {
        let ghost prefix = all.subrange(0, i as int);
        if is_visible(cfg, ns, names[i].as_str()) {
            kept.push(names[i].clone());
        }
        proof {
            prefix.lemma_filter_push(all[i as int], pred);
            assert(all.subrange(0, i + 1) =~= prefix.push(all[i as int]));
            if pred(all[i as int]) {
                assert(kept.deep_view() =~= prefix.filter(pred).push(all[i as int]));
            }
        }
    }
    proof {
        assert(all.subrange(0, n as int) =~= all);
        lemma_name_order_total();
        kept.deep_view().lemma_sort_by_ensures(name_order());
    }
    let sorted = sort_names(&kept);
    let mut out: Vec<GalleryEntry> = Vec::new();
    let m = sorted.len();
    for i in 0..m
        invariant
            m == sorted@.len(),
            out@.len() == i,
            forall|j: int|
                0 <= j < i ==> (#[trigger] out@[j]).name@ == sorted.deep_view()[j]
                    && out@[j].url@ == url_of(ns@, sorted.deep_view()[j]),
    {
        let url = make_url(ns, sorted[i].as_str());
        out.push(GalleryEntry { name: sorted[i].clone(), url });
    }
    out
}

/// A gallery whose directory holds nothing — in particular one whose
/// directory does not exist yet — lists as empty, not as an error.
pub proof fn lemma_empty_dir_lists_nothing(policies: Seq<NamespacePolicy>, ns: Seq<char>)
    ensures
        listed_names(policies, ns, Seq::<Seq<char>>::empty()) == Seq::<Seq<char>>::empty(),
{
    reveal(Seq::filter);
    let p = visible_filter(policies, ns);
    let e = Seq::<Seq<char>>::empty();
    assert(e.filter(p) == e);
    lemma_name_order_total();
    e.lemma_sort_by_ensures(name_order());
    vstd::seq_lib::to_multiset_len(e.sort_by(name_order()));
    vstd::seq_lib::to_multiset_len(e);
    assert(e.sort_by(name_order()).len() == 0);
    assert(e.sort_by(name_order()) =~= e);
}

/// A sequence filter and the matching multiset filter agree: filtering a
/// sequence and taking its multiset is taking the multiset and filtering it.
pub proof fn lemma_filter_multiset<A>(s: Seq<A>, p: spec_fn(A) -> bool)
    ensures
        s.filter(p).to_multiset() == s.to_multiset().filter(p),
    decreases s.len(),
{
    broadcast use vstd::multiset::group_multiset_axioms;

    reveal(Seq::filter);
    if s.len() == 0 {
        vstd::seq_lib::to_multiset_len(s);
        assert(s.filter(p) == s);
        assert forall|v: A| #[trigger] s.filter(p).to_multiset().count(v) == s.to_multiset().filter(
            p,
        ).count(v) by {
            assert(s.to_multiset().count(v) == 0);
        }
        assert(s.filter(p).to_multiset() =~= s.to_multiset().filter(p));
    } else {
        let d = s.drop_last();
        let x = s.last();
        lemma_filter_multiset(d, p);
        assert(s =~= d.push(x));
        d.lemma_filter_push(x, p);
        vstd::seq_lib::to_multiset_build(d, x);
        if p(x) {
            vstd::seq_lib::to_multiset_build(d.filter(p), x);
            assert forall|v: A| #[trigger] s.filter(p).to_multiset().count(v)
                == s.to_multiset().filter(p).count(v) by {
                assert(s.to_multiset().count(v) == d.to_multiset().insert(x).count(v));
            }
            assert(s.filter(p).to_multiset() =~= s.to_multiset().filter(p));
        } else {
            assert forall|v: A| #[trigger] s.filter(p).to_multiset().count(v)
                == s.to_multiset().filter(p).count(v) by {
                assert(s.to_multiset().count(v) == d.to_multiset().insert(x).count(v));
            }
            assert(s.filter(p).to_multiset() =~= s.to_multiset().filter(p));
        }
    }
}

/// Listing is deterministic: whatever order the directory hands its entries
/// back in, the same contents give the same listing.
pub proof fn lemma_listing_order_independent(
    policies: Seq<NamespacePolicy>,
    ns: Seq<char>,
    d1: Seq<Seq<char>>,
    d2: Seq<Seq<char>>,
)
    requires
        d1.to_multiset() == d2.to_multiset(),
    ensures
        listed_names(policies, ns, d1) == listed_names(policies, ns, d2),
{
    broadcast use vstd::multiset::group_multiset_axioms;

    let p = visible_filter(policies, ns);
    lemma_filter_multiset(d1, p);
    lemma_filter_multiset(d2, p);
    assert(d1.filter(p).to_multiset() == d2.filter(p).to_multiset());
    lemma_name_order_total();
    d1.filter(p).lemma_sort_by_ensures(name_order());
    d2.filter(p).lemma_sort_by_ensures(name_order());
    lemma_sorted_unique(
        d1.filter(p).sort_by(name_order()),
        d2.filter(p).sort_by(name_order()),
        name_order(),
    );
}

/// Every visible file in the directory is listed: in particular, a name the
/// ingestion pipeline just stored — which it guarantees to be visible —
/// shows up in the next listing of that directory.
pub proof fn lemma_visible_name_is_listed(
    policies: Seq<NamespacePolicy>,
    ns: Seq<char>,
    names: Seq<Seq<char>>,
    i: int,
)
    requires
        0 <= i < names.len(),
        visible(policies, ns, names[i]),
    ensures
        listed_names(policies, ns, names).contains(names[i]),
{
    broadcast use vstd::multiset::group_multiset_axioms;
    broadcast use vstd::seq_lib::group_to_multiset_ensures;

    let p = visible_filter(policies, ns);
    names.lemma_filter_contains(p, i);
    let f = names.filter(p);
    lemma_name_order_total();
    f.lemma_sort_by_ensures(name_order());
    assert(f.to_multiset().count(names[i]) > 0);
    assert(f.sort_by(name_order()).to_multiset().count(names[i]) > 0);
    assert(f.sort_by(name_order()).contains(names[i]));
}

/// Everything a listing returns is visible: a file with a disallowed
/// extension never appears, however it got into the directory.
pub proof fn lemma_listed_only_visible(
    policies: Seq<NamespacePolicy>,
    ns: Seq<char>,
    names: Seq<Seq<char>>,
    i: int,
)
    requires
        0 <= i < listed_names(policies, ns, names).len(),
    ensures
        visible(policies, ns, listed_names(policies, ns, names)[i]),
        names.contains(listed_names(policies, ns, names)[i]),
{
    broadcast use vstd::multiset::group_multiset_axioms;
    broadcast use vstd::seq_lib::group_to_multiset_ensures;

    let p = visible_filter(policies, ns);
    let f = names.filter(p);
    lemma_name_order_total();
    f.lemma_sort_by_ensures(name_order());
    let x = listed_names(policies, ns, names)[i];
    assert(f.sort_by(name_order()).contains(x));
    assert(f.sort_by(name_order()).to_multiset().count(x) > 0);
    assert(f.to_multiset().count(x) > 0);
    assert(f.contains(x));
    let j = choose|j: int| 0 <= j < f.len() && f[j] == x;
    names.lemma_filter_pred(p, j);
    lemma_filter_multiset(names, p);
    assert(names.to_multiset().filter(p).count(x) > 0);
    assert(names.to_multiset().count(x) > 0);
}

} // verus!
