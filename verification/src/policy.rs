//! Extension policy: each gallery namespace owns one upload form field and
//! one immutable set of accepted (lower-case) file extensions. Unknown
//! namespaces accept nothing.

use vstd::prelude::*;
use crate::text::{eq_ignore_case, is_lower, lower_of, str_eq};

verus! {

/// The policy of one namespace: its name, the multipart field its uploads
/// arrive under, and the extensions it accepts.
pub struct NamespacePolicy {
    pub name: String,
    pub upload_field: String,
    pub extensions: Vec<String>,
}

impl NamespacePolicy {
    /// All accepted extensions are stored lower-case, so that a case-folded
    /// candidate matches exactly the stored text.
    pub open spec fn wf(self) -> bool {
        forall|i: int|
            0 <= i < self.extensions@.len() ==> lower_of(
                #[trigger] self.extensions@[i]@,
            ) == self.extensions@[i]@
    }

    /// Builds a policy; accepted only when every extension is already
    /// lower-case.
    pub fn new(name: String, upload_field: String, extensions: Vec<String>) -> (r: Option<
        NamespacePolicy,
    >)
        ensures
            r is Some <==> (forall|i: int|
                0 <= i < extensions@.len() ==> lower_of(#[trigger] extensions@[i]@)
                    == extensions@[i]@),
            r matches Some(p) ==> p.name@ == name@ && p.upload_field@ == upload_field@
                && p.extensions@ == extensions@ && p.wf(),
    {
        for i in 0..extensions.len()
            invariant
                forall|j: int|
                    0 <= j < i ==> lower_of(#[trigger] extensions@[j]@) == extensions@[j]@,
        {
            if !is_lower(extensions[i].as_str()) {
                return None;
            }
        }
        Some(NamespacePolicy { name, upload_field, extensions })
    }
}

/// The whole gallery configuration: one policy per namespace, built once at
/// startup and never mutated.
pub struct GalleryConfig {
    pub policies: Vec<NamespacePolicy>,
}

/// Position `i` holds the policy of namespace `ns`.
pub open spec fn is_policy_for(policies: Seq<NamespacePolicy>, i: int, ns: Seq<char>) -> bool {
    0 <= i < policies.len() && policies[i].name@ == ns
}

/// Some policy owns namespace `ns`.
pub open spec fn has_namespace(policies: Seq<NamespacePolicy>, ns: Seq<char>) -> bool {
    exists|i: int| #[trigger] is_policy_for(policies, i, ns)
}

/// The extension `ext` (already lower-case) is accepted by namespace `ns`.
/// Namespaces with no policy accept nothing: the policy fails closed.
pub open spec fn spec_allowed(policies: Seq<NamespacePolicy>, ns: Seq<char>, ext: Seq<char>) -> bool {
    exists|i: int, j: int|
        is_policy_for(policies, i, ns) && 0 <= j < policies[i].extensions@.len() && (
        #[trigger] policies[i].extensions@[j]@) == ext
}

/// Parts arriving under field `field` are the upload stream of `ns`.
pub open spec fn spec_field_matches(
    policies: Seq<NamespacePolicy>,
    ns: Seq<char>,
    field: Seq<char>,
) -> bool {
    exists|i: int| #[trigger] is_policy_for(policies, i, ns) && policies[i].upload_field@ == field
}

impl GalleryConfig {
    /// Namespace names are distinct (each namespace has exactly one policy)
    /// and every policy is itself well-formed.
    pub open spec fn wf(self) -> bool {
        &&& forall|i: int, j: int|
            0 <= i < j < self.policies@.len() ==> (#[trigger] self.policies@[i].name@)
                != (#[trigger] self.policies@[j].name@)
        &&& forall|i: int| 0 <= i < self.policies@.len() ==> (#[trigger] self.policies@[i]).wf()
    }

    /// An empty configuration: every namespace fails closed.
    pub fn new() -> (r: GalleryConfig)
        ensures
            r.policies@.len() == 0,
            r.wf(),
    {
        GalleryConfig { policies: Vec::new() }
    }

    /// Adds a namespace policy; refused (returning `false` and leaving the
    /// configuration unchanged) when the namespace already has one.
    pub fn add(&mut self, policy: NamespacePolicy) -> (added: bool)
        requires
            old(self).wf(),
            policy.wf(),
        ensures
            final(self).wf(),
            added <==> !has_namespace(old(self).policies@, policy.name@),
            added ==> final(self).policies@ == old(self).policies@.push(policy),
            !added ==> final(self).policies@ == old(self).policies@,
    {
        let n = self.policies.len();
        for i in 0..n
            invariant
                n == self.policies@.len(),
                self.policies@ == old(self).policies@,
                old(self).wf(),
                forall|j: int| 0 <= j < i ==> (#[trigger] self.policies@[j].name@) != policy.name@,
        {
            if self.policies[i].name == policy.name {
                assert(is_policy_for(self.policies@, i as int, policy.name@));
                return false;
            }
        }
        assert(!has_namespace(self.policies@, policy.name@));
        self.policies.push(policy);
        true
    }

    /// The stored (lower-case) spelling of `ext` when `ns` accepts it: the
    /// policy entry that `ext` matches case-insensitively.
    pub fn matching_extension(&self, ns: &str, ext: &str) -> (r: Option<String>)
        requires
            self.wf(),
        ensures
            r matches Some(e) ==> e@ == lower_of(ext@) && spec_allowed(
                self.policies@,
                ns@,
                lower_of(ext@),
            ),
            r is None ==> !spec_allowed(self.policies@, ns@, lower_of(ext@)),
    {
        match self.find_policy(ns) {
            Some(i) => {
                let m = self.policies[i].extensions.len();
                for j in 0..m
                    invariant
                        self.wf(),
                        is_policy_for(self.policies@, i as int, ns@),
                        i < self.policies@.len(),
                        m == self.policies@[i as int].extensions@.len(),
                        forall|k: int|
                            0 <= k < j ==> (#[trigger] self.policies@[i as int].extensions@[k]@)
                                != lower_of(ext@),
                {
                    assert(lower_of(self.policies@[i as int].extensions@[j as int]@)
                        == self.policies@[i as int].extensions@[j as int]@);
                    if eq_ignore_case(self.policies[i].extensions[j].as_str(), ext) {
                        assert(self.policies@[i as int].extensions@[j as int]@ == lower_of(ext@));
                        return Some(self.policies[i].extensions[j].clone());
                    }
                }
                proof {
                    let p = self.policies@;
                    assert forall|k: int, l: int|
                        is_policy_for(p, k, ns@) && 0 <= l < p[k].extensions@.len() implies (
                    p[k].extensions@[l]@) != lower_of(ext@) by {
                        assert(p[k].name@ == ns@ && p[i as int].name@ == ns@);
                        assert(k == i as int);
                    }
                }
                None
            },
            None => {
                assert(!spec_allowed(self.policies@, ns@, lower_of(ext@))) by {
                    if spec_allowed(self.policies@, ns@, lower_of(ext@)) {
                        let (k, l): (int, int) = choose|k: int, l: int|
                            is_policy_for(self.policies@, k, ns@) && 0 <= l
                                < self.policies@[k].extensions@.len() && (
                            #[trigger] self.policies@[k].extensions@[l]@) == lower_of(ext@);
                        assert(is_policy_for(self.policies@, k, ns@));
                    }
                }
                None
            },
        }
    }

    /// Whether parts arriving under `field_name` belong to the upload stream
    /// of `ns`.
    pub fn field_matches(&self, ns: &str, field_name: &str) -> (r: bool)
        requires
            self.wf(),
        ensures
            r == spec_field_matches(self.policies@, ns@, field_name@),
    {
        match self.find_policy(ns) {
            Some(i) => {
                let r = str_eq(self.policies[i].upload_field.as_str(), field_name);
                proof {
                    if r {
                        assert(is_policy_for(self.policies@, i as int, ns@)
                            && self.policies@[i as int].upload_field@ == field_name@);
                    } else {
                        let p = self.policies@;
                        assert forall|k: int|
                            #[trigger] is_policy_for(p, k, ns@) implies p[k].upload_field@
                            != field_name@ by {
                            assert(p[k].name@ == ns@ && p[i as int].name@ == ns@);
                            assert(k == i as int);
                        }
                    }
                }
                r
            },
            None => {
                proof {
                    if spec_field_matches(self.policies@, ns@, field_name@) {
                        let k = choose|k: int|
                            #[trigger] is_policy_for(self.policies@, k, ns@)
                                && self.policies@[k].upload_field@ == field_name@;
                        assert(is_policy_for(self.policies@, k, ns@));
                    }
                }
                false
            },
        }
    }

    /// Whether `ext`, compared case-insensitively, is accepted by `ns`.
    pub fn allowed(&self, ns: &str, ext: &str) -> (r: bool)
        requires
            self.wf(),
        ensures
            r == spec_allowed(self.policies@, ns@, lower_of(ext@)),
    {
        match self.find_policy(ns) {
            Some(i) => {
                let m = self.policies[i].extensions.len();
                for j in 0..m
                    invariant
                        self.wf(),
                        is_policy_for(self.policies@, i as int, ns@),
                        i < self.policies@.len(),
                        m == self.policies@[i as int].extensions@.len(),
                        forall|k: int|
                            0 <= k < j ==> (#[trigger] self.policies@[i as int].extensions@[k]@)
                                != lower_of(ext@),
                {
                    assert(lower_of(self.policies@[i as int].extensions@[j as int]@)
                        == self.policies@[i as int].extensions@[j as int]@);
                    if eq_ignore_case(self.policies[i].extensions[j].as_str(), ext) {
                        assert(self.policies@[i as int].extensions@[j as int]@ == lower_of(ext@));
                        return true;
                    }
                }
                proof {
                    let p = self.policies@;
                    assert forall|k: int, l: int|
                        is_policy_for(p, k, ns@) && 0 <= l < p[k].extensions@.len() implies (
                    p[k].extensions@[l]@) != lower_of(ext@) by {
                        assert(p[k].name@ == ns@ && p[i as int].name@ == ns@);
                        assert(k == i as int);
                    }
                }
                false
            },
            None => {
                assert(!spec_allowed(self.policies@, ns@, lower_of(ext@))) by {
                    if spec_allowed(self.policies@, ns@, lower_of(ext@)) {
                        let (k, l): (int, int) = choose|k: int, l: int|
                            is_policy_for(self.policies@, k, ns@) && 0 <= l < self.policies@[k].extensions@.len()
                                && (#[trigger] self.policies@[k].extensions@[l]@) == lower_of(ext@);
                        assert(is_policy_for(self.policies@, k, ns@));
                    }
                }
                false
            },
        }
    }

    /// The index of the policy owning `ns`, if any.
    pub fn find_policy(&self, ns: &str) -> (r: Option<usize>)
        ensures
            r matches Some(i) ==> is_policy_for(self.policies@, i as int, ns@),
            r is None ==> !has_namespace(self.policies@, ns@),
    {
        let n = self.policies.len();
        for i in 0..n
            invariant
                n == self.policies@.len(),
                forall|j: int| 0 <= j < i ==> (#[trigger] self.policies@[j].name@) != ns@,
        {
            if str_eq(self.policies[i].name.as_str(), ns) {
                return Some(i);
            }
        }
        proof {
            if has_namespace(self.policies@, ns@) {
                let k = choose|k: int| #[trigger] is_policy_for(self.policies@, k, ns@);
                assert(self.policies@[k].name@ == ns@);
            }
        }
        None
    }
}

} // verus!
