//! The ingestion pipeline: for each part of a multipart upload, field
//! filtering, filename sanitization, extension validation, and collision-safe
//! naming, in arrival order. Rejected parts are skipped silently; the
//! manifest reports exactly what was kept.

use vstd::prelude::*;
use crate::filename::{basename_of, ext_of, extension_of, is_separator, sanitize_filename};
use crate::listing::visible;
use crate::naming::{fresh_token, is_token, make_stored_name, stored_name_of};
use crate::policy::{spec_allowed, spec_field_matches, GalleryConfig, NamespacePolicy};
use crate::text::{lemma_lower_char_special, lemma_lower_idempotent, lower_of};

verus! {

/// One named part of a multipart upload: the form field it arrived under,
/// the client-supplied filename (untrusted), and its payload.
pub struct UploadPart {
    pub field_name: String,
    pub file_name: Option<String>,
    pub data: Vec<u8>,
}

/// The mathematical shape of an upload part.
pub ghost struct UploadPartView {
    pub field_name: Seq<char>,
    pub file_name: Option<Seq<char>>,
    pub data: Seq<u8>,
}

impl View for UploadPart {
    type V = UploadPartView;

    open spec fn view(&self) -> UploadPartView {
        UploadPartView {
            field_name: self.field_name@,
            file_name: match self.file_name {
                Some(f) => Some(f@),
                None => None,
            },
            data: self.data@,
        }
    }
}

/// The views of a whole sequence of parts.
pub open spec fn views_of(parts: Seq<UploadPart>) -> Seq<UploadPartView> {
    parts.map_values(|p: UploadPart| p@)
}

/// The base name the pipeline works with: the client filename reduced to a
/// base name, or a placeholder when none was supplied.
pub open spec fn display_name_of(p: UploadPartView) -> Seq<char> {
    match p.file_name {
        Some(f) => basename_of(f),
        None => "unnamed"@,
    }
}

/// The part passes both the field filter and the extension check of `ns`.
pub open spec fn part_accepted(
    policies: Seq<NamespacePolicy>,
    ns: Seq<char>,
    p: UploadPartView,
) -> bool {
    &&& spec_field_matches(policies, ns, p.field_name)
    &&& match ext_of(display_name_of(p)) {
        Some(e) => spec_allowed(policies, ns, lower_of(e)),
        None => false,
    }
}

/// The acceptance test as a function value, for `Seq::filter`.
pub open spec fn accepted_filter(policies: Seq<NamespacePolicy>, ns: Seq<char>) -> spec_fn(
    UploadPartView,
) -> bool {
    |p: UploadPartView| part_accepted(policies, ns, p)
}

/// The validated, case-folded extension of an accepted part.
pub open spec fn accepted_ext(p: UploadPartView) -> Seq<char> {
    lower_of(ext_of(display_name_of(p))->Some_0)
}

/// `name` is a storage name for part `p`: a fresh 36-character token, a
/// dot, and the part's validated extension.
pub open spec fn names_part(name: Seq<char>, p: UploadPartView) -> bool {
    exists|t: Seq<char>| is_token(t) && name == #[trigger] stored_name_of(t, accepted_ext(p))
}

/// One pending write: the generated storage name and the payload to put
/// under it. The caller performs the write (to a temporary name in the same
/// directory, renamed into place) and aborts the request on failure.
pub struct StoreAction {
    pub name: String,
    pub data: Vec<u8>,
}

/// What an upload call reports back: the generated names of the parts that
/// were stored, and how many there were.
pub struct Manifest {
    pub stored: Vec<String>,
    pub count: usize,
}

/// The full outcome of planning one upload: the manifest and the writes
/// that realize it.
pub struct IngestOutcome {
    pub manifest: Manifest,
    pub actions: Vec<StoreAction>,
}

/// A terminal fault of the whole request, as opposed to a per-part
/// rejection: either the multipart stream itself is unusable, or the
/// storage substrate is.
pub enum IngestFault {
    Protocol(String),
    Storage(String),
}

impl IngestFault {
    /// The HTTP status a fault maps to: a protocol fault is the client's
    /// request, a storage fault is the server's disk.
    pub fn status_code(&self) -> (r: u16)
        ensures
            self is Protocol ==> r == 400,
            self is Storage ==> r == 500,
    {
        match self {
            IngestFault::Protocol(_) => 400,
            IngestFault::Storage(_) => 500,
        }
    }

    /// The human-readable description carried by the fault.
    pub fn message(&self) -> (r: &String)
        ensures
            self matches IngestFault::Protocol(m) ==> r@ == m@,
            self matches IngestFault::Storage(m) ==> r@ == m@,
    {
        match self {
            IngestFault::Protocol(m) => m,
            IngestFault::Storage(m) => m,
        }
    }
}

/// A part whose extension the namespace does not allow — or that has no
/// usable extension at all — is never accepted, so it reaches neither the
/// manifest nor the stored directory, whatever its field name.
pub proof fn lemma_disallowed_part_rejected(
    policies: Seq<NamespacePolicy>,
    ns: Seq<char>,
    p: UploadPartView,
)
    requires
        match ext_of(display_name_of(p)) {
            Some(e) => !spec_allowed(policies, ns, lower_of(e)),
            None => true,
        },
    ensures
        !part_accepted(policies, ns, p),
{
}

/// Everything in the accepted stream really passed the checks: the manifest
/// never smuggles in a rejected part.
pub proof fn lemma_accepted_stream_sound(
    policies: Seq<NamespacePolicy>,
    ns: Seq<char>,
    parts: Seq<UploadPartView>,
    i: int,
)
    requires
        0 <= i < parts.filter(accepted_filter(policies, ns)).len(),
    ensures
        part_accepted(policies, ns, parts.filter(accepted_filter(policies, ns))[i]),
{
    parts.lemma_filter_pred(accepted_filter(policies, ns), i);
}

/// Runs one part through the pipeline: `None` when the part is skipped
/// (wrong field, no usable extension, or a disallowed one), otherwise the
/// write that stores it under a fresh collision-safe name.
fn process_part(cfg: &GalleryConfig, ns: &str, part: UploadPart) -> (r: Option<StoreAction>)
    requires
        cfg.wf(),
    ensures
        (r is Some) == part_accepted(cfg.policies@, ns@, part@),
        r matches Some(a) ==> a.data@ == part@.data && names_part(a.name@, part@) && visible(
            cfg.policies@,
            ns@,
            a.name@,
        ) && (forall|i: int| 0 <= i < a.name@.len() ==> !is_separator(#[trigger] a.name@[i])),
{
    if !cfg.field_matches(ns, part.field_name.as_str()) {
        return None;
    }
    let disp: String = match &part.file_name {
        Some(f) => sanitize_filename(f.as_str()),
        None => "unnamed".to_owned(),
    };
    proof {
        reveal_strlit("unnamed");
        assert(disp@ == display_name_of(part@));
        assert(forall|i: int| 0 <= i < disp@.len() ==> !is_separator(#[trigger] disp@[i]));
    }
    let ext_raw = match extension_of(disp.as_str()) {
        Some(e) => e,
        None => {
            return None;
        },
    };
    let ext = match cfg.matching_extension(ns, ext_raw.as_str()) {
        Some(e) => e,
        None => {
            return None;
        },
    };
    let token = fresh_token();
    let ghost tv = token@;
    let name = make_stored_name(token, ext.as_str());
    proof {
        crate::filename::lemma_ext_no_dot(disp@);
        crate::filename::lemma_ext_no_separator(disp@);
        assert forall|i: int| 0 <= i < ext@.len() implies (#[trigger] ext@[i]) != '.'
            && !is_separator(ext@[i]) by {
            assert(ext_raw@ == ext_of(disp@)->Some_0);
            assert(ext_of(disp@)->Some_0[i] != '.');
            assert(!is_separator(ext_of(disp@)->Some_0[i]));
            assert(ext@[i] == crate::text::lower_char(ext_raw@[i]));
            lemma_lower_char_special(ext_raw@[i]);
        }
        crate::naming::lemma_stored_name_parts(tv, ext@);
        lemma_lower_idempotent(ext_raw@);
        assert(part_accepted(cfg.policies@, ns@, part@));
        assert(accepted_ext(part@) == ext@);
        assert(name@ == stored_name_of(tv, accepted_ext(part@)));
        assert(names_part(name@, part@));
    }
    Some(StoreAction { name, data: part.data })
}

/// Plans one upload request: runs every part through the pipeline in
/// arrival order. The manifest names exactly the accepted parts, in order;
/// each gets a distinct-token storage name that the namespace's own listing
/// will show; rejected parts are left out without failing the request.
pub fn ingest(cfg: &GalleryConfig, ns: &str, parts: Vec<UploadPart>) -> (r: IngestOutcome)
    requires
        cfg.wf(),
    ensures
        ({
            let acc = views_of(parts@).filter(accepted_filter(cfg.policies@, ns@));
            &&& r.actions@.len() == acc.len()
            &&& r.manifest.stored@.len() == acc.len()
            &&& r.manifest.count == acc.len()
            &&& forall|i: int|
                0 <= i < acc.len() ==> (#[trigger] r.manifest.stored@[i])@ == r.actions@[i].name@
            &&& forall|i: int| 0 <= i < acc.len() ==> (#[trigger] r.actions@[i]).data@ == acc[i].data
            &&& forall|i: int|
                0 <= i < acc.len() ==> names_part((#[trigger] r.actions@[i]).name@, acc[i])
            &&& forall|i: int|
                0 <= i < acc.len() ==> visible(cfg.policies@, ns@, (#[trigger] r.actions@[i]).name@)
            &&& forall|i: int, k: int|
                0 <= i < acc.len() && 0 <= k < r.actions@[i].name@.len() ==> !is_separator(
                    #[trigger] r.actions@[i].name@[k],
                )
        }),
{
    let ghost all = views_of(parts@);
    let mut rest = parts;
    let ghost pred = accepted_filter(cfg.policies@, ns@);
    let mut actions: Vec<StoreAction> = Vec::new();
    let mut stored: Vec<String> = Vec::new();
    let ghost mut i: int = 0;
    proof {
        reveal(Seq::filter);
        assert(all.subrange(0, 0) =~= Seq::<UploadPartView>::empty());
        assert(actions@ =~= Seq::<StoreAction>::empty());
    }
    while rest.len() > 0
        invariant
            cfg.wf(),
            0 <= i <= all.len(),
            rest@.len() == all.len() - i,
            forall|j: int| 0 <= j < rest@.len() ==> (#[trigger] rest@[j])@ == all[i + j],
            pred == accepted_filter(cfg.policies@, ns@),
            actions@.len() == all.subrange(0, i).filter(pred).len(),
            stored@.len() == actions@.len(),
            forall|k: int|
                0 <= k < actions@.len() ==> (#[trigger] stored@[k])@ == actions@[k].name@,
            forall|k: int|
                0 <= k < actions@.len() ==> (#[trigger] actions@[k]).data@ == all.subrange(
                    0,
                    i,
                ).filter(pred)[k].data,
            forall|k: int|
                0 <= k < actions@.len() ==> names_part(
                    (#[trigger] actions@[k]).name@,
                    all.subrange(0, i).filter(pred)[k],
                ),
            forall|k: int|
                0 <= k < actions@.len() ==> visible(
                    cfg.policies@,
                    ns@,
                    (#[trigger] actions@[k]).name@,
                ),
            forall|k: int, l: int|
                0 <= k < actions@.len() && 0 <= l < actions@[k].name@.len() ==> !is_separator(
                    #[trigger] actions@[k].name@[l],
                ),
        decreases rest@.len(),
    {
        let ghost prefix = all.subrange(0, i);
        let part = rest.remove(0);
        proof {
            assert(part@ == all[i]);
        }
        match process_part(cfg, ns, part) {
            Some(a) => {
                stored.push(a.name.clone());
                actions.push(a);
            },
            None => {},
        }
        proof {
            prefix.lemma_filter_push(all[i], pred);
            assert(all.subrange(0, i + 1) =~= prefix.push(all[i]));
            i = i + 1;
        }
    }
    proof {
        assert(i == all.len());
        assert(all.subrange(0, all.len() as int) =~= all);
    }
    let count = actions.len();
    IngestOutcome { manifest: Manifest { stored, count }, actions }
}

} // verus!
