use gallery_core::filename::{extension_of, sanitize_filename};
use gallery_core::ingest::{ingest, IngestFault, UploadPart};
use gallery_core::listing::list_entries;
use gallery_core::policy::{GalleryConfig, NamespacePolicy};

fn strings(items: &[&str]) -> Vec<String> {
    items.iter().map(|s| s.to_string()).collect()
}

fn demo_config() -> GalleryConfig {
    let mut cfg = GalleryConfig::new();
    let corsono = NamespacePolicy::new(
        "corsono".to_string(),
        "photos".to_string(),
        strings(&["jpg", "jpeg", "png", "webp"]),
    )
    .expect("lower-case extensions");
    let art = NamespacePolicy::new(
        "art".to_string(),
        "artwork".to_string(),
        strings(&["jpg", "jpeg", "png", "webp", "gif", "mp4", "mov"]),
    )
    .expect("lower-case extensions");
    assert!(cfg.add(corsono));
    assert!(cfg.add(art));
    cfg
}

fn part(field: &str, name: Option<&str>, data: &[u8]) -> UploadPart {
    UploadPart {
        field_name: field.to_string(),
        file_name: name.map(|s| s.to_string()),
        data: data.to_vec(),
    }
}

#[test]
fn policy_rejects_uppercase_extension_list() {
    assert!(NamespacePolicy::new(
        "x".to_string(),
        "f".to_string(),
        strings(&["jpg", "PNG"]),
    )
    .is_none());
}

#[test]
fn policy_allows_known_extension_case_insensitively() {
    let cfg = demo_config();
    assert!(cfg.allowed("corsono", "jpg"));
    assert!(cfg.allowed("corsono", "JPG"));
    assert!(cfg.allowed("corsono", "JpG"));
    assert!(cfg.allowed("art", "mov"));
}

#[test]
fn policy_fails_closed() {
    let cfg = demo_config();
    assert!(!cfg.allowed("corsono", "gif"));
    assert!(!cfg.allowed("corsono", "txt"));
    assert!(!cfg.allowed("nowhere", "jpg"));
    assert!(!cfg.allowed("", "jpg"));
}

#[test]
fn policy_refuses_duplicate_namespace() {
    let mut cfg = demo_config();
    let dup = NamespacePolicy::new(
        "corsono".to_string(),
        "other".to_string(),
        strings(&["png"]),
    )
    .unwrap();
    assert!(!cfg.add(dup));
}

#[test]
fn sanitize_strips_traversal() {
    assert_eq!(sanitize_filename("../../etc/passwd"), "passwd");
    assert_eq!(sanitize_filename("a/b/c.png"), "c.png");
    assert_eq!(sanitize_filename("a\\b\\c.png"), "c.png");
    assert_eq!(sanitize_filename("plain.jpg"), "plain.jpg");
    assert_eq!(sanitize_filename("trailing/"), "");
}

#[test]
fn extension_rules() {
    assert_eq!(extension_of("photo.PNG"), Some("PNG".to_string()));
    assert_eq!(extension_of("archive.tar.gz"), Some("gz".to_string()));
    assert_eq!(extension_of("dot."), Some("".to_string()));
    assert_eq!(extension_of("passwd"), None);
    assert_eq!(extension_of(".bashrc"), None);
    assert_eq!(extension_of(""), None);
}

fn is_uuid_shaped(s: &str) -> bool {
    s.len() == 36
        && s
            .chars()
            .all(|c| c.is_ascii_hexdigit() && !c.is_ascii_uppercase() || c == '-')
}

#[test]
fn upload_partial_success_manifest() {
    // Three parts, one with a disallowed extension: the manifest reports
    // exactly the two accepted ones, and a listing of the resulting
    // directory shows both.
    let cfg = demo_config();
    let parts = vec![
        part("photos", Some("a.jpg"), b"one"),
        part("photos", Some("b.png"), b"two"),
        part("photos", Some("c.txt"), b"three"),
    ];
    let outcome = ingest(&cfg, "corsono", parts);
    assert_eq!(outcome.manifest.count, 2);
    assert_eq!(outcome.manifest.stored.len(), 2);
    assert_eq!(outcome.actions.len(), 2);
    assert!(outcome.manifest.stored[0].ends_with(".jpg"));
    assert!(outcome.manifest.stored[1].ends_with(".png"));
    assert_eq!(outcome.actions[0].data, b"one");
    assert_eq!(outcome.actions[1].data, b"two");

    let listed = list_entries(&cfg, "corsono", Some(outcome.manifest.stored.clone()));
    assert_eq!(listed.len(), 2);
    for name in &outcome.manifest.stored {
        assert!(listed.iter().any(|e| &e.name == name));
    }
}

#[test]
fn upload_identical_names_never_collide() {
    let cfg = demo_config();
    let parts = vec![
        part("photos", Some("same.jpg"), b"first"),
        part("photos", Some("same.jpg"), b"second"),
    ];
    let outcome = ingest(&cfg, "corsono", parts);
    assert_eq!(outcome.manifest.count, 2);
    assert_ne!(outcome.manifest.stored[0], outcome.manifest.stored[1]);

    // Across repeated requests as well.
    let again = ingest(
        &cfg,
        "corsono",
        vec![part("photos", Some("same.jpg"), b"third")],
    );
    assert_eq!(again.manifest.count, 1);
    assert_ne!(again.manifest.stored[0], outcome.manifest.stored[0]);
    assert_ne!(again.manifest.stored[0], outcome.manifest.stored[1]);
}

#[test]
fn upload_generates_token_dot_extension_names() {
    let cfg = demo_config();
    let outcome = ingest(
        &cfg,
        "corsono",
        vec![part("photos", Some("IMG.JPG"), b"x")],
    );
    assert_eq!(outcome.manifest.count, 1);
    let name = &outcome.manifest.stored[0];
    // Case-folded extension, uuid-shaped stem, no separators.
    assert!(name.ends_with(".jpg"));
    assert_eq!(name.len(), 40);
    assert!(is_uuid_shaped(&name[..36]));
    assert!(!name.contains('/') && !name.contains('\\'));
}

#[test]
fn upload_sanitizes_traversal_names() {
    let cfg = demo_config();
    // "../../etc/passwd" reduces to "passwd", which has no extension: skipped.
    let gone = ingest(
        &cfg,
        "corsono",
        vec![part("photos", Some("../../etc/passwd"), b"boom")],
    );
    assert_eq!(gone.manifest.count, 0);
    // "a/b/c.png" reduces to "c.png": accepted, stored under a fresh name.
    let kept = ingest(
        &cfg,
        "corsono",
        vec![part("photos", Some("a/b/c.png"), b"pix")],
    );
    assert_eq!(kept.manifest.count, 1);
    assert!(kept.manifest.stored[0].ends_with(".png"));
    assert!(!kept.manifest.stored[0].contains('/'));
}

#[test]
fn upload_skips_foreign_fields_and_missing_names() {
    let cfg = demo_config();
    let outcome = ingest(
        &cfg,
        "corsono",
        vec![
            part("avatar", Some("a.jpg"), b"wrong field"),
            part("artwork", Some("b.jpg"), b"other namespace's field"),
            part("photos", None, b"no filename"),
            part("photos", Some("ok.webp"), b"kept"),
        ],
    );
    assert_eq!(outcome.manifest.count, 1);
    assert!(outcome.manifest.stored[0].ends_with(".webp"));
}

#[test]
fn upload_with_no_parts_reports_zero() {
    let cfg = demo_config();
    let outcome = ingest(&cfg, "corsono", Vec::new());
    assert_eq!(outcome.manifest.count, 0);
    assert!(outcome.manifest.stored.is_empty());
    assert!(outcome.actions.is_empty());
}

#[test]
fn upload_to_unknown_namespace_stores_nothing() {
    let cfg = demo_config();
    let outcome = ingest(
        &cfg,
        "nowhere",
        vec![part("photos", Some("a.jpg"), b"x")],
    );
    assert_eq!(outcome.manifest.count, 0);
    assert!(outcome.manifest.stored.is_empty());
    assert!(outcome.actions.is_empty());
}

#[test]
fn namespace_extension_sets_differ() {
    let cfg = demo_config();
    let gif = vec![part("photos", Some("anim.gif"), b"x")];
    assert_eq!(ingest(&cfg, "corsono", gif).manifest.count, 0);
    let gif_art = vec![part("artwork", Some("anim.gif"), b"x")];
    assert_eq!(ingest(&cfg, "art", gif_art).manifest.count, 1);
}

#[test]
fn listing_missing_directory_is_empty() {
    let cfg = demo_config();
    let listed = list_entries(&cfg, "corsono", None);
    assert!(listed.is_empty());
}

#[test]
fn listing_sorts_ascending_by_name() {
    let cfg = demo_config();
    let dir = strings(&["b.jpg", "a.jpg", "c.png"]);
    let listed = list_entries(&cfg, "corsono", Some(dir));
    let names: Vec<&str> = listed.iter().map(|e| e.name.as_str()).collect();
    assert_eq!(names, vec!["a.jpg", "b.jpg", "c.png"]);
    assert_eq!(listed[0].url, "/images/corsono/a.jpg");
    assert_eq!(listed[1].url, "/images/corsono/b.jpg");
    assert_eq!(listed[2].url, "/images/corsono/c.png");
}

#[test]
fn listing_is_deterministic_across_calls_and_scan_orders() {
    let cfg = demo_config();
    let dir = strings(&["zz.png", "a.jpg", "mm.webp", "b.jpg"]);
    let first = list_entries(&cfg, "corsono", Some(dir.clone()));
    let second = list_entries(&cfg, "corsono", Some(dir));
    let shuffled = strings(&["b.jpg", "mm.webp", "zz.png", "a.jpg"]);
    let third = list_entries(&cfg, "corsono", Some(shuffled));
    let names = |v: &Vec<gallery_core::listing::GalleryEntry>| -> Vec<String> {
        v.iter().map(|e| e.name.clone()).collect::<Vec<_>>()
    };
    assert_eq!(names(&first), names(&second));
    assert_eq!(names(&first), names(&third));
    assert_eq!(
        names(&first),
        vec!["a.jpg", "b.jpg", "mm.webp", "zz.png"]
    );
}

#[test]
fn listing_hides_disallowed_extensions() {
    // A file placed in the directory by hand, with an extension the
    // namespace does not allow, never appears.
    let cfg = demo_config();
    let dir = strings(&["notes.txt", "y.jpg", "clip.mov", "noext"]);
    let listed = list_entries(&cfg, "corsono", Some(dir));
    assert_eq!(listed.len(), 1);
    assert_eq!(listed[0].name, "y.jpg");
}

#[test]
fn listing_folds_case_of_directory_entries() {
    let cfg = demo_config();
    let dir = strings(&["A.JPG", "b.jpg"]);
    let listed = list_entries(&cfg, "corsono", Some(dir));
    assert_eq!(listed.len(), 2);
    assert_eq!(listed[0].name, "A.JPG");
    assert_eq!(listed[0].url, "/images/corsono/A.JPG");
}

#[test]
fn fault_status_codes() {
    let p = IngestFault::Protocol("bad multipart".to_string());
    let s = IngestFault::Storage("disk full".to_string());
    assert_eq!(p.status_code(), 400);
    assert_eq!(s.status_code(), 500);
    assert_eq!(p.message().as_str(), "bad multipart");
    assert_eq!(s.message().as_str(), "disk full");
}
