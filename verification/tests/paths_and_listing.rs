use filejail::controller::{browse_dispatch, interface_hidden, scheme_label, BrowseAction, FsKind};
use filejail::errors::AppError;
use filejail::listing::{sort_entries, DirEntry};
use filejail::listing::{parent_link, render_rel_path, url_for_entry};
use filejail::paths::{is_contained, join_under_root, parse_request_path, resolve_decision, CanonOutcome};

fn segs(parts: &[&str]) -> Vec<Vec<u8>> {
    parts.iter().map(|p| p.as_bytes().to_vec()).collect()
}

#[test]
fn cleaning_collapses_dot_segments() {
    assert_eq!(parse_request_path(b"a/./b//c"), segs(&["a", "b", "c"]));
    assert_eq!(parse_request_path(b"a/../b"), segs(&["b"]));
    assert_eq!(parse_request_path(b".."), segs(&[".."]));
    assert_eq!(parse_request_path(b"../../etc"), segs(&["..", "..", "etc"]));
    assert_eq!(parse_request_path(b"a/b/../../c/"), segs(&["c"]));
    assert_eq!(parse_request_path(b"a/b/../../.."), segs(&[".."]));
    assert_eq!(parse_request_path(b"./."), segs(&[]));
}

#[test]
fn empty_path_resolves_to_root() {
    let root = segs(&["srv", "data"]);
    assert_eq!(parse_request_path(b""), segs(&[]));
    assert_eq!(parse_request_path(b"/"), segs(&[]));
    let candidate = join_under_root(&root, &parse_request_path(b""));
    assert_eq!(candidate, root);
    let resolved = resolve_decision(&root, CanonOutcome::Resolved(candidate));
    assert_eq!(resolved.unwrap(), root);
}

#[test]
fn traversal_outside_root_forbidden() {
    let root = segs(&["srv", "data"]);
    let outside = resolve_decision(&root, CanonOutcome::Resolved(segs(&["etc"])));
    assert_eq!(outside.unwrap_err(), AppError::Forbidden);
    let inside = resolve_decision(&root, CanonOutcome::Resolved(segs(&["srv", "data", "x"])));
    assert_eq!(inside.unwrap(), segs(&["srv", "data", "x"]));
    let itself = resolve_decision(&root, CanonOutcome::Resolved(segs(&["srv", "data"])));
    assert_eq!(itself.unwrap(), segs(&["srv", "data"]));
}

#[test]
fn sibling_prefix_not_mistaken_for_root() {
    let root = segs(&["srv", "data"]);
    assert!(!is_contained(&root, &segs(&["srv", "data-evil"])));
    let r = resolve_decision(&root, CanonOutcome::Resolved(segs(&["srv", "data-evil", "f"])));
    assert_eq!(r.unwrap_err(), AppError::Forbidden);
}

#[test]
fn canonical_escape_rejected_wherever_it_came_from() {
    // A symlink inside the root pointing outside it canonicalizes to a path
    // outside the root; the containment gate sees only the canonical path
    // and must refuse it although the requested path looked harmless.
    let root = segs(&["srv", "data"]);
    let canonical_of_symlink = segs(&["home", "user", "secret"]);
    let r = resolve_decision(&root, CanonOutcome::Resolved(canonical_of_symlink));
    assert_eq!(r.unwrap_err(), AppError::Forbidden);
    assert_eq!(AppError::Forbidden.browse_status(), 403);
}

#[test]
fn missing_path_redirects_to_root() {
    let root = segs(&["srv", "data"]);
    let r = resolve_decision(&root, CanonOutcome::Missing);
    let err = r.unwrap_err();
    assert_eq!(err, AppError::NotFound);
    assert_eq!(err.browse_status(), 303);
}

#[test]
fn denied_canonicalization_is_server_error() {
    let root = segs(&["srv", "data"]);
    let r = resolve_decision(&root, CanonOutcome::Denied);
    let err = r.unwrap_err();
    assert_eq!(err, AppError::ServerError);
    assert_eq!(err.browse_status(), 500);
}

#[test]
fn listing_order_dirs_first_case_insensitive() {
    let entries = vec![
        DirEntry { name: b"b.txt".to_vec(), is_dir: false },
        DirEntry { name: b"A".to_vec(), is_dir: true },
        DirEntry { name: b"a.txt".to_vec(), is_dir: false },
    ];
    let sorted = sort_entries(entries);
    let names: Vec<Vec<u8>> = sorted.iter().map(|e| e.name.clone()).collect();
    assert_eq!(names, segs(&["A", "a.txt", "b.txt"]));
    assert!(sorted[0].is_dir);
    assert!(!sorted[1].is_dir);
    assert!(!sorted[2].is_dir);
}

#[test]
fn listing_order_mixed_groups() {
    let entries = vec![
        DirEntry { name: b"zeta".to_vec(), is_dir: false },
        DirEntry { name: b"Beta".to_vec(), is_dir: false },
        DirEntry { name: b"omega".to_vec(), is_dir: true },
        DirEntry { name: b"Alpha".to_vec(), is_dir: true },
    ];
    let sorted = sort_entries(entries);
    let names: Vec<Vec<u8>> = sorted.iter().map(|e| e.name.clone()).collect();
    assert_eq!(names, segs(&["Alpha", "omega", "Beta", "zeta"]));
}

#[test]
fn entry_urls_use_forward_slashes() {
    assert_eq!(url_for_entry(&segs(&[]), b"x.txt"), b"/x.txt".to_vec());
    assert_eq!(url_for_entry(&segs(&["docs"]), b"x.txt"), b"/docs/x.txt".to_vec());
    assert_eq!(
        url_for_entry(&segs(&["a", "b"]), b"c.bin"),
        b"/a/b/c.bin".to_vec()
    );
}

#[test]
fn parent_links() {
    assert_eq!(parent_link(&segs(&[])), None);
    assert_eq!(parent_link(&segs(&["a"])), Some(b"/".to_vec()));
    assert_eq!(parent_link(&segs(&["a", "b"])), Some(b"/a".to_vec()));
    assert_eq!(parent_link(&segs(&["a", "b", "c"])), Some(b"/a/b".to_vec()));
}

#[test]
fn rendered_paths() {
    assert_eq!(render_rel_path(&segs(&[])), b"".to_vec());
    assert_eq!(render_rel_path(&segs(&["a"])), b"a".to_vec());
    assert_eq!(render_rel_path(&segs(&["a", "b"])), b"a/b".to_vec());
}

#[test]
fn browse_dispatch_on_kind() {
    assert!(matches!(browse_dispatch(FsKind::File), BrowseAction::ServeFile));
    assert!(matches!(browse_dispatch(FsKind::Dir), BrowseAction::ListDir));
    assert!(matches!(browse_dispatch(FsKind::Other), BrowseAction::MissingKind));
}

#[test]
fn hidden_interfaces() {
    assert!(interface_hidden(b"lo"));
    assert!(interface_hidden(b"lo0"));
    assert!(interface_hidden(b"docker0"));
    assert!(interface_hidden(b"VETH12ab"));
    assert!(interface_hidden(b"vmnet8"));
    assert!(interface_hidden(b"virbr0"));
    assert!(!interface_hidden(b"eth0"));
    assert!(!interface_hidden(b"tun0"));
    assert!(!interface_hidden(b"lo1"));
}

#[test]
fn scheme_labels() {
    assert_eq!(scheme_label(true), b"https".to_vec());
    assert_eq!(scheme_label(false), b"http".to_vec());
}
