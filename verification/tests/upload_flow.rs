use filejail::errors::AppError;
use filejail::paths::{join_under_root, parse_request_path, resolve_decision, CanonOutcome};
use filejail::upload::{
    choose_filename, gen_filename, require_directory, upload_verdict, StreamEnd, UploadFinish,
    UploadIngestor, FLUSH_THRESHOLD,
};

fn segs(parts: &[&str]) -> Vec<Vec<u8>> {
    parts.iter().map(|p| p.as_bytes().to_vec()).collect()
}

#[test]
fn plain_filename_header_kept() {
    let plain = b"report.csv".to_vec();
    let name = choose_filename(None, Some(&plain), 0).unwrap();
    assert_eq!(name, b"report.csv".to_vec());
}

#[test]
fn empty_plain_filename_rejected() {
    let plain = Vec::new();
    let r = choose_filename(None, Some(&plain), 0);
    assert_eq!(r.unwrap_err(), AppError::BadRequest);
}

#[test]
fn base64_filename_header_wins() {
    // "report.csv" in standard base64.
    let b64 = b"cmVwb3J0LmNzdg==".to_vec();
    let plain = b"other.bin".to_vec();
    let name = choose_filename(Some(&b64), Some(&plain), 0).unwrap();
    assert_eq!(name, b"report.csv".to_vec());
}

#[test]
fn malformed_base64_filename_rejected() {
    let b64 = b"%%%not-base64%%%".to_vec();
    let r = choose_filename(Some(&b64), None, 0);
    let err = r.unwrap_err();
    assert_eq!(err, AppError::BadRequest);
    assert_eq!(err.upload_status(), 400);
}

#[test]
fn base64_of_invalid_utf8_rejected() {
    // "/w==" decodes to the single byte 0xFF, not valid UTF-8.
    let b64 = b"/w==".to_vec();
    let r = choose_filename(Some(&b64), None, 0);
    assert_eq!(r.unwrap_err(), AppError::BadRequest);
}

#[test]
fn filename_sanitization_strips_separators() {
    let plain = b"../../evil".to_vec();
    let name = choose_filename(None, Some(&plain), 0).unwrap();
    assert_eq!(name, b"....evil".to_vec());
    let nested = b"a/b.txt".to_vec();
    let name2 = choose_filename(None, Some(&nested), 0).unwrap();
    assert_eq!(name2, b"ab.txt".to_vec());
    let dots = b"..".to_vec();
    let name3 = choose_filename(None, Some(&dots), 0).unwrap();
    assert_eq!(name3, Vec::<u8>::new());
}

#[test]
fn generated_names() {
    assert_eq!(gen_filename(0), b"upload_0.bin".to_vec());
    assert_eq!(gen_filename(1234567890123), b"upload_1234567890123.bin".to_vec());
    assert_eq!(gen_filename(-5), b"upload_-5.bin".to_vec());
    let plain_absent = choose_filename(None, None, 1700000000000).unwrap();
    assert_eq!(plain_absent, b"upload_1700000000000.bin".to_vec());
}

#[test]
fn upload_target_traversal_forbidden() {
    let root = segs(&["srv", "data"]);
    let requested = parse_request_path(b"../../etc");
    assert_eq!(requested, segs(&["..", "..", "etc"]));
    let candidate = join_under_root(&root, &requested);
    assert_eq!(candidate, segs(&["srv", "data", "..", "..", "etc"]));
    // The filesystem canonicalizes the candidate to /etc, outside the root:
    // the upload is refused with 403 before any file is created.
    let r = resolve_decision(&root, CanonOutcome::Resolved(segs(&["etc"])));
    let err = r.unwrap_err();
    assert_eq!(err, AppError::Forbidden);
    assert_eq!(err.upload_status(), 403);
}

#[test]
fn missing_upload_target_rejected() {
    let root = segs(&["srv", "data"]);
    let r = resolve_decision(&root, CanonOutcome::Missing);
    let err = r.unwrap_err();
    assert_eq!(err.upload_status(), 400);
}

#[test]
fn non_directory_target_rejected() {
    assert!(require_directory(true).is_ok());
    let err = require_directory(false).unwrap_err();
    assert_eq!(err, AppError::BadRequest);
    assert_eq!(err.upload_status(), 400);
}

#[test]
fn upload_nonempty_commits_exact_bytes() {
    let mut ing = UploadIngestor::new();
    let mut written: Vec<u8> = Vec::new();
    if let Some(w) = ing.push_chunk(b"hello ") {
        written.extend_from_slice(&w);
    }
    if let Some(w) = ing.push_chunk(b"world") {
        written.extend_from_slice(&w);
    }
    match ing.finish() {
        UploadFinish::Commit(tail) => {
            written.extend_from_slice(&tail);
            assert_eq!(written, b"hello world".to_vec());
        }
        UploadFinish::RejectEmpty => panic!("nonempty upload was rejected"),
    }
    let verdict = upload_verdict(StreamEnd::Completed, false);
    assert_eq!(verdict.status, 200);
    assert!(!verdict.delete_file);
}

#[test]
fn large_upload_flushes_in_bounded_pieces() {
    let mut ing = UploadIngestor::new();
    let chunk = vec![7u8; FLUSH_THRESHOLD];
    let flushed = ing.push_chunk(&chunk);
    let w = flushed.expect("a threshold-sized chunk must be handed out");
    assert_eq!(w.len(), FLUSH_THRESHOLD);
    assert!(w.iter().all(|b| *b == 7));
    let small = ing.push_chunk(b"xy");
    assert!(small.is_none());
    match ing.finish() {
        UploadFinish::Commit(tail) => assert_eq!(tail, b"xy".to_vec()),
        UploadFinish::RejectEmpty => panic!("nonempty upload was rejected"),
    }
}

#[test]
fn upload_empty_rejected_and_file_deleted() {
    let ing = UploadIngestor::new();
    match ing.finish() {
        UploadFinish::Commit(_) => panic!("empty upload was committed"),
        UploadFinish::RejectEmpty => {}
    }
    let verdict = upload_verdict(StreamEnd::Completed, true);
    assert_eq!(verdict.status, 400);
    assert!(verdict.delete_file);
}

#[test]
fn midstream_failure_deletes_partial_file() {
    let mut ing = UploadIngestor::new();
    let _ = ing.push_chunk(b"partial bytes already on their way");
    let verdict = upload_verdict(StreamEnd::ClientAbort, false);
    assert_eq!(verdict.status, 400);
    assert!(verdict.delete_file);
    let write_fail = upload_verdict(StreamEnd::WriteFail, false);
    assert_eq!(write_fail.status, 500);
    assert!(write_fail.delete_file);
    let flush_fail = upload_verdict(StreamEnd::FlushFail, false);
    assert_eq!(flush_fail.status, 500);
    assert!(flush_fail.delete_file);
}
