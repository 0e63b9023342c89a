use godot_dl::download::{filename_of, require_content_length, DownloadError, DownloadSession};

#[test]
fn a_missing_content_length_is_rejected() {
    assert_eq!(require_content_length(Some(1024)), Ok(1024));
    assert_eq!(require_content_length(None), Err(DownloadError::NoContentLength));
}

#[test]
fn filename_is_the_final_path_segment() {
    assert_eq!(
        filename_of("https://host/godotengine/4.2/godot-4.2.1-stable.zip").unwrap(),
        "godot-4.2.1-stable.zip"
    );
    assert_eq!(filename_of("file.zip").unwrap(), "file.zip");
}

#[test]
fn url_without_final_segment_is_a_bad_url() {
    assert_eq!(filename_of("https://host/godotengine/"), Err(DownloadError::BadUrl));
    assert_eq!(filename_of(""), Err(DownloadError::BadUrl));
}

#[test]
fn a_fresh_session_has_written_nothing() {
    let s = DownloadSession::new(1000);
    assert_eq!(s.total, 1000);
    assert_eq!(s.written, 0);
    assert!(!s.is_complete());
}

#[test]
fn chunks_summing_to_the_total_reach_it_exactly() {
    let mut s = DownloadSession::new(100);
    s.apply_chunk(30);
    assert_eq!(s.written, 30);
    s.apply_chunk(30);
    assert_eq!(s.written, 60);
    s.apply_chunk(40);
    assert_eq!(s.written, 100);
    assert!(s.is_complete());
}

#[test]
fn progress_never_exceeds_the_declared_total() {
    let mut s = DownloadSession::new(100);
    s.apply_chunk(90);
    s.apply_chunk(90);
    assert_eq!(s.written, 100);
    s.apply_chunk(7);
    assert_eq!(s.written, 100);
    assert!(s.is_complete());
}

#[test]
fn an_undersized_body_leaves_the_counter_at_its_sum() {
    let mut s = DownloadSession::new(1000);
    s.apply_chunk(1);
    s.apply_chunk(0);
    s.apply_chunk(500);
    assert_eq!(s.written, 501);
    assert!(!s.is_complete());
}

#[test]
fn huge_chunks_cannot_overflow_the_counter() {
    let mut s = DownloadSession::new(u64::MAX);
    s.apply_chunk(u64::MAX);
    s.apply_chunk(u64::MAX);
    assert_eq!(s.written, u64::MAX);
    assert!(s.is_complete());
}
