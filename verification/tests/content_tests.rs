use pentaract::content::download_meta;

#[test]
fn meta_suggests_the_last_path_segment() {
    let meta = download_meta(&b"docs/report.pdf".to_vec());
    assert_eq!(meta.filename, b"report.pdf".to_vec());
    assert_eq!(
        meta.content_disposition,
        b"attachment; filename=\"report.pdf\"".to_vec()
    );
}

#[test]
fn meta_guesses_the_content_type_from_the_name() {
    assert_eq!(download_meta(&b"a/b/page.html".to_vec()).content_type, "text/html");
    assert_eq!(download_meta(&b"notes.txt".to_vec()).content_type, "text/plain");
    // an unknown extension falls back to the binary type
    assert_eq!(
        download_meta(&b"mystery.zzz".to_vec()).content_type,
        "application/octet-stream"
    );
}

#[test]
fn meta_falls_back_to_a_placeholder_name() {
    let meta = download_meta(&Vec::new());
    assert_eq!(meta.filename, b"unnamed.bin".to_vec());
    assert_eq!(meta.content_type, "application/octet-stream");
}
