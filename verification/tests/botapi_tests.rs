use pentaract::botapi::TelegramBotApi;
use pentaract::errors::PentaractError;
use pentaract::scheduler::WorkerPool;

fn api_with_one_worker() -> TelegramBotApi {
    let mut pool = WorkerPool::new(3, 60);
    pool.register_worker(1, String::from("SECRET-REDACTED"));
    TelegramBotApi::new(String::from("https://api.telegram.org"), pool)
}

#[test]
fn build_url_matches_the_backend_scheme() {
    let api = api_with_one_worker();
    let url = api.build_url("", "sendDocument", String::from("TOKEN"));
    assert_eq!(url, "https://api.telegram.org/botTOKEN/sendDocument");
    let url = api.build_url("file/", "documents/file_42.bin", String::from("TOKEN"));
    assert_eq!(url, "https://api.telegram.org/file/botTOKEN/documents/file_42.bin");
}

#[test]
fn prepare_upload_canonicalizes_the_destination() {
    let mut api = api_with_one_worker();
    let req = api.prepare_upload(-123456, 0).unwrap();
    assert_eq!(req.chat_id_field, "-100123456");
    assert_eq!(req.worker_id, 1);
    assert_eq!(
        req.url,
        "https://api.telegram.org/botSECRET-REDACTED/sendDocument"
    );
}

#[test]
fn prepare_fails_without_healthy_workers() {
    let pool = WorkerPool::new(3, 60);
    let mut api = TelegramBotApi::new(String::from("https://api.telegram.org"), pool);
    assert!(matches!(
        api.prepare_upload(-123456, 0).unwrap_err(),
        PentaractError::NoWorkersAvailable
    ));
    assert!(matches!(
        api.prepare_get_file(0).unwrap_err(),
        PentaractError::NoWorkersAvailable
    ));
}

#[test]
fn upload_outcome_reads_the_object_id_from_the_envelope() {
    let body = br#"{"ok":true,"result":{"document":{"file_name":"chunk.bin","file_id":"BQACAgIAAxkDAAM","file_size":42}}}"#.to_vec();
    let id = TelegramBotApi::upload_outcome(200, body).unwrap();
    assert_eq!(id, b"BQACAgIAAxkDAAM".to_vec());
}

#[test]
fn upload_outcome_surfaces_failures_unchanged() {
    let body = b"Bad Request: chat not found".to_vec();
    let e = TelegramBotApi::upload_outcome(400, body.clone()).unwrap_err();
    match e {
        PentaractError::RemoteAPIError { status, body: b } => {
            assert_eq!(status, 400);
            assert_eq!(b, body);
        }
        other => panic!("unexpected error: {other:?}"),
    }
    // a success status whose body has no object id is a protocol failure too
    let e = TelegramBotApi::upload_outcome(200, b"{}".to_vec()).unwrap_err();
    assert!(matches!(e, PentaractError::RemoteAPIError { status: 200, .. }));
}

#[test]
fn get_file_outcome_reads_the_locator() {
    let body = br#"{"ok":true,"result":{"file_id":"X","file_path":"documents/file_7.bin"}}"#
        .to_vec();
    let fp = TelegramBotApi::get_file_outcome(200, body).unwrap();
    assert_eq!(fp, b"documents/file_7.bin".to_vec());
}

#[test]
fn fetch_outcome_passes_bytes_through_on_success_only() {
    assert_eq!(
        TelegramBotApi::fetch_outcome(200, b"raw bytes".to_vec()).unwrap(),
        b"raw bytes".to_vec()
    );
    assert!(matches!(
        TelegramBotApi::fetch_outcome(502, b"bad gateway".to_vec()).unwrap_err(),
        PentaractError::RemoteAPIError { status: 502, .. }
    ));
}

#[test]
fn each_download_phase_draws_its_own_credential() {
    let mut api = api_with_one_worker();
    let issued_before = api.scheduler.issued;
    let _phase1 = api.prepare_get_file(0).unwrap();
    let _phase2 = api.prepare_fetch("documents/file_7.bin", 0).unwrap();
    assert_eq!(api.scheduler.issued, issued_before + 2);
}
