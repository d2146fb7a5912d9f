use localsend_cli::protocol::{build_upload_path, Announce, FileInfo, PrepareUpload};
use localsend_cli::receive::{file_id_of, route, PrepareAnswer, ReceiveError, ReceiveSession, Route};

fn info(id: &str, name: &str, size: u64) -> FileInfo {
    FileInfo {
        id: id.to_string(),
        file_name: name.to_string(),
        size,
        file_type: "text/plain".to_string(),
        sha256: None,
        preview: None,
    }
}

fn offer() -> PrepareUpload {
    let mut p = PrepareUpload::default();
    p.info = Announce::new("laptop", 53317, None);
    p.files.insert("aaaa".to_string(), info("aaaa", "a.txt", 10));
    p.files.insert("bbbb".to_string(), info("bbbb", "b.bin", 2048));
    p
}

#[test]
fn routing() {
    assert_eq!(route("/api/localsend/v2/prepare-upload", true), Route::PrepareUpload);
    assert_eq!(route("/api/localsend/v2/prepare-upload", false), Route::Ignore);
    assert_eq!(route("/api/localsend/v2/prepare-upload?x", true), Route::Ignore);
    assert_eq!(route("/api/localsend/v2/upload?sessionId=s&fileId=f&token=t", true), Route::Upload);
    assert_eq!(route("/api/localsend/v2/upload", true), Route::Ignore);
    assert_eq!(route("/", true), Route::Ignore);
}

#[test]
fn file_ids_from_paths() {
    assert_eq!(file_id_of("/api/localsend/v2/upload?sessionId=s&fileId=f1&token=t").as_deref(), Some("f1"));
    assert_eq!(file_id_of("/u?fileId=&x").as_deref(), Some(""));
    assert_eq!(file_id_of("/u?a=1&fileId=2&fileId=3").as_deref(), Some("2"));
    assert_eq!(file_id_of("/u?a=1?fileId=2"), None);
    assert_eq!(file_id_of("/u?a=1&fileid=2"), None);
    assert_eq!(file_id_of("/u"), None);
    let path = build_upload_path("session0", "abcd1234", "abcd1234");
    assert_eq!(file_id_of(&path).as_deref(), Some("abcd1234"));
    assert_eq!(route(&path, true), Route::Upload);
}

#[test]
fn acceptance_gives_each_file_its_id() {
    let mut session = ReceiveSession::new();
    session.begin(offer());
    let a = session.accept_upload();
    assert_eq!(a.session_id, "session0");
    assert_eq!(a.files.len(), 2);
    assert_eq!(a.files.get(&"aaaa".to_string()).map(|s| s.as_str()), Some("aaaa"));
    assert_eq!(a.files.get(&"bbbb".to_string()).map(|s| s.as_str()), Some("bbbb"));
    match session.answer(true) {
        PrepareAnswer::Accept(acc) => assert_eq!(acc.files.len(), 2),
        PrepareAnswer::Reject => panic!("confirmed offer rejected"),
    }
    assert_eq!(session.answer(true).status(), 200);
    assert_eq!(session.answer(false).status(), 403);
}

#[test]
fn resolving_uploads() {
    let mut session = ReceiveSession::new();
    session.begin(offer());
    let t = session
        .resolve_upload("/api/localsend/v2/upload?sessionId=session0&fileId=bbbb&token=bbbb")
        .unwrap();
    assert_eq!(t.file_path, "b.bin");
    assert_eq!(t.size, 2048);
    assert_eq!(t.file_id, "bbbb");
    assert_eq!(session.unknown_count, 0);
    let e = session.resolve_upload("/api/localsend/v2/upload?sessionId=session0&fileId=zzzz&token=t");
    assert_eq!(e.err(), Some(ReceiveError::UnknownFile));
    assert_eq!(session.unknown_count, 1);
    let e = session.resolve_upload("/api/localsend/v2/upload");
    assert_eq!(e.err(), Some(ReceiveError::MissingFileId));
    assert_eq!(session.unknown_count, 1);
    session.begin(offer());
    assert_eq!(session.unknown_count, 0);
    session.unknown_count = usize::MAX;
    let t = session
        .resolve_upload("/api/localsend/v2/upload?sessionId=session0&fileId=aaaa&token=aaaa")
        .unwrap();
    assert_eq!(t.file_path, "a.txt");
    assert_eq!(session.unknown_count, usize::MAX);
}

#[test]
fn table_rows_and_statuses() {
    let mut session = ReceiveSession::new();
    session.begin(offer());
    session.mark_downloading("bbbb".to_string());
    let rows = session.rows();
    assert_eq!(rows.len(), 2);
    assert_eq!(rows[0].number, "1");
    assert_eq!(rows[0].file_name, "a.txt");
    assert_eq!(rows[0].size, "10.00B");
    assert_eq!(rows[0].file_type, "text/plain");
    assert_eq!(rows[0].from, "laptop");
    assert_eq!(rows[0].status, "");
    assert_eq!(rows[1].number, "2");
    assert_eq!(rows[1].size, "2.00KiB");
    assert_eq!(rows[1].status, "downloading");
    session.mark_received("bbbb".to_string());
    assert_eq!(session.rows()[1].status, "\u{2705}");
    session.begin(offer());
    assert_eq!(session.rows()[1].status, "");
}
