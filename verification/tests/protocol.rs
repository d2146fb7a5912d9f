use localsend_cli::protocol::{build_upload_path, Announce, FileInfo, PrepareUpload, UPLOAD_PREFFIX};

#[test]
fn upload_path_layout() {
    assert_eq!(
        build_upload_path("session0", "2cf24dba", "tok"),
        "/api/localsend/v2/upload?sessionId=session0&fileId=2cf24dba&token=tok"
    );
    assert!(build_upload_path("", "", "").starts_with(UPLOAD_PREFFIX));
}

fn check_own(a: &Announce, alias: &str, port: usize, fingerprint: &str) {
    assert_eq!(a.alias, alias);
    assert_eq!(a.version, "2.0");
    assert_eq!(a.device_model, None);
    assert_eq!(a.device_type.as_deref(), Some("headless"));
    assert_eq!(a.fingerprint, fingerprint);
    assert_eq!(a.port, port);
    assert_eq!(a.protocol, "http");
    assert_eq!(a.download, Some(false));
    assert_eq!(a.announce, Some(true));
}

#[test]
fn own_announcement() {
    let a = Announce::new("my_device", 53317, Some("abc123".to_string()));
    check_own(&a, "my_device", 53317, "abc123");
    let b = Announce::new("x", 1, None);
    check_own(&b, "x", 1, "localsendDevice");
}

#[test]
fn built_announcement() {
    let a = Announce::build("phone", 4000);
    check_own(&a, "phone", 4000, "tmp_fingerprint");
    let p = PrepareUpload::new();
    check_own(&p.info, "", 53317, "tmp_fingerprint");
    assert_eq!(p.files.len(), 0);
}

#[test]
fn empty_announcement() {
    let a = Announce::empty();
    assert_eq!(a.alias, "");
    assert_eq!(a.version, "");
    assert_eq!(a.device_model, None);
    assert_eq!(a.device_type, None);
    assert_eq!(a.fingerprint, "");
    assert_eq!(a.port, 0);
    assert_eq!(a.protocol, "");
    assert_eq!(a.download, None);
    assert_eq!(a.announce, None);
    let p = PrepareUpload::default();
    assert_eq!(p.info.alias, "");
    assert_eq!(p.files.len(), 0);
}

#[test]
fn file_description() {
    let f = FileInfo::new(Some("a.txt".to_string()), 5, None, "/tmp/a.txt", b"hello");
    assert_eq!(f.id, "2cf24dba");
    assert_eq!(f.file_name, "a.txt");
    assert_eq!(f.size, 5);
    assert_eq!(f.file_type, "text/plain");
    assert_eq!(
        f.sha256.as_deref(),
        Some("2cf24dba5fb0a30e26e83b2ac5b9e29e1b161e5c1fa7425e73043362938b9824")
    );
    assert_eq!(f.preview, None);
}

#[test]
fn file_type_and_name_fallbacks() {
    let f = FileInfo::new(None, 1, Some("image/png".to_string()), "x.txt", &[0xab]);
    assert_eq!(f.file_name, "file");
    assert_eq!(f.file_type, "image/png");
    assert_eq!(f.id, "087d80f7");
    let g = FileInfo::new(None, 0, None, "noextension", &[]);
    assert_eq!(g.file_type, "application/octet-stream");
    assert_eq!(g.id, "e3b0c442");
    assert_eq!(g.sha256.as_deref().map(|h| h.len()), Some(64));
    assert_eq!(f.sha256.as_deref().map(|h| &h[..8]), Some(f.id.as_str()));
    assert_eq!(
        g.sha256.as_deref(),
        Some("e3b0c44298fc1c149afbf4c8996fb92427ae41e4649b934ca495991b7852b855")
    );
}
