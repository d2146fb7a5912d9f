use localsend_cli::device::{device_rows, time_left, Device, DeviceTable, DiscoverError, IpAddress};
use localsend_cli::protocol::{AcceptUpload, Announce, FileInfo};
use localsend_cli::send::{base_url, select_device, upload_request, SendError, UploadOffer};
use localsend_cli::string_map::StringMap;
use localsend_cli::receive::ReceiveSession;
use localsend_cli::PrepareUpload;
use localsend_cli::text::NumberError;

fn device(alias: &str, fingerprint: &str, last: u8) -> Device {
    Device { info: Announce::new(alias, 53317, Some(fingerprint.to_string())), address: IpAddress::V4([192, 168, 1, last]) }
}

#[test]
fn choosing_a_device() {
    let list = || vec![device("a", "fa", 1), device("b", "fb", 2), device("c", "fc", 3)];
    assert_eq!(select_device(list(), "1").unwrap().info.alias, "a");
    assert_eq!(select_device(list(), "3").unwrap().info.alias, "c");
    assert_eq!(select_device(list(), "0").err(), Some(SendError::OutOfRange));
    assert_eq!(select_device(list(), "4").err(), Some(SendError::OutOfRange));
    assert_eq!(select_device(list(), "x").err(), Some(SendError::Number(NumberError::InvalidDigit)));
    assert_eq!(select_device(list(), "").err(), Some(SendError::Number(NumberError::Empty)));
}

#[test]
fn addresses() {
    assert_eq!(base_url("192.168.1.2", 53317), "192.168.1.2:53317");
    assert_eq!(base_url("h", 0), "h:0");
}

fn info(id: &str) -> FileInfo {
    let mut f = FileInfo::new(Some(format!("{}.txt", id)), 1, None, "x.txt", &[]);
    f.id = id.to_string();
    f
}

#[test]
fn offering_and_uploading() {
    let mut offer: UploadOffer<String> = UploadOffer::new(Announce::build("me", 53317));
    offer.add_file(info("f1"), "/data/one".to_string());
    offer.add_file(info("f2"), "/data/two".to_string());
    offer.add_file(info("f1"), "/data/one-again".to_string());
    assert_eq!(offer.prepare.files.len(), 2);
    assert_eq!(offer.paths.get(&"f1".to_string()).map(|s| s.as_str()), Some("/data/one-again"));

    let mut tokens = StringMap::new();
    tokens.insert("f2".to_string(), "t2".to_string());
    tokens.insert("nope".to_string(), "t3".to_string());
    let accept = AcceptUpload { session_id: "session0".to_string(), files: tokens };
    let (path, uri) = upload_request(&accept, 0, &offer.paths).unwrap();
    assert_eq!(path, "/data/two");
    assert_eq!(uri, "/api/localsend/v2/upload?sessionId=session0&fileId=f2&token=t2");
    assert_eq!(upload_request(&accept, 1, &offer.paths).err(), Some(SendError::UnknownFileId));
}

#[test]
fn discovery_keeps_latest_per_fingerprint() {
    let mut table = DeviceTable::new();
    table.record(Announce::new("a", 1, Some("fa".to_string())), IpAddress::V4([10, 0, 0, 1]));
    table.record(Announce::new("b", 2, Some("fb".to_string())), IpAddress::V4([10, 0, 0, 2]));
    table.record(Announce::new("a2", 3, Some("fa".to_string())), IpAddress::V6([0, 0, 0, 0, 0, 0, 0, 1]));
    let devices = table.into_devices().unwrap();
    assert_eq!(devices.len(), 2);
    assert_eq!(devices[0].info.alias, "a2");
    assert_eq!(devices[0].info.port, 3);
    assert!(matches!(devices[0].address, IpAddress::V6(_)));
    assert_eq!(devices[1].info.alias, "b");
    assert_ne!(devices[0].info.fingerprint, devices[1].info.fingerprint);
    assert_eq!(DeviceTable::new().into_devices().err(), Some(DiscoverError::NoDevice));
}

#[test]
fn device_list_and_window() {
    let mut d = device("a", "fa", 1);
    d.info.device_type = None;
    let rows = device_rows(&vec![device("phone", "f", 1), d]);
    assert_eq!(rows[0].number, "1");
    assert_eq!(rows[0].alias, "phone");
    assert_eq!(rows[0].device_type, "headless");
    assert_eq!(rows[1].number, "2");
    assert_eq!(rows[1].device_type, "");
    assert_eq!(time_left(5_000, 1_000), 4_000);
    assert_eq!(time_left(5_000, 5_000), 0);
    assert_eq!(time_left(5_000, 9_000), 0);
}

#[test]
fn string_map_keeps_order_and_replaces() {
    let mut m: StringMap<u32> = StringMap::new();
    m.insert("b".to_string(), 1);
    m.insert("a".to_string(), 2);
    m.insert("b".to_string(), 3);
    assert_eq!(m.len(), 2);
    assert_eq!(m.entry(0), (&"b".to_string(), &3));
    assert_eq!(m.entry(1), (&"a".to_string(), &2));
    assert_eq!(m.get(&"a".to_string()), Some(&2));
    assert_eq!(m.get(&"c".to_string()), None);
    assert_eq!(m.find(&"a".to_string()), Some(1));
    m.clear();
    assert_eq!(m.len(), 0);
    assert_eq!(m.into_values(), Vec::<u32>::new());
}

#[test]
fn accepted_offer_uploads_every_file() {
    let mut offer: UploadOffer<String> = UploadOffer::new(Announce::build("me", 53317));
    offer.add_file(info("x1"), "/d/x1".to_string());
    offer.add_file(info("x2"), "/d/x2".to_string());
    let mut copy = PrepareUpload::default();
    copy.info = Announce::build("me", 53317);
    for i in 0..offer.prepare.files.len() {
        let (k, v) = offer.prepare.files.entry(i);
        copy.files.insert(k.clone(), v.clone());
    }
    let mut session = ReceiveSession::new();
    session.begin(copy);
    let accept = session.accept_upload();
    assert_eq!(accept.files.len(), 2);
    for i in 0..accept.files.len() {
        let (path, uri) = upload_request(&accept, i, &offer.paths).unwrap();
        let (id, _) = accept.files.entry(i);
        assert_eq!(path, &format!("/d/{}", id));
        let target = session.resolve_upload(&uri).unwrap();
        assert_eq!(&target.file_id, id);
        assert_eq!(target.file_path, format!("{}.txt", id));
    }
}
