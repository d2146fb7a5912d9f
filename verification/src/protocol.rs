//! The messages of the LocalSend protocol (version 2) that this client sends
//! and receives, and the paths it talks to.
use vstd::prelude::*;
use crate::string_map::StringMap;

verus! {

/// Where a sender asks a receiver to accept files.
pub const PREPARE_UPLOAD_URI: &'static str = "/api/localsend/v2/prepare-upload";

/// What every file upload path begins with.
pub const UPLOAD_PREFFIX: &'static str = "/api/localsend/v2/upload?";

/// The fingerprint of a device whose machine id could not be had.
pub const FALLBACK_FINGERPRINT: &'static str = "localsendDevice";

/// The upload path of one file:
/// `/api/localsend/v2/upload?sessionId=..&fileId=..&token=..`.
pub open spec fn upload_path(session_id: Seq<char>, file_id: Seq<char>, token: Seq<char>) -> Seq<
    char,
> {
    UPLOAD_PREFFIX@ + "sessionId="@ + session_id + "&fileId="@ + file_id + "&token="@ + token
}

/// The upload path of one file, as `upload_path` says.
pub fn build_upload_path(session_id: &str, file_id: &str, token: &str) -> (path: String)
    ensures
        path@ == upload_path(session_id@, file_id@, token@),
        path@.len() >= token@.len() + 7,
        path@.skip(path@.len() - token@.len()) == token@,
        path@.subrange(path@.len() - token@.len() - 7, path@.len() - token@.len()) == "&token="@,
{
    let mut path = String::from_str(UPLOAD_PREFFIX);
    path.append("sessionId=");
    path.append(session_id);
    path.append("&fileId=");
    path.append(file_id);
    path.append("&token=");
    path.append(token);
    proof {
        law_upload_path_parts(session_id@, file_id@, token@);
    }
    path
}

/// An upload path holds, in order, the upload prefix, `sessionId=` and the
/// session id, `&fileId=` and the file id, then `&token=` and the whole
/// token as given, which ends the path.
pub proof fn law_upload_path_parts(session_id: Seq<char>, file_id: Seq<char>, token: Seq<char>)
    ensures
        ({
            let p = upload_path(session_id, file_id, token);
            let a: int = 35 + session_id.len() as int;
            let b: int = a + 8 + file_id.len();
            &&& p.len() == b + 7 + token.len()
            &&& p.take(25) == "/api/localsend/v2/upload?"@
            &&& p.subrange(25, 35) == "sessionId="@
            &&& p.subrange(35, a) == session_id
            &&& p.subrange(a, a + 8) == "&fileId="@
            &&& p.subrange(a + 8, b) == file_id
            &&& p.subrange(b, b + 7) == "&token="@
            &&& p.skip(b + 7) == token
            &&& p.skip(p.len() - token.len()) == token
            &&& p.subrange(p.len() - token.len() - 7, p.len() - token.len()) == "&token="@
        }),
{
    reveal_strlit("/api/localsend/v2/upload?");
    reveal_strlit("sessionId=");
    reveal_strlit("&fileId=");
    reveal_strlit("&token=");
    let p = upload_path(session_id, file_id, token);
    let a: int = 35 + session_id.len() as int;
    let b: int = a + 8 + file_id.len();
    assert(p.take(25) =~= "/api/localsend/v2/upload?"@);
    assert(p.subrange(25, 35) =~= "sessionId="@);
    assert(p.subrange(35, a) =~= session_id);
    assert(p.subrange(a, a + 8) =~= "&fileId="@);
    assert(p.subrange(a + 8, b) =~= file_id);
    assert(p.subrange(b, b + 7) =~= "&token="@);
    assert(p.skip(b + 7) =~= token);
}

/// How a device makes itself known, by multicast and in upload requests.
#[derive(Debug, Clone)]
pub struct Announce {
    pub alias: String,
    pub version: String,
    pub device_model: Option<String>,
    pub device_type: Option<String>,
    pub fingerprint: String,
    pub port: usize,
    pub protocol: String,
    pub download: Option<bool>,
    pub announce: Option<bool>,
}

/// A file that a sender offers.
#[derive(Debug, Clone)]
pub struct FileInfo {
    pub id: String,
    pub file_name: String,
    pub size: u64,
    pub file_type: String,
    pub sha256: Option<String>,
    pub preview: Option<String>,
}

/// A request to upload files, keyed by file id.
#[derive(Debug)]
pub struct PrepareUpload {
    pub info: Announce,
    pub files: StringMap<FileInfo>,
}

/// A receiver's answer to a `PrepareUpload`: a session and a token per file id.
#[derive(Debug)]
pub struct AcceptUpload {
    pub session_id: String,
    pub files: StringMap<String>,
}

/// An announcement with every text empty, the port 0 and nothing optional,
/// as `Announce::empty` makes it.
pub open spec fn is_empty_announce(a: Announce) -> bool {
    &&& a.alias@ == Seq::<char>::empty()
    &&& a.version@ == Seq::<char>::empty()
    &&& a.device_model is None
    &&& a.device_type is None
    &&& a.fingerprint@ == Seq::<char>::empty()
    &&& a.port == 0
    &&& a.protocol@ == Seq::<char>::empty()
    &&& a.download is None
    &&& a.announce is None
}

/// This client's announcement with the given alias, port and fingerprint.
pub open spec fn is_own_announce(a: Announce, alias: Seq<char>, port: usize, fingerprint: Seq<char>) -> bool {
    &&& a.alias@ == alias
    &&& a.version@ == "2.0"@
    &&& a.device_model is None
    &&& a.device_type matches Some(t) && t@ == "headless"@
    &&& a.fingerprint@ == fingerprint
    &&& a.port == port
    &&& a.protocol@ == "http"@
    &&& a.download == Some(false)
    &&& a.announce == Some(true)
}

/// This client's announcement carries exactly the alias, port and
/// fingerprint it is made with, version `2.0`, the device type `headless`,
/// protocol `http`, no device model, no downloads, and is an announcement.
pub proof fn law_own_announce(a: Announce, alias: Seq<char>, port: usize, fingerprint: Seq<char>)
    requires
        is_own_announce(a, alias, port, fingerprint),
    ensures
        a.alias@ == alias,
        a.alias@.len() == alias.len(),
        a.port == port,
        a.fingerprint@ == fingerprint,
        a.version@ == seq!['2', '.', '0'],
        a.device_type matches Some(t) && t@ == seq!['h', 'e', 'a', 'd', 'l', 'e', 's', 's'],
        a.protocol@ == seq!['h', 't', 't', 'p'],
        a.device_model is None,
        a.download == Some(false),
        a.announce == Some(true),
{
    reveal_strlit("2.0");
    reveal_strlit("headless");
    reveal_strlit("http");
    assert("2.0"@ =~= seq!['2', '.', '0']);
    assert("headless"@ =~= seq!['h', 'e', 'a', 'd', 'l', 'e', 's', 's']);
    assert("http"@ =~= seq!['h', 't', 't', 'p']);
}

impl Announce {
    /// This client's announcement: a headless device speaking HTTP, version
    /// 2.0, not offering downloads. Its fingerprint is the hashed machine id
    /// when there is one, else `localsendDevice`.
    pub fn new(alias: &str, port: usize, machine_fingerprint: Option<String>) -> (a: Announce)
        ensures
            a.alias@ == alias@,
            a.port == port,
            a.fingerprint@ == match machine_fingerprint {
                Some(f) => f@,
                None => FALLBACK_FINGERPRINT@,
            },
            is_own_announce(
                a,
                alias@,
                port,
                match machine_fingerprint {
                    Some(f) => f@,
                    None => FALLBACK_FINGERPRINT@,
                },
            ),
    {
        let fingerprint = match machine_fingerprint {
            Some(f) => f,
            None => String::from_str(FALLBACK_FINGERPRINT),
        };
        Announce::with_fingerprint(alias, port, fingerprint)
    }

    fn with_fingerprint(alias: &str, port: usize, fingerprint: String) -> (a: Announce)
        ensures
            a.alias@ == alias@,
            a.port == port,
            a.fingerprint@ == fingerprint@,
            is_own_announce(a, alias@, port, fingerprint@),
    {
        Announce {
            alias: String::from_str(alias),
            version: String::from_str("2.0"),
            device_model: None,
            device_type: Some(String::from_str("headless")),
            fingerprint,
            port,
            protocol: String::from_str("http"),
            download: Some(false),
            announce: Some(true),
        }
    }

    /// An announcement with every text empty, the port 0 and nothing optional.
    pub fn empty() -> (a: Announce)
        ensures
            a.alias@ == Seq::<char>::empty(),
            a.version@ == Seq::<char>::empty(),
            a.device_model is None,
            a.device_type is None,
            a.fingerprint@ == Seq::<char>::empty(),
            a.port == 0,
            a.protocol@ == Seq::<char>::empty(),
            a.download is None,
            a.announce is None,
    {
        Announce {
            alias: String::new(),
            version: String::new(),
            device_model: None,
            device_type: None,
            fingerprint: String::new(),
            port: 0,
            protocol: String::new(),
            download: None,
            announce: None,
        }
    }
}

impl Default for PrepareUpload {
    /// An empty request from an empty announcement.
    fn default() -> (p: PrepareUpload)
        ensures
            p.info.alias@ == Seq::<char>::empty(),
            p.info.version@ == Seq::<char>::empty(),
            p.info.device_model is None,
            p.info.device_type is None,
            p.info.fingerprint@ == Seq::<char>::empty(),
            p.info.port == 0,
            p.info.protocol@ == Seq::<char>::empty(),
            p.info.download is None,
            p.info.announce is None,
            p.files.as_map() == Map::<Seq<char>, FileInfo>::empty(),
            p.files.pairs().len() == 0,
    {
        PrepareUpload { info: Announce::empty(), files: StringMap::new() }
    }
}

/// The lowercase hexadecimal digit for `d` (0 to 15).
pub open spec fn hex_digit(d: nat) -> char {
    if d < 10 {
        (48 + d) as char
    } else {
        (87 + d) as char
    }
}

/// `data` in lowercase hexadecimal, two digits per byte, high nibble first.
pub open spec fn hex_text(data: Seq<u8>) -> Seq<char>
    decreases data.len(),
{
    if data.len() == 0 {
        Seq::empty()
    } else {
        hex_text(data.drop_last()) + seq![
            hex_digit((data.last() / 16) as nat),
            hex_digit((data.last() % 16) as nat),
        ]
    }
}

/// The text of `data` has two digits per byte.
pub proof fn lemma_hex_text_len(data: Seq<u8>)
    ensures
        hex_text(data).len() == 2 * data.len(),
    decreases data.len(),
{
    if data.len() > 0 {
        lemma_hex_text_len(data.drop_last());
    }
}

/// `hex::encode`: each byte as two lowercase hexadecimal digits, high
/// nibble first.
#[verifier::external_body]
fn hex_encode(data: &[u8]) -> (s: String)
    ensures
        s@ == hex_text(data@),
{
    hex::encode(data)
}

/// The SHA-256 digest of `data`, as `sha2` computes it.
pub uninterp spec fn sha256_of(data: Seq<u8>) -> Seq<u8>;

/// `sha2::Sha256::digest(data)`: the SHA-256 digest of `data`, named, not
/// stated, and 32 bytes long (the output size `sha2` gives `Sha256`).
#[verifier::external_body]
fn sha256_digest(data: &[u8]) -> (d: Vec<u8>)
    ensures
        d@ == sha256_of(data@),
        d@.len() == 32,
{
    <sha2::Sha256 as sha2::Digest>::digest(data).to_vec()
}

/// The MIME type that `mime_guess` gives first for the extension of `path`.
pub uninterp spec fn mime_of_path(path: Seq<char>) -> Option<Seq<char>>;

/// `mime_guess::from_path(path).first_raw()`: the first MIME type known for
/// the extension of `path`, if any; named, not stated.
#[verifier::external_body]
fn guess_mime(path: &str) -> (r: Option<String>)
    ensures
        match r {
            Some(t) => mime_of_path(path@) == Some(t@),
            None => mime_of_path(path@) is None,
        },
{
    mime_guess::from_path(path).first_raw().map(String::from)
}

/// The id of a file: the first eight characters of its digest's text.
pub open spec fn id_of_digest(hex: Seq<char>) -> Seq<char> {
    if hex.len() < 8 {
        hex
    } else {
        hex.take(8)
    }
}

/// The MIME type of a file: what its content shows, else what its path's
/// extension suggests, else `application/octet-stream`.
pub open spec fn file_type_of(content_type: Option<Seq<char>>, path: Seq<char>) -> Seq<char> {
    match content_type {
        Some(t) => t,
        None => match mime_of_path(path) {
            Some(t) => t,
            None => "application/octet-stream"@,
        },
    }
}

impl FileInfo {
    /// The description of a file from what was read of it: its name (`file`
    /// where it has none), its size, the type its content shows (if any), its
    /// path and its content. The digest is the SHA-256 digest of the content
    /// in hexadecimal, and the id its first eight digits; there is no preview.
    pub fn new(
        file_name: Option<String>,
        size: u64,
        content_type: Option<String>,
        path: &str,
        content: &[u8],
    ) -> (f: FileInfo)
        ensures
            f.file_name@ == match file_name {
                Some(n) => n@,
                None => "file"@,
            },
            f.size == size,
            f.file_type@ == file_type_of(
                match content_type {
                    Some(t) => Some(t@),
                    None => None,
                },
                path@,
            ),
            f.sha256 matches Some(h) && h@ == hex_text(sha256_of(content@)),
            f.id@ == id_of_digest(hex_text(sha256_of(content@))),
            sha256_of(content@).len() == 32,
            hex_text(sha256_of(content@)).len() == 64,
            f.id@ == hex_text(sha256_of(content@)).take(8),
            f.preview is None,
    {
        let file_name = match file_name {
            Some(n) => n,
            None => String::from_str("file"),
        };
        let file_type = match content_type {
            Some(t) => t,
            None => match guess_mime(path) {
                Some(t) => t,
                None => String::from_str("application/octet-stream"),
            },
        };
        let digest = sha256_digest(content);
        let hex = hex_encode(digest.as_slice());
        proof {
            lemma_hex_text_len(digest@);
        }
        let chars = crate::text::chars_of(hex.as_str());
        let n: usize = if chars.len() < 8 {
            chars.len()
        } else {
            8
        };
        let id_chars = crate::text::slice_range(chars.as_slice(), 0, n);
        let id = crate::text::string_from(id_chars.as_slice());
        assert(id@ == id_of_digest(hex@));
        FileInfo { id, file_name, size, file_type, sha256: Some(hex), preview: None }
    }
}

} // verus!
