//! The sending side: the choice of a receiver, the offer of files, and the
//! upload request of each file the receiver accepted.
use vstd::prelude::*;
use crate::device::Device;
use crate::protocol::{build_upload_path, upload_path, AcceptUpload, Announce, FileInfo, PrepareUpload};
use crate::string_map::{has_key, key_position, StringMap};
use crate::text::{chars_of, decimal, parse_number, parse_number_exec, push_chars, push_decimal, NumberError};

verus! {

/// Why sending stopped.
#[derive(Debug, Clone, Copy, PartialEq, Eq, Structural)]
pub enum SendError {
    /// The chosen device number is not one of those listed.
    OutOfRange,
    /// The chosen device number is not a number.
    Number(NumberError),
    /// The receiver accepted a file id that was not offered.
    UnknownFileId,
}

/// The device numbered `choice` (from 1) in the list shown, as typed.
pub fn select_device(devices: Vec<Device>, choice: &str) -> (r: Result<Device, SendError>)
    ensures
        match parse_number(choice@, 10) {
            Err(e) => r matches Err(SendError::Number(e2)) && e2 == e,
            Ok(n) => if 1 <= n <= devices@.len() {
                r matches Ok(d) && d == devices@[n - 1]
            } else {
                r matches Err(SendError::OutOfRange)
            },
        },
{
    let c = chars_of(choice);
    let select = match parse_number_exec(c.as_slice(), 10) {
        Ok(n) => n,
        Err(e) => return Err(SendError::Number(e)),
    };
    if select > devices.len() || select < 1 {
        return Err(SendError::OutOfRange);
    }
    let mut devices = devices;
    Ok(devices.swap_remove(select - 1))
}

/// `host:port`, where a device's HTTP server listens.
pub fn base_url(host: &str, port: usize) -> (url: String)
    ensures
        url@ == host@ + ":"@ + decimal(port as nat),
{
    let mut url = String::from_str(host);
    url.append(":");
    let mut digits: Vec<char> = Vec::new();
    push_decimal(&mut digits, port as u128);
    push_chars(&mut url, digits.as_slice());
    url
}

/// An offer of files, and where each offered file lies, by file id.
#[derive(Debug)]
pub struct UploadOffer<P> {
    pub prepare: PrepareUpload,
    pub paths: StringMap<P>,
}

impl<P> UploadOffer<P> {
    /// An offer of no files from the device `info`.
    pub fn new(info: Announce) -> (o: UploadOffer<P>)
        ensures
            o.prepare.info == info,
            o.prepare.files.pairs().len() == 0,
            o.prepare.files.as_map() == Map::<Seq<char>, FileInfo>::empty(),
            o.paths.as_map() == Map::<Seq<char>, P>::empty(),
    {
        UploadOffer { prepare: PrepareUpload { info, files: StringMap::new() }, paths: StringMap::new() }
    }

    /// Offers the file `info` that lies at `path`, under its id: a file with
    /// the same id offered before is replaced.
    pub fn add_file(&mut self, info: FileInfo, path: P)
        ensures
            final(self).prepare.info == old(self).prepare.info,
            final(self).prepare.files.as_map() == old(self).prepare.files.as_map().insert(
                info.id@,
                info,
            ),
            final(self).paths.as_map() == old(self).paths.as_map().insert(info.id@, path),
            has_key(old(self).prepare.files.pairs(), info.id@) ==> final(self).prepare.files.pairs()
                == old(self).prepare.files.pairs().update(
                key_position(old(self).prepare.files.pairs(), info.id@),
                (info.id@, info),
            ),
            !has_key(old(self).prepare.files.pairs(), info.id@) ==> final(self).prepare.files.pairs()
                == old(self).prepare.files.pairs().push((info.id@, info)),
    {
        let id = info.id.clone();
        self.paths.insert(info.id.clone(), path);
        self.prepare.files.insert(id, info);
    }
}

/// The upload of the `i`-th file that the receiver accepted: where the file
/// lies, and the path to post it to, with the session and the file's token.
pub fn upload_request<'a, P>(accept: &AcceptUpload, i: usize, paths: &'a StringMap<P>) -> (r: Result<
    (&'a P, String),
    SendError,
>)
    requires
        i < accept.files.pairs().len(),
    ensures
        ({
            let (file_id, token) = accept.files.pairs()[i as int];
            if paths.as_map().contains_key(file_id) {
                r matches Ok((p, uri)) && *p == paths.as_map()[file_id] && uri@ == upload_path(
                    accept.session_id@,
                    file_id,
                    token@,
                )
            } else {
                r == Err::<(&P, String), SendError>(SendError::UnknownFileId)
            }
        }),
{
    let (file_id, token) = accept.files.entry(i);
    match paths.get(file_id) {
        None => Err(SendError::UnknownFileId),
        Some(p) => {
            let uri = build_upload_path(accept.session_id.as_str(), file_id.as_str(), token.as_str());
            Ok((p, uri))
        },
    }
}

} // verus!

verus! {

/// Every file of `files` is filed under its own id, and every filed id has
/// a path: what an offer built with `UploadOffer` keeps.
pub open spec fn offer_consistent<P>(files: Map<Seq<char>, FileInfo>, paths: Map<Seq<char>, P>) -> bool {
    &&& forall|k: Seq<char>| #[trigger] files.contains_key(k) ==> files[k].id@ == k
    &&& paths.dom() == files.dom()
}

/// An empty offer is consistent, and adding a file keeps an offer so.
pub proof fn law_offer_stays_consistent<P>(
    files: Map<Seq<char>, FileInfo>,
    paths: Map<Seq<char>, P>,
    info: FileInfo,
    path: P,
)
    ensures
        offer_consistent(Map::<Seq<char>, FileInfo>::empty(), Map::<Seq<char>, P>::empty()),
        offer_consistent(files, paths) ==> offer_consistent(
            files.insert(info.id@, info),
            paths.insert(info.id@, path),
        ),
{
    assert(Map::<Seq<char>, P>::empty().dom() =~= Map::<Seq<char>, FileInfo>::empty().dom());
    if offer_consistent(files, paths) {
        assert(paths.insert(info.id@, path).dom() =~= files.insert(info.id@, info).dom());
    }
}

/// What a receiver accepts of a consistent offer is exactly the files
/// offered, and each of them has a path to upload it from, so no upload of
/// an accepted file fails for an unknown id.
pub proof fn law_accepted_files_can_be_sent<P>(files: StringMap<FileInfo>, paths: Map<Seq<char>, P>)
    requires
        crate::string_map::keys_unique(files.pairs()),
        offer_consistent(files.as_map(), paths),
    ensures
        crate::receive::accepted_ids(files) == files.as_map().dom(),
        forall|k: Seq<char>| crate::receive::accepted_ids(files).contains(k) ==> #[trigger] paths.contains_key(k),
{
    let p = files.pairs();
    assert forall|k: Seq<char>| crate::receive::accepted_ids(files).contains(k) <==> #[trigger] files.as_map().dom().contains(k) by {
        if crate::receive::accepted_ids(files).contains(k) {
            let i = choose|i: int| 0 <= i < p.len() && #[trigger] p[i].1.id@ == k;
            crate::string_map::lemma_position(p, i);
        }
        if files.as_map().dom().contains(k) {
            let i = crate::string_map::key_position(p, k);
            crate::string_map::lemma_position(p, i);
            assert(p[i].1.id@ == k);
        }
    }
    assert(crate::receive::accepted_ids(files) =~= files.as_map().dom());
}

} // verus!
