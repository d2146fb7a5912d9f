//! Fixed messages for local use: an announcement with a placeholder
//! fingerprint, and an empty upload request built from one.
use vstd::prelude::*;
use crate::protocol::{is_own_announce, Announce, PrepareUpload, FileInfo};
use crate::string_map::StringMap;

verus! {

/// The port LocalSend listens on unless told otherwise.
pub const DEFAULT_PORT: usize = 53317;

/// The fingerprint of an announcement made with `Announce::build`.
pub const PLACEHOLDER_FINGERPRINT: &'static str = "tmp_fingerprint";

impl Announce {
    /// This client's announcement as `Announce::new` makes it, with the
    /// placeholder fingerprint `tmp_fingerprint`.
    pub fn build(alias: &str, port: usize) -> (a: Announce)
        ensures
            a.alias@ == alias@,
            a.port == port,
            is_own_announce(a, alias@, port, PLACEHOLDER_FINGERPRINT@),
    {
        Announce::new(alias, port, Some(String::from_str(PLACEHOLDER_FINGERPRINT)))
    }
}

impl PrepareUpload {
    /// An upload request with no files, from an announcement built with an
    /// empty alias on the default port.
    pub fn new() -> (p: PrepareUpload)
        ensures
            is_own_announce(p.info, Seq::<char>::empty(), DEFAULT_PORT, PLACEHOLDER_FINGERPRINT@),
            p.files.as_map() == Map::<Seq<char>, FileInfo>::empty(),
            p.files.pairs().len() == 0,
    {
        let info = Announce::build("", DEFAULT_PORT);
        assert(""@ =~= Seq::<char>::empty()) by {
            reveal_strlit("");
        }
        PrepareUpload { info, files: StringMap::new() }
    }
}

} // verus!
