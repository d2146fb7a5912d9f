//! The receiving side: which requests are answered, what a receiver accepts,
//! which offered file an upload is for, and the table shown while receiving.
use vstd::prelude::*;
use crate::convert_unit::{format_size, storage_text};
use crate::protocol::{
    is_empty_announce, AcceptUpload, FileInfo, PrepareUpload, PREPARE_UPLOAD_URI, UPLOAD_PREFFIX,
};
use crate::string_map::StringMap;
use crate::text::{
    begins_with, chars_of, decimal, field_after_sep, in_class, leading, push_decimal,
    same_text, scan, second_field, slice_range, starts_with, string_from, CharClass,
};

verus! {

/// What a request to the receiver is.
#[derive(Debug, Clone, Copy, PartialEq, Eq, Structural)]
pub enum Route {
    /// A `POST` to the prepare-upload path: a sender offers files.
    PrepareUpload,
    /// A `POST` to a path that begins with the upload prefix: a file's content.
    Upload,
    /// Anything else, which gets no answer.
    Ignore,
}

/// What a request with path `url` is, `is_post` telling whether its method
/// is `POST`.
pub open spec fn route_of(url: Seq<char>, is_post: bool) -> Route {
    if is_post && url == PREPARE_UPLOAD_URI@ {
        Route::PrepareUpload
    } else if is_post && begins_with(url, UPLOAD_PREFFIX@) {
        Route::Upload
    } else {
        Route::Ignore
    }
}

/// What a request is, as `route_of` says.
pub fn route(url: &str, is_post: bool) -> (r: Route)
    ensures
        r == route_of(url@, is_post),
        !is_post ==> r == Route::Ignore,
        r == Route::Upload ==> is_post && url@.len() >= UPLOAD_PREFFIX@.len() && url@.take(
            UPLOAD_PREFFIX@.len() as int,
        ) == UPLOAD_PREFFIX@,
        r == Route::PrepareUpload ==> is_post && url@ == PREPARE_UPLOAD_URI@,
{
    if !is_post {
        return Route::Ignore;
    }
    let u = chars_of(url);
    let prepare = chars_of(PREPARE_UPLOAD_URI);
    if same_text(u.as_slice(), prepare.as_slice()) {
        return Route::PrepareUpload;
    }
    let prefix = chars_of(UPLOAD_PREFFIX);
    if starts_with(u.as_slice(), prefix.as_slice()) {
        Route::Upload
    } else {
        Route::Ignore
    }
}

/// The value of the first `&`-separated field of `query` that begins with
/// `prefix`, that is the rest of the field after `prefix`.
pub open spec fn param_after(query: Seq<char>, prefix: Seq<char>) -> Option<Seq<char>>
    decreases query.len(),
{
    let k = leading(query, CharClass::Not('&'));
    let field = query.take(k as int);
    if begins_with(field, prefix) {
        Some(field.skip(prefix.len() as int))
    } else if k >= query.len() {
        None
    } else {
        param_after(query.skip(k + 1 as int), prefix)
    }
}

/// The file id of an upload path: the value of its first `fileId=` field in
/// the text between its first and second `?`.
pub open spec fn file_id_in(url: Seq<char>) -> Option<Seq<char>> {
    match second_field(url, '?') {
        None => None,
        Some(query) => param_after(query, "fileId="@),
    }
}

fn param_value(query: &Vec<char>, prefix: &Vec<char>) -> (r: Option<Vec<char>>)
    ensures
        match r {
            Some(v) => param_after(query@, prefix@) == Some(v@),
            None => param_after(query@, prefix@) is None,
        },
{
    let n = query.len();
    let mut i: usize = 0;
    assert(query@.skip(0) == query@);
    while i <= n
        invariant
            n == query@.len(),
            i <= n,
            param_after(query@.skip(i as int), prefix@) == param_after(query@, prefix@),
        decreases n - i,
    {
        let end = scan(query.as_slice(), i, &CharClass::Not('&'));
        let field = slice_range(query.as_slice(), i, end);
        proof {
            let rest = query@.skip(i as int);
            assert(field@ == rest.take(end - i));
        }
        if starts_with(field.as_slice(), prefix.as_slice()) {
            let value = slice_range(field.as_slice(), prefix.len(), field.len());
            assert(value@ == field@.skip(prefix@.len() as int));
            return Some(value);
        }
        if end == n {
            return None;
        }
        proof {
            let rest = query@.skip(i as int);
            assert(rest.skip(end - i + 1) =~= query@.skip(end + 1));
        }
        i = end + 1;
    }
    None
}

/// The file id of an upload path, as `file_id_in` says.
pub fn file_id_of(url: &str) -> (r: Option<String>)
    ensures
        match r {
            Some(id) => file_id_in(url@) == Some(id@),
            None => file_id_in(url@) is None,
        },
{
    let u = chars_of(url);
    match field_after_sep(u.as_slice(), '?') {
        None => None,
        Some(query) => {
            let prefix = chars_of("fileId=");
            match param_value(&query, &prefix) {
                Some(v) => Some(string_from(v.as_slice())),
                None => None,
            }
        },
    }
}

/// Why an upload request was refused (the receiver stops with "500").
#[derive(Debug, Clone, Copy, PartialEq, Eq, Structural)]
pub enum ReceiveError {
    /// The path names no file id.
    MissingFileId,
    /// The file id is not one of the files offered.
    UnknownFile,
}

/// Where an upload goes: the offered file's name, its size and its id.
#[derive(Debug)]
pub struct UploadTarget {
    pub file_path: String,
    pub size: u64,
    pub file_id: String,
}

/// One line of the table shown while receiving.
#[derive(Debug)]
pub struct TableRow {
    pub number: String,
    pub file_name: String,
    pub size: String,
    pub file_type: String,
    pub from: String,
    pub status: String,
}

/// How a receiver answers an offer.
#[derive(Debug)]
pub enum PrepareAnswer {
    /// Accept it (status 200, the acceptance as the body).
    Accept(AcceptUpload),
    /// Reject it (status 403).
    Reject,
}

impl PrepareAnswer {
    /// The HTTP status of the answer.
    pub fn status(&self) -> (code: u16)
        ensures
            code == match self {
                PrepareAnswer::Accept(_) => 200u16,
                PrepareAnswer::Reject => 403u16,
            },
    {
        match self {
            PrepareAnswer::Accept(_) => 200,
            PrepareAnswer::Reject => 403,
        }
    }
}

/// The ids of the files offered in `files`: the ids a receiver accepts.
pub open spec fn accepted_ids(files: StringMap<FileInfo>) -> Set<Seq<char>> {
    Set::new(
        |k: Seq<char>|
            exists|i: int| 0 <= i < files.pairs().len() && #[trigger] files.pairs()[i].1.id@ == k,
    )
}

/// What a receiver knows between requests: the latest offer, how many
/// uploads named an unknown file, and each file's status.
#[derive(Debug)]
pub struct ReceiveSession {
    pub prepare: PrepareUpload,
    pub unknown_count: usize,
    pub statuses: StringMap<String>,
}

/// The status of a file whose upload has begun.
pub const DOWNLOADING: &'static str = "downloading";

/// The status of a file that was received whole.
pub const RECEIVED: &'static str = "\u{2705}";

impl ReceiveSession {
    /// Nothing offered, nothing received: the offer is the default one, from
    /// an empty announcement with no files.
    pub fn new() -> (s: ReceiveSession)
        ensures
            is_empty_announce(s.prepare.info),
            s.prepare.files.pairs().len() == 0,
            s.prepare.files.as_map() == Map::<Seq<char>, FileInfo>::empty(),
            s.unknown_count == 0,
            s.statuses.pairs().len() == 0,
            s.statuses.as_map() == Map::<Seq<char>, String>::empty(),
    {
        ReceiveSession { prepare: PrepareUpload::default(), unknown_count: 0, statuses: StringMap::new() }
    }

    /// A new offer: it replaces the last one, and the count of unknown files
    /// and the statuses start again.
    pub fn begin(&mut self, prepare: PrepareUpload)
        ensures
            final(self).prepare == prepare,
            final(self).unknown_count == 0,
            final(self).statuses.pairs().len() == 0,
            final(self).statuses.as_map() == Map::<Seq<char>, String>::empty(),
    {
        self.prepare = prepare;
        self.unknown_count = 0;
        self.statuses.clear();
    }

    /// The answer that accepts the offer: session `session0`, and for every
    /// file offered its own id as its token.
    pub fn accept_upload(&self) -> (a: AcceptUpload)
        ensures
            a.session_id@ == "session0"@,
            a.files.as_map().dom() == accepted_ids(self.prepare.files),
            forall|k: Seq<char>| #[trigger]
                a.files.as_map().contains_key(k) ==> a.files.as_map()[k]@ == k,
    {
        let mut files: StringMap<String> = StringMap::new();
        let mut i: usize = 0;
        let n = self.prepare.files.len();
        while i < n
            invariant
                n == self.prepare.files.pairs().len(),
                i <= n,
                forall|k: Seq<char>|
                    files.as_map().contains_key(k) <==> exists|j: int|
                        0 <= j < i && #[trigger] self.prepare.files.pairs()[j].1.id@ == k,
                forall|k: Seq<char>| #[trigger]
                    files.as_map().contains_key(k) ==> files.as_map()[k]@ == k,
            decreases n - i,
        {
            let (_, info) = self.prepare.files.entry(i);
            let id = info.id.clone();
            let token = info.id.clone();
            files.insert(id, token);
            proof {
                let p = self.prepare.files.pairs();
                assert forall|k: Seq<char>|
                    files.as_map().contains_key(k) <==> exists|j: int|
                        0 <= j < i + 1 && #[trigger] p[j].1.id@ == k by {
                    if k == p[i as int].1.id@ {
                        assert(p[i as int].1.id@ == k);
                    }
                    if exists|j: int| 0 <= j < i + 1 && #[trigger] p[j].1.id@ == k {
                        let j = choose|j: int| 0 <= j < i + 1 && #[trigger] p[j].1.id@ == k;
                        if j < i {
                            assert(exists|j2: int| 0 <= j2 < i && #[trigger] p[j2].1.id@ == k);
                        }
                    }
                }
            }
            i = i + 1;
        }
        assert(files.as_map().dom() =~= accepted_ids(self.prepare.files));
        AcceptUpload { session_id: String::from_str("session0"), files }
    }

    /// The answer to the offer: acceptance, as `accept_upload` makes it,
    /// when the user confirmed, else a rejection.
    pub fn answer(&self, confirmed: bool) -> (a: PrepareAnswer)
        ensures
            confirmed ==> (a matches PrepareAnswer::Accept(acc) && acc.session_id@ == "session0"@
                && acc.files.as_map().dom() == accepted_ids(self.prepare.files) && (forall|k: Seq<char>|
                #[trigger] acc.files.as_map().contains_key(k) ==> acc.files.as_map()[k]@ == k)),
            !confirmed ==> a is Reject,
    {
        let accept = self.accept_upload();
        if confirmed {
            PrepareAnswer::Accept(accept)
        } else {
            PrepareAnswer::Reject
        }
    }

    /// The file an upload path is for. A path with no file id is refused; a
    /// file id that was not offered is counted and refused.
    pub fn resolve_upload(&mut self, url: &str) -> (r: Result<UploadTarget, ReceiveError>)
        requires
            (file_id_in(url@) matches Some(id) && !old(self).prepare.files.as_map().contains_key(id))
                ==> old(self).unknown_count < usize::MAX,
        ensures
            final(self).prepare == old(self).prepare,
            final(self).statuses == old(self).statuses,
            match file_id_in(url@) {
                None => r == Err::<UploadTarget, ReceiveError>(ReceiveError::MissingFileId)
                    && final(self).unknown_count == old(self).unknown_count,
                Some(id) => if old(self).prepare.files.as_map().contains_key(id) {
                    &&& r matches Ok(t)
                    &&& t.file_id@ == id
                    &&& t.file_path@ == old(self).prepare.files.as_map()[id].file_name@
                    &&& t.size == old(self).prepare.files.as_map()[id].size
                    &&& final(self).unknown_count == old(self).unknown_count
                } else {
                    &&& r == Err::<UploadTarget, ReceiveError>(ReceiveError::UnknownFile)
                    &&& final(self).unknown_count == old(self).unknown_count + 1
                },
            },
    {
        let file_id = match file_id_of(url) {
            Some(id) => id,
            None => return Err(ReceiveError::MissingFileId),
        };
        match self.prepare.files.get(&file_id) {
            Some(info) => {
                let file_path = info.file_name.clone();
                let size = info.size;
                Ok(UploadTarget { file_path, size, file_id })
            },
            None => {
                self.unknown_count = self.unknown_count + 1;
                Err(ReceiveError::UnknownFile)
            },
        }
    }

    /// The upload of `file_id` has begun.
    pub fn mark_downloading(&mut self, file_id: String)
        ensures
            final(self).prepare == old(self).prepare,
            final(self).unknown_count == old(self).unknown_count,
            final(self).statuses.as_map().dom() == old(self).statuses.as_map().dom().insert(
                file_id@,
            ),
            final(self).statuses.as_map()[file_id@]@ == DOWNLOADING@,
            forall|k: Seq<char>|
                k != file_id@ && #[trigger] old(self).statuses.as_map().contains_key(k)
                    ==> final(self).statuses.as_map()[k] == old(self).statuses.as_map()[k],
    {
        self.statuses.insert(file_id, String::from_str(DOWNLOADING));
    }

    /// The upload of `file_id` is complete.
    pub fn mark_received(&mut self, file_id: String)
        ensures
            final(self).prepare == old(self).prepare,
            final(self).unknown_count == old(self).unknown_count,
            final(self).statuses.as_map().dom() == old(self).statuses.as_map().dom().insert(
                file_id@,
            ),
            final(self).statuses.as_map()[file_id@]@ == RECEIVED@,
            forall|k: Seq<char>|
                k != file_id@ && #[trigger] old(self).statuses.as_map().contains_key(k)
                    ==> final(self).statuses.as_map()[k] == old(self).statuses.as_map()[k],
    {
        self.statuses.insert(file_id, String::from_str(RECEIVED));
    }

    /// The table of offered files: a number from 1, the name, the size in
    /// its unit, the type, the sender's alias and the status ("" when none).
    pub fn rows(&self) -> (rows: Vec<TableRow>)
        ensures
            rows@.len() == self.prepare.files.pairs().len(),
            forall|i: int|
                0 <= i < rows@.len() ==> row_shows(
                    #[trigger] rows@[i],
                    i,
                    self.prepare.files.pairs()[i].0,
                    self.prepare.files.pairs()[i].1,
                    self.prepare.info.alias@,
                    self.statuses.as_map(),
                ),
    {
        let n = self.prepare.files.len();
        let mut rows: Vec<TableRow> = Vec::new();
        let mut i: usize = 0;
        while i < n
            invariant
                n == self.prepare.files.pairs().len(),
                i <= n,
                rows@.len() == i,
                forall|j: int|
                    0 <= j < i ==> row_shows(
                        #[trigger] rows@[j],
                        j,
                        self.prepare.files.pairs()[j].0,
                        self.prepare.files.pairs()[j].1,
                        self.prepare.info.alias@,
                        self.statuses.as_map(),
                    ),
            decreases n - i,
        {
            let (id, info) = self.prepare.files.entry(i);
            let mut digits: Vec<char> = Vec::new();
            push_decimal(&mut digits, (i as u128) + 1);
            let status = match self.statuses.get(id) {
                Some(s) => s.clone(),
                None => String::new(),
            };
            let row = TableRow {
                number: string_from(digits.as_slice()),
                file_name: info.file_name.clone(),
                size: format_size(info.size),
                file_type: info.file_type.clone(),
                from: self.prepare.info.alias.clone(),
                status,
            };
            rows.push(row);
            i = i + 1;
        }
        rows
    }
}

/// Row `i` of the table shows the file `info` offered under `key`.
pub open spec fn row_shows(
    row: TableRow,
    i: int,
    key: Seq<char>,
    info: FileInfo,
    alias: Seq<char>,
    statuses: Map<Seq<char>, String>,
) -> bool {
    &&& row.number@ == decimal((i + 1) as nat)
    &&& row.file_name@ == info.file_name@
    &&& row.size@ == storage_text(info.size as nat)
    &&& row.file_type@ == info.file_type@
    &&& row.from@ == alias
    &&& row.status@ == if statuses.contains_key(key) {
        statuses[key]@
    } else {
        Seq::<char>::empty()
    }
}

} // verus!


verus! {

/// The path a sender builds for an upload is one the receiver takes for an
/// upload, and the file id the receiver reads from it is the one the sender
/// put in, provided the session id and the file id hold neither `?` nor `&`.
pub proof fn law_upload_path_names_its_file(session_id: Seq<char>, file_id: Seq<char>, token: Seq<char>)
    requires
        !session_id.contains('?'),
        !session_id.contains('&'),
        !file_id.contains('?'),
        !file_id.contains('&'),
    ensures
        route_of(crate::protocol::upload_path(session_id, file_id, token), true) == Route::Upload,
        file_id_in(crate::protocol::upload_path(session_id, file_id, token)) == Some(file_id),
{
    reveal_strlit("/api/localsend/v2/upload?");
    reveal_strlit("/api/localsend/v2/prepare-upload");
    reveal_strlit("sessionId=");
    reveal_strlit("&fileId=");
    reveal_strlit("&token=");
    reveal_strlit("fileId=");
    let p = UPLOAD_PREFFIX@;
    let sid = "sessionId="@;
    let fid = "fileId="@;
    let url = crate::protocol::upload_path(session_id, file_id, token);
    let tail = seq!['&'] + "token="@ + token;
    let q = sid + session_id + seq!['&'] + fid + file_id + "&token="@ + token;
    assert("&fileId="@ =~= seq!['&'] + fid);
    assert(url =~= p + q);
    // The route.
    assert(url.take(p.len() as int) =~= p);
    assert(url[18] != PREPARE_UPLOAD_URI@[18]);
    // The query: what follows the first `?`, up to a second one.
    assert forall|j: int| 0 <= j < 24 implies in_class(CharClass::Not('?'), #[trigger] url[j]) by {
        assert(url[j] == p[j]);
    }
    assert(url[24] == '?');
    crate::text::lemma_leading(url, CharClass::Not('?'), 24);
    assert(url.skip(25) =~= q);
    let head = sid + session_id + seq!['&'] + fid + file_id;
    assert(q =~= head + "&token="@ + token);
    assert forall|j: int| 0 <= j < head.len() implies in_class(CharClass::Not('?'), #[trigger] head[j]) by {
        if 10 <= j < 10 + session_id.len() {
            assert(head[j] == session_id[j - 10]);
        } else if 11 + 7 + session_id.len() <= j {
            assert(head[j] == file_id[j - (18 + session_id.len() as int)]);
        }
    }
    crate::text::lemma_leading_concat(head, "&token="@ + token, CharClass::Not('?'));
    assert(head + ("&token="@ + token) =~= q);
    let m = leading(q, CharClass::Not('?'));
    assert(m >= head.len());
    crate::text::lemma_leading_bound(q, CharClass::Not('?'));
    let query = q.take(m as int);
    assert(query.len() == m);
    // The first field of the query is the session's.
    let first = sid + session_id;
    let lfirst: int = first.len() as int;
    assert forall|j: int| 0 <= j < first.len() implies in_class(CharClass::Not('&'), #[trigger] query[j]) by {
        assert(query[j] == q[j]);
        if 10 <= j {
            assert(q[j] == session_id[j - 10]);
        }
    }
    assert(query[lfirst] == '&');
    crate::text::lemma_leading(query, CharClass::Not('&'), lfirst);
    assert(query.take(lfirst).take(7)[0] == 's');
    assert(!begins_with(query.take(lfirst), fid));
    // The second field is the file id's.
    let rest = query.skip(lfirst + 1);
    let lf: int = (fid.len() + file_id.len()) as int;
    assert forall|j: int| 0 <= j < lf implies in_class(
        CharClass::Not('&'),
        #[trigger] rest[j],
    ) by {
        assert(rest[j] == q[lfirst + 1 + j]);
        if 7 <= j {
            assert(q[lfirst + 1 + j] == file_id[j - 7]);
        }
    }
    assert(rest[lf] == '&');
    crate::text::lemma_leading(rest, CharClass::Not('&'), lf);
    assert(rest.take(lf) =~= fid + file_id);
    assert((fid + file_id).take(7) =~= fid);
    assert((fid + file_id).skip(7) =~= file_id);
    assert(param_after(rest, fid) == Some(file_id));
    assert(param_after(query, fid) == Some(file_id));
}

/// Only a `POST` is answered: any other request is ignored whatever its
/// path. A `POST` is an offer exactly when its path is the prepare-upload
/// path, and an upload exactly when its path begins with the upload prefix
/// and is not the prepare-upload path.
pub proof fn law_route(url: Seq<char>)
    ensures
        route_of(url, false) == Route::Ignore,
        (route_of(url, true) == Route::PrepareUpload) <==> url == PREPARE_UPLOAD_URI@,
        (route_of(url, true) == Route::Upload) <==> (url != PREPARE_UPLOAD_URI@ && url.len()
            >= UPLOAD_PREFFIX@.len() && url.take(UPLOAD_PREFFIX@.len() as int) == UPLOAD_PREFFIX@),
{
}

} // verus!
