//! The HTTP/1.1 client side of an upload: the head of a `POST` request, and
//! a reader that takes a response apart line by line and block by block.
//!
//! The reader decides; whoever owns the connection reads. It asks for a line
//! (up to and including `\n`) or for an exact number of bytes, is handed what
//! was read, and ends with the body or the reason the response was refused.
use vstd::prelude::*;
use crate::text::{
    digit_of, digits_value, in_class, is_white, lemma_decimal, lemma_leading, lemma_trailing,
    law_decimal_reads_back, leading, CharClass,
    before_char, begins_with, chars_of, contains, decimal, field_after_sep, occurs,
    parse_number, parse_number_exec, push_chars, push_decimal, second_field, second_word,
    starts_with, trim, trimmed, word_two, NumberError,
};

verus! {

/// Why a response was refused.
#[derive(Debug, Clone, Copy, PartialEq, Eq, Structural)]
pub enum RequestError {
    /// The status code, 300 or more and not 403.
    StatusCode(usize),
    /// Status 403: the receiver rejected the transfer.
    Rejection,
    /// The response does not have the form this client reads.
    Response,
    /// A number in the response (status, length or chunk size) is not one.
    Number(NumberError),
}

/// `POST <path> HTTP/1.1`, a `Content-Length` header, and the empty line.
pub open spec fn request_head_text(path: Seq<char>, content_len: nat) -> Seq<char> {
    "POST "@ + path + " HTTP/1.1\r\nContent-Length: "@ + decimal(content_len) + "\r\n\r\n"@
}

/// The head of a request that posts `content_len` bytes to `path`.
pub fn request_head(path: &str, content_len: u64) -> (head: String)
    ensures
        head@ == request_head_text(path@, content_len as nat),
{
    let mut head = String::from_str("POST ");
    head.append(path);
    head.append(" HTTP/1.1\r\nContent-Length: ");
    let mut digits: Vec<char> = Vec::new();
    push_decimal(&mut digits, content_len as u128);
    push_chars(&mut head, digits.as_slice());
    head.append("\r\n\r\n");
    head
}

/// What `str::to_lowercase` gives for `s`: Unicode's lowercase mapping.
pub uninterp spec fn lowercase(s: Seq<char>) -> Seq<char>;

/// Every character of `s` is ASCII.
pub open spec fn ascii_text(s: Seq<char>) -> bool {
    forall|i: int| 0 <= i < s.len() ==> (#[trigger] s[i] as u32) < 128
}

/// `c` with `A` to `Z` turned into `a` to `z`.
pub open spec fn ascii_lower_char(c: char) -> char {
    if 65 <= (c as u32) <= 90 {
        ((c as u32) + 32) as char
    } else {
        c
    }
}

/// `s` with every ASCII capital letter made small.
pub open spec fn ascii_lowercase(s: Seq<char>) -> Seq<char> {
    Seq::new(s.len(), |i: int| ascii_lower_char(s[i]))
}

/// `str::to_lowercase`: Unicode's lowercase mapping, named; on ASCII text it
/// only makes `A` to `Z` small, as Unicode maps those letters and no other
/// ASCII character.
#[verifier::external_body]
fn to_lowercase(s: &str) -> (r: String)
    ensures
        r@ == lowercase(s@),
        ascii_text(s@) ==> r@ == ascii_lowercase(s@),
{
    s.to_lowercase()
}

/// Where the reading of a response stands.
#[derive(Debug, Clone, Copy, PartialEq, Eq, Structural)]
pub enum ResponseState {
    /// Waits for the status line.
    StatusLine,
    /// Waits for a header line; what the headers said so far.
    Headers { chunked: bool, content_length: Option<usize> },
    /// Waits for the whole body, of this many bytes.
    Body(usize),
    /// Waits for the line that gives a chunk's size.
    ChunkSize,
    /// Waits for a chunk of this many bytes.
    ChunkData(usize),
    /// Waits for the line break that closes a chunk.
    ChunkEnd,
    /// The body is complete.
    Done,
    /// The response was refused.
    Failed(RequestError),
}

/// What the reader needs next.
#[derive(Debug, Clone, Copy, PartialEq, Eq, Structural)]
pub enum ReadNeed {
    /// One line, up to and including `\n` (empty at the end of the stream).
    Line,
    /// Exactly this many bytes.
    Bytes(usize),
    /// Nothing: the response is read.
    Nothing,
}

/// What the reader needs in state `s`.
pub open spec fn need_of(s: ResponseState) -> ReadNeed {
    match s {
        ResponseState::StatusLine => ReadNeed::Line,
        ResponseState::Headers { .. } => ReadNeed::Line,
        ResponseState::ChunkSize => ReadNeed::Line,
        ResponseState::ChunkEnd => ReadNeed::Line,
        ResponseState::Body(n) => ReadNeed::Bytes(n),
        ResponseState::ChunkData(n) => ReadNeed::Bytes(n),
        _ => ReadNeed::Nothing,
    }
}

/// The state after the status line: the code is the second word; 403 is a
/// rejection, any other code from 300 on is refused.
pub open spec fn after_status_line(line: Seq<char>) -> ResponseState {
    match second_word(line) {
        None => ResponseState::Failed(RequestError::Response),
        Some(w) => match parse_number(w, 10) {
            Err(e) => ResponseState::Failed(RequestError::Number(e)),
            Ok(code) => if code == 403 {
                ResponseState::Failed(RequestError::Rejection)
            } else if code >= 300 {
                ResponseState::Failed(RequestError::StatusCode(code as usize))
            } else {
                ResponseState::Headers { chunked: false, content_length: None }
            },
        },
    }
}

/// A line that says the body comes in chunks: in lowercase it holds both
/// `transfer-encoding` and `chunked`, whatever the case of its letters.
pub open spec fn says_chunked(line: Seq<char>) -> bool {
    let lower = if ascii_text(line) {
        ascii_lowercase(line)
    } else {
        lowercase(line)
    };
    occurs(lower, "transfer-encoding"@) && occurs(lower, "chunked"@)
}

/// The state after a header line. The empty line ends the headers: chunks
/// win over a length, a length of 0 is an empty body, and with neither the
/// response is refused. A `Content-Length` line gives the length as the
/// trimmed text after its first `:`, up to a second one.
pub open spec fn after_header_line(
    chunked: bool,
    content_length: Option<usize>,
    line: Seq<char>,
) -> ResponseState {
    if line == "\r\n"@ {
        if chunked {
            ResponseState::ChunkSize
        } else {
            match content_length {
                Some(n) => if n > 0 {
                    ResponseState::Body(n)
                } else {
                    ResponseState::Done
                },
                None => ResponseState::Failed(RequestError::Response),
            }
        }
    } else if says_chunked(line) {
        ResponseState::Headers { chunked: true, content_length }
    } else if begins_with(line, "Content-Length"@) {
        match second_field(line, ':') {
            None => ResponseState::Failed(RequestError::Response),
            Some(f) => match parse_number(trimmed(f), 10) {
                Err(e) => ResponseState::Failed(RequestError::Number(e)),
                Ok(n) => ResponseState::Headers { chunked, content_length: Some(n as usize) },
            },
        }
    } else {
        ResponseState::Headers { chunked, content_length }
    }
}

/// The state after a chunk-size line: the size is the hexadecimal number
/// before any `;`, trimmed; size 0 ends the body.
pub open spec fn after_chunk_size_line(line: Seq<char>) -> ResponseState {
    match parse_number(trimmed(before_char(line, ';')), 16) {
        Err(e) => ResponseState::Failed(RequestError::Number(e)),
        Ok(k) => if k == 0 {
            ResponseState::Done
        } else {
            ResponseState::ChunkData(k as usize)
        },
    }
}

/// The state after a line is read in state `s`.
pub open spec fn after_line(s: ResponseState, line: Seq<char>) -> ResponseState {
    match s {
        ResponseState::StatusLine => after_status_line(line),
        ResponseState::Headers { chunked, content_length } => after_header_line(
            chunked,
            content_length,
            line,
        ),
        ResponseState::ChunkSize => after_chunk_size_line(line),
        ResponseState::ChunkEnd => ResponseState::ChunkSize,
        _ => s,
    }
}

/// The state after the bytes asked for are read in state `s`.
pub open spec fn after_bytes(s: ResponseState) -> ResponseState {
    match s {
        ResponseState::Body(_) => ResponseState::Done,
        ResponseState::ChunkData(_) => ResponseState::ChunkEnd,
        _ => s,
    }
}

/// The body after the bytes `data` are read in state `s`: the whole body, or
/// one more chunk.
pub open spec fn body_after_bytes(s: ResponseState, body: Seq<u8>, data: Seq<u8>) -> Seq<u8> {
    match s {
        ResponseState::Body(_) => data,
        ResponseState::ChunkData(_) => body + data,
        _ => body,
    }
}

/// Reads one response.
#[derive(Debug)]
pub struct ResponseReader {
    pub state: ResponseState,
    pub body: Vec<u8>,
}

fn line_is_crlf(v: &Vec<char>) -> (b: bool)
    ensures
        b == (v@ == "\r\n"@),
{
    proof {
        reveal_strlit("\r\n");
    }
    let b = v.len() == 2 && v[0] == '\r' && v[1] == '\n';
    if b {
        assert(v@ =~= "\r\n"@);
    }
    b
}

impl ResponseReader {
    /// A reader that waits for the status line, with an empty body.
    pub fn new() -> (r: ResponseReader)
        ensures
            r.state == ResponseState::StatusLine,
            r.body@ == Seq::<u8>::empty(),
    {
        ResponseReader { state: ResponseState::StatusLine, body: Vec::new() }
    }

    /// What the reader needs next.
    pub fn need(&self) -> (n: ReadNeed)
        ensures
            n == need_of(self.state),
    {
        match self.state {
            ResponseState::StatusLine => ReadNeed::Line,
            ResponseState::Headers { .. } => ReadNeed::Line,
            ResponseState::ChunkSize => ReadNeed::Line,
            ResponseState::ChunkEnd => ReadNeed::Line,
            ResponseState::Body(n) => ReadNeed::Bytes(n),
            ResponseState::ChunkData(n) => ReadNeed::Bytes(n),
            _ => ReadNeed::Nothing,
        }
    }

    /// Takes in a line that was asked for.
    pub fn take_line(&mut self, line: &str)
        requires
            need_of(old(self).state) == ReadNeed::Line,
        ensures
            final(self).state == after_line(old(self).state, line@),
            final(self).body@ == old(self).body@,
    {
        let v = chars_of(line);
        let next = match self.state {
            ResponseState::StatusLine => status_line_state(&v),
            ResponseState::Headers { chunked, content_length } => header_line_state(
                chunked,
                content_length,
                line,
                &v,
            ),
            ResponseState::ChunkSize => chunk_size_state(&v),
            _ => ResponseState::ChunkSize,
        };
        self.state = next;
    }

    /// Takes in the bytes that were asked for.
    pub fn take_bytes(&mut self, data: Vec<u8>)
        requires
            need_of(old(self).state) == ReadNeed::Bytes(data@.len() as usize),
            old(self).body@.len() + data@.len() <= usize::MAX,
        ensures
            final(self).state == after_bytes(old(self).state),
            final(self).body@ == body_after_bytes(old(self).state, old(self).body@, data@),
    {
        match self.state {
            ResponseState::Body(_) => {
                self.body = data;
                self.state = ResponseState::Done;
            },
            _ => {
                let mut data = data;
                self.body.append(&mut data);
                self.state = ResponseState::ChunkEnd;
            },
        }
    }

    /// The body, or why the response was refused.
    pub fn finish(self) -> (r: Result<Vec<u8>, RequestError>)
        requires
            need_of(self.state) == ReadNeed::Nothing,
        ensures
            match self.state {
                ResponseState::Failed(e) => r == Err::<Vec<u8>, RequestError>(e),
                _ => r matches Ok(b) && b@ == self.body@,
            },
    {
        match self.state {
            ResponseState::Failed(e) => Err(e),
            _ => Ok(self.body),
        }
    }
}

fn status_line_state(v: &Vec<char>) -> (s: ResponseState)
    ensures
        s == after_status_line(v@),
{
    match word_two(v.as_slice()) {
        None => ResponseState::Failed(RequestError::Response),
        Some(w) => match parse_number_exec(w.as_slice(), 10) {
            Err(e) => ResponseState::Failed(RequestError::Number(e)),
            Ok(code) => if code == 403 {
                ResponseState::Failed(RequestError::Rejection)
            } else if code >= 300 {
                ResponseState::Failed(RequestError::StatusCode(code))
            } else {
                ResponseState::Headers { chunked: false, content_length: None }
            },
        },
    }
}

fn header_line_state(
    chunked: bool,
    content_length: Option<usize>,
    line: &str,
    v: &Vec<char>,
) -> (s: ResponseState)
    requires
        v@ == line@,
    ensures
        s == after_header_line(chunked, content_length, v@),
{
    if line_is_crlf(v) {
        if chunked {
            return ResponseState::ChunkSize;
        }
        return match content_length {
            Some(n) => if n > 0 {
                ResponseState::Body(n)
            } else {
                ResponseState::Done
            },
            None => ResponseState::Failed(RequestError::Response),
        };
    }
    let lower = chars_of(to_lowercase(line).as_str());
    let te = chars_of("transfer-encoding");
    let ch = chars_of("chunked");
    if contains(lower.as_slice(), te.as_slice()) && contains(lower.as_slice(), ch.as_slice()) {
        return ResponseState::Headers { chunked: true, content_length };
    }
    let cl = chars_of("Content-Length");
    if starts_with(v.as_slice(), cl.as_slice()) {
        match field_after_sep(v.as_slice(), ':') {
            None => ResponseState::Failed(RequestError::Response),
            Some(f) => {
                let t = trim(f.as_slice());
                match parse_number_exec(t.as_slice(), 10) {
                    Err(e) => ResponseState::Failed(RequestError::Number(e)),
                    Ok(n) => ResponseState::Headers { chunked, content_length: Some(n) },
                }
            },
        }
    } else {
        ResponseState::Headers { chunked, content_length }
    }
}

fn chunk_size_state(v: &Vec<char>) -> (s: ResponseState)
    ensures
        s == after_chunk_size_line(v@),
{
    let f = crate::text::before_sep(v.as_slice(), ';');
    let t = trim(f.as_slice());
    match parse_number_exec(t.as_slice(), 16) {
        Err(e) => ResponseState::Failed(RequestError::Number(e)),
        Ok(k) => if k == 0 {
            ResponseState::Done
        } else {
            ResponseState::ChunkData(k)
        },
    }
}

} // verus!

verus! {

/// Chunks outrank a length: once a header line has said the body comes in
/// chunks, no later header line takes that back, and the end of the headers
/// leads to the chunks whatever `Content-Length` said.
pub proof fn law_chunked_outranks_length(content_length: Option<usize>, line: Seq<char>)
    ensures
        match after_header_line(true, content_length, line) {
            ResponseState::Headers { chunked, .. } => chunked,
            ResponseState::ChunkSize => line == "\r\n"@,
            ResponseState::Failed(_) => true,
            _ => false,
        },
        line == "\r\n"@ ==> after_header_line(true, content_length, line) == ResponseState::ChunkSize,
{
}

/// Reading one chunk: a size line that gives the size of `data`, then
/// `data`, then the line that closes the chunk, appends `data` to the body
/// and waits for the next size line.
pub proof fn law_chunk_appends(body: Seq<u8>, size_line: Seq<char>, data: Seq<u8>, end_line: Seq<char>)
    requires
        after_line(ResponseState::ChunkSize, size_line) == ResponseState::ChunkData(
            data.len() as usize,
        ),
    ensures
        ({
            let s1 = after_line(ResponseState::ChunkSize, size_line);
            &&& need_of(s1) == ReadNeed::Bytes(data.len() as usize)
            &&& body_after_bytes(s1, body, data) == body + data
            &&& after_line(after_bytes(s1), end_line) == ResponseState::ChunkSize
        }),
{
}

/// A body of known length: once all its bytes are read the response is
/// complete and the body is exactly those bytes, whatever came before.
pub proof fn law_length_body_is_data(n: usize, body: Seq<u8>, data: Seq<u8>)
    requires
        data.len() == n,
    ensures
        need_of(ResponseState::Body(n)) == ReadNeed::Bytes(n),
        after_bytes(ResponseState::Body(n)) == ResponseState::Done,
        body_after_bytes(ResponseState::Body(n), body, data) == data,
{
}

/// A status line refuses the response exactly when its code is 300 or more,
/// or is not a number; 403 is told apart as a rejection.
pub proof fn law_status_refusal(line: Seq<char>, code: nat)
    requires
        (second_word(line) matches Some(w) && parse_number(w, 10) == Ok::<nat, NumberError>(code)),
    ensures
        code == 403 ==> after_status_line(line) == ResponseState::Failed(RequestError::Rejection),
        code >= 300 && code != 403 ==> after_status_line(line) == ResponseState::Failed(
            RequestError::StatusCode(code as usize),
        ),
        code < 300 ==> (after_status_line(line) == (ResponseState::Headers {
            chunked: false,
            content_length: None,
        })),
{
}

} // verus!

verus! {

/// Whether a line says chunks does not depend on the case of its letters.
pub proof fn law_chunked_any_case(a: Seq<char>, b: Seq<char>)
    requires
        ascii_text(a),
        ascii_text(b),
        ascii_lowercase(a) == ascii_lowercase(b),
    ensures
        says_chunked(a) == says_chunked(b),
{
}

/// The lowercase hexadecimal numeral of `n`, as `format!("{:x}", n)` writes it.
pub open spec fn hex_numeral(n: nat) -> Seq<char>
    decreases n,
{
    if n < 16 {
        seq![crate::protocol::hex_digit(n)]
    } else {
        hex_numeral(n / 16).push(crate::protocol::hex_digit(n % 16))
    }
}

/// What a connection hands the reader: a line, or a block of bytes.
pub enum ReadEvent {
    Line(Seq<char>),
    Bytes(Seq<u8>),
}

/// The state and body after one event; an event the reader did not ask for
/// changes nothing.
pub open spec fn step(s: ResponseState, body: Seq<u8>, e: ReadEvent) -> (ResponseState, Seq<u8>) {
    match e {
        ReadEvent::Line(l) => if need_of(s) == ReadNeed::Line {
            (after_line(s, l), body)
        } else {
            (s, body)
        },
        ReadEvent::Bytes(d) => if need_of(s) == ReadNeed::Bytes(d.len() as usize) {
            (after_bytes(s), body_after_bytes(s, body, d))
        } else {
            (s, body)
        },
    }
}

/// The state and body after the events `events`, one after the other.
pub open spec fn run(s: ResponseState, body: Seq<u8>, events: Seq<ReadEvent>) -> (
    ResponseState,
    Seq<u8>,
)
    decreases events.len(),
{
    if events.len() == 0 {
        (s, body)
    } else {
        let (s2, b2) = step(s, body, events[0]);
        run(s2, b2, events.drop_first())
    }
}

/// A chunked body as a sender writes it: each chunk's size in hexadecimal
/// and a line break, the chunk, a line break; then `0` and a line break.
pub open spec fn chunked_events(chunks: Seq<Seq<u8>>) -> Seq<ReadEvent>
    decreases chunks.len(),
{
    if chunks.len() == 0 {
        seq![ReadEvent::Line("0\r\n"@)]
    } else {
        seq![
            ReadEvent::Line(hex_numeral(chunks[0].len()) + "\r\n"@),
            ReadEvent::Bytes(chunks[0]),
            ReadEvent::Line("\r\n"@),
        ] + chunked_events(chunks.drop_first())
    }
}

proof fn lemma_run_concat(s: ResponseState, body: Seq<u8>, e1: Seq<ReadEvent>, e2: Seq<ReadEvent>)
    ensures
        run(s, body, e1 + e2) == ({
            let (s1, b1) = run(s, body, e1);
            run(s1, b1, e2)
        }),
    decreases e1.len(),
{
    if e1.len() > 0 {
        let (s2, b2) = step(s, body, e1[0]);
        assert((e1 + e2).drop_first() =~= e1.drop_first() + e2);
        lemma_run_concat(s2, b2, e1.drop_first(), e2);
    } else {
        assert(e1 + e2 =~= e2);
    }
}

proof fn lemma_hex_digit(d: nat)
    requires
        d < 16,
    ensures
        digit_of(crate::protocol::hex_digit(d), 16) == Some(d),
        !is_white(crate::protocol::hex_digit(d)),
        crate::protocol::hex_digit(d) != ';',
        crate::protocol::hex_digit(d) != '+',
        crate::protocol::hex_digit(d) != '-',
{
}

proof fn lemma_hex_numeral(n: nat)
    ensures
        hex_numeral(n).len() >= 1,
        forall|i: int|
            0 <= i < hex_numeral(n).len() ==> in_class(CharClass::Digit(16), #[trigger] hex_numeral(n)[i])
                && !is_white(hex_numeral(n)[i]) && hex_numeral(n)[i] != ';' && hex_numeral(n)[i] != '+'
                && hex_numeral(n)[i] != '-',
        digits_value(hex_numeral(n), 16) == n,
    decreases n,
{
    if n < 16 {
        lemma_hex_digit(n);
        let h = hex_numeral(n);
        assert(h.drop_last() =~= Seq::<char>::empty());
        assert(h.last() == crate::protocol::hex_digit(n));
        assert(digits_value(h.drop_last(), 16) == 0);
        assert(digits_value(h, 16) == n);
    } else {
        lemma_hex_numeral(n / 16);
        lemma_hex_digit(n % 16);
        let h = hex_numeral(n);
        assert(h.drop_last() =~= hex_numeral(n / 16));
        assert(h.last() == crate::protocol::hex_digit(n % 16));
        assert(digits_value(h, 16) == (n / 16) * 16 + n % 16);
        assert forall|i: int| 0 <= i < h.len() implies in_class(CharClass::Digit(16), #[trigger] h[i])
            && !is_white(h[i]) && h[i] != ';' && h[i] != '+' && h[i] != '-' by {
            if i < h.len() - 1 {
                assert(h[i] == hex_numeral(n / 16)[i]);
            }
        }
    }
}

/// A chunk-size line written as `format!("{:x}\r\n", k)` is read as size `k`.
pub proof fn law_hex_size_line(k: nat)
    requires
        k <= usize::MAX,
    ensures
        after_chunk_size_line(hex_numeral(k) + "\r\n"@) == if k == 0 {
            ResponseState::Done
        } else {
            ResponseState::ChunkData(k as usize)
        },
{
    reveal_strlit("\r\n");
    let h = hex_numeral(k);
    lemma_hex_numeral(k);
    let line = h + "\r\n"@;
    assert(line.len() == h.len() + 2);
    assert(line[h.len() as int] == '\r');
    assert(line[h.len() + 1int] == '\n');
    // No `;`: the whole line is the size field.
    assert forall|j: int| 0 <= j < line.len() implies in_class(CharClass::Not(';'), #[trigger] line[j]) by {
        if j < h.len() {
            assert(line[j] == h[j]);
        }
    }
    lemma_leading(line, CharClass::Not(';'), line.len() as int);
    assert(before_char(line, ';') =~= line);
    // Trimming leaves the numeral.
    assert(line[0] == h[0]);
    lemma_leading(line, CharClass::White, 0);
    assert(line.skip(0) =~= line);
    assert forall|j: int| line.len() - 2 <= j < line.len() implies in_class(
        CharClass::White,
        #[trigger] line[j],
    ) by {}
    assert(line[line.len() - 1 - 2] == h[h.len() - 1]);
    lemma_trailing(line, CharClass::White, 2);
    assert(trimmed(line) =~= h);
    // The numeral parses back to `k`.
    lemma_leading(h, CharClass::Digit(16), h.len() as int);
    assert(h.take(h.len() as int) =~= h);
    assert(h[0] != '+');
    assert(parse_number(h, 16) == Ok::<nat, NumberError>(k));
}

/// A chunked body written as a sender writes it, from the first size line to
/// the `0` line, is read whole: the reader is done, and the body is what it
/// held before followed by every chunk in order.
pub proof fn law_chunked_body_round_trip(body: Seq<u8>, chunks: Seq<Seq<u8>>)
    requires
        forall|i: int| 0 <= i < chunks.len() ==> 0 < #[trigger] chunks[i].len() <= usize::MAX,
    ensures
        run(ResponseState::ChunkSize, body, chunked_events(chunks)) == (
            ResponseState::Done,
            body + chunks.flatten(),
        ),
    decreases chunks.len(),
{
    if chunks.len() == 0 {
        reveal_strlit("0\r\n");
        reveal_strlit("\r\n");
        law_hex_size_line(0);
        assert(hex_numeral(0) =~= seq!['0']);
        assert(hex_numeral(0) + "\r\n"@ =~= "0\r\n"@);
        let e = chunked_events(chunks);
        assert(e[0] == ReadEvent::Line("0\r\n"@));
        assert(step(ResponseState::ChunkSize, body, e[0]) == (ResponseState::Done, body));
        assert(e.drop_first() =~= Seq::<ReadEvent>::empty());
        assert(run(ResponseState::Done, body, e.drop_first()) == (ResponseState::Done, body));
        assert(body + chunks.flatten() =~= body);
    } else {
        let c = chunks[0];
        let k = c.len();
        law_hex_size_line(k);
        let first = seq![
            ReadEvent::Line(hex_numeral(k) + "\r\n"@),
            ReadEvent::Bytes(c),
            ReadEvent::Line("\r\n"@),
        ];
        assert(chunked_events(chunks) =~= first + chunked_events(chunks.drop_first()));
        lemma_run_concat(ResponseState::ChunkSize, body, first, chunked_events(chunks.drop_first()));
        let s1 = ResponseState::ChunkData(k as usize);
        assert(step(ResponseState::ChunkSize, body, first[0]) == (s1, body));
        let f1 = first.drop_first();
        assert(f1[0] == ReadEvent::Bytes(c));
        assert(step(s1, body, f1[0]) == (ResponseState::ChunkEnd, body + c));
        let f2 = f1.drop_first();
        assert(f2[0] == ReadEvent::Line("\r\n"@));
        assert(step(ResponseState::ChunkEnd, body + c, f2[0]) == (ResponseState::ChunkSize, body + c));
        assert(f2.drop_first() =~= Seq::<ReadEvent>::empty());
        assert(run(ResponseState::ChunkSize, body + c, f2.drop_first()) == (ResponseState::ChunkSize, body + c));
        assert(run(ResponseState::ChunkEnd, body + c, f2) == (ResponseState::ChunkSize, body + c));
        assert(run(s1, body, f1) == (ResponseState::ChunkSize, body + c));
        assert(run(ResponseState::ChunkSize, body, first) == (ResponseState::ChunkSize, body + c));
        assert forall|i: int| 0 <= i < chunks.drop_first().len() implies 0 < #[trigger] chunks.drop_first()[i].len()
            <= usize::MAX by {
            assert(chunks.drop_first()[i] == chunks[i + 1]);
        }
        law_chunked_body_round_trip(body + c, chunks.drop_first());
        assert(body + c + chunks.drop_first().flatten() =~= body + chunks.flatten());
    }
}

} // verus!

verus! {

/// The head of a request announces exactly the length it is given: between
/// `Content-Length: ` and the closing empty line stand decimal digits,
/// without a leading zero, whose value is `content_len`, and which read back
/// as `content_len` wherever it fits in `usize`.
pub proof fn law_request_head_length(path: Seq<char>, content_len: nat)
    ensures
        ({
            let h = request_head_text(path, content_len);
            let pre = "POST "@ + path + " HTTP/1.1\r\nContent-Length: "@;
            let d = h.subrange(pre.len() as int, h.len() - 4);
            &&& pre.len() + 5 <= h.len()
            &&& h.take(pre.len() as int) == pre
            &&& h.skip(h.len() - 4) == "\r\n\r\n"@
            &&& forall|i: int| 0 <= i < d.len() ==> 48 <= (#[trigger] d[i]) as u32 <= 57
            &&& digits_value(d, 10) == content_len
            &&& (content_len > 0 ==> d[0] != '0')
            &&& (content_len <= usize::MAX ==> parse_number(d, 10) == Ok::<nat, NumberError>(
                content_len,
            ))
        }),
{
    reveal_strlit("\r\n\r\n");
    lemma_decimal(content_len);
    if content_len <= usize::MAX {
        law_decimal_reads_back(content_len);
    }
    let pre = "POST "@ + path + " HTTP/1.1\r\nContent-Length: "@;
    let d = decimal(content_len);
    let h = request_head_text(path, content_len);
    assert(h =~= pre + d + "\r\n\r\n"@);
    assert(h.take(pre.len() as int) =~= pre);
    assert(h.skip(h.len() - 4) =~= "\r\n\r\n"@);
    assert(h.subrange(pre.len() as int, h.len() - 4) =~= d);
}

/// A `Content-Length` header line written with the decimal numeral of `n`
/// sets the length to `n`, in decimal, whatever the headers said before.
pub proof fn law_content_length_header(chunked: bool, content_length: Option<usize>, n: nat)
    requires
        n <= usize::MAX,
    ensures
        after_line(
            ResponseState::Headers { chunked, content_length },
            "Content-Length: "@ + decimal(n) + "\r\n"@,
        ) == (ResponseState::Headers { chunked, content_length: Some(n as usize) }),
{
    reveal_strlit("Content-Length: ");
    reveal_strlit("Content-Length");
    reveal_strlit("\r\n");
    reveal_strlit("transfer-encoding");
    lemma_decimal(n);
    law_decimal_reads_back(n);
    let d = decimal(n);
    let cl = "Content-Length: "@;
    let line = cl + d + "\r\n"@;
    assert(line.len() == 18 + d.len());
    assert(line != "\r\n"@);
    // Every character is ASCII, none is an `r` of either case, and the only
    // `:` is the one after the name.
    assert forall|j: int| 0 <= j < line.len() implies {
        &&& (#[trigger] line[j] as u32) < 128
        &&& line[j] != 'r'
        &&& line[j] != 'R'
        &&& (line[j] == ':' <==> j == 14)
    } by {
        if j < 16 {
            assert(line[j] == cl[j]);
        } else if j < 16 + d.len() {
            assert(line[j] == d[j - 16]);
            assert(48 <= d[j - 16] as u32 <= 57);
        }
    }
    // No `transfer-encoding`: it has an `r` as its second character.
    let lower = ascii_lowercase(line);
    let te = "transfer-encoding"@;
    assert(ascii_text(line));
    assert(!occurs(lower, te)) by {
        if occurs(lower, te) {
            let i = choose|i: int|
                0 <= i && i + te.len() <= lower.len() && #[trigger] lower.subrange(i, i + te.len()) == te;
            assert(lower.subrange(i, i + te.len())[1] == lower[i + 1]);
            assert(te[1] == 'r');
            assert(line[i + 1] != 'r' && line[i + 1] != 'R');
            assert(lower[i + 1] == ascii_lower_char(line[i + 1]));
        }
    }
    assert(!says_chunked(line));
    assert(line.take(14) =~= "Content-Length"@);
    assert(begins_with(line, "Content-Length"@));
    // The field after the `:`.
    assert forall|j: int| 0 <= j < 14 implies in_class(CharClass::Not(':'), #[trigger] line[j]) by {}
    lemma_leading(line, CharClass::Not(':'), 14);
    let rest = line.skip(15);
    assert(rest =~= seq![' '] + d + "\r\n"@);
    assert forall|j: int| 0 <= j < rest.len() implies in_class(CharClass::Not(':'), #[trigger] rest[j]) by {
        assert(rest[j] == line[j + 15]);
    }
    lemma_leading(rest, CharClass::Not(':'), rest.len() as int);
    assert(rest.take(rest.len() as int) =~= rest);
    assert(second_field(line, ':') == Some(rest));
    // Trimmed, the field is the numeral.
    assert(rest[0] == ' ');
    assert(rest[1] == d[0]);
    lemma_leading(rest, CharClass::White, 1);
    let t = rest.skip(1);
    assert(t =~= d + "\r\n"@);
    assert(t[t.len() - 1] == '\n');
    assert(t[t.len() - 2] == '\r');
    assert(t[t.len() - 3] == d[d.len() - 1]);
    assert forall|j: int| t.len() - 2 <= j < t.len() implies in_class(CharClass::White, #[trigger] t[j]) by {}
    lemma_trailing(t, CharClass::White, 2);
    assert(t.take(t.len() - 2) =~= d);
    assert(trimmed(rest) == d);
}

/// A response whose headers give a length of `n > 0` in decimal: at the end
/// of the headers the reader asks for exactly `n` bytes, and once they are
/// read the response is complete and its body is exactly those bytes.
pub proof fn law_length_header_body(n: nat, body: Seq<u8>, data: Seq<u8>)
    requires
        0 < n <= usize::MAX,
        data.len() == n,
    ensures
        ({
            let s1 = after_line(
                ResponseState::Headers { chunked: false, content_length: None },
                "Content-Length: "@ + decimal(n) + "\r\n"@,
            );
            let s2 = after_line(s1, "\r\n"@);
            &&& s2 == ResponseState::Body(n as usize)
            &&& need_of(s2) == ReadNeed::Bytes(n as usize)
            &&& run(
                ResponseState::Headers { chunked: false, content_length: None },
                body,
                seq![
                    ReadEvent::Line("Content-Length: "@ + decimal(n) + "\r\n"@),
                    ReadEvent::Line("\r\n"@),
                    ReadEvent::Bytes(data),
                ],
            ) == (ResponseState::Done, data)
        }),
{
    law_content_length_header(false, None, n);
    let h0 = ResponseState::Headers { chunked: false, content_length: None };
    let h1 = ResponseState::Headers { chunked: false, content_length: Some(n as usize) };
    let l = "Content-Length: "@ + decimal(n) + "\r\n"@;
    let e = seq![ReadEvent::Line(l), ReadEvent::Line("\r\n"@), ReadEvent::Bytes(data)];
    assert(after_line(h1, "\r\n"@) == ResponseState::Body(n as usize));
    assert(step(h0, body, e[0]) == (h1, body));
    let e1 = e.drop_first();
    assert(e1[0] == ReadEvent::Line("\r\n"@));
    assert(step(h1, body, e1[0]) == (ResponseState::Body(n as usize), body));
    let e2 = e1.drop_first();
    assert(e2[0] == ReadEvent::Bytes(data));
    assert(step(ResponseState::Body(n as usize), body, e2[0]) == (ResponseState::Done, data));
    assert(e2.drop_first() =~= Seq::<ReadEvent>::empty());
    assert(run(ResponseState::Done, data, e2.drop_first()) == (ResponseState::Done, data));
    assert(run(ResponseState::Body(n as usize), body, e2) == (ResponseState::Done, data));
    assert(run(h1, body, e1) == (ResponseState::Done, data));
}

} // verus!
