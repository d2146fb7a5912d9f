use localsend_cli::http::{request_head, ReadNeed, RequestError, ResponseReader, ResponseState};
use localsend_cli::text::NumberError;

/// Feeds a whole response to a reader, as a connection would hand it over.
fn read_all(bytes: &[u8]) -> Result<Vec<u8>, RequestError> {
    let mut reader = ResponseReader::new();
    let mut pos = 0;
    loop {
        match reader.need() {
            ReadNeed::Nothing => return reader.finish(),
            ReadNeed::Line => {
                let end = match bytes[pos..].iter().position(|b| *b == b'\n') {
                    Some(i) => pos + i + 1,
                    None => bytes.len(),
                };
                let line = std::str::from_utf8(&bytes[pos..end]).unwrap();
                assert!(end > pos, "the response ended where a line was needed");
                pos = end;
                reader.take_line(line);
            }
            ReadNeed::Bytes(n) => {
                let data = bytes[pos..pos + n].to_vec();
                pos += n;
                reader.take_bytes(data);
            }
        }
    }
}

#[test]
fn head_of_request() {
    assert_eq!(
        request_head("/api/localsend/v2/prepare-upload", 1234),
        "POST /api/localsend/v2/prepare-upload HTTP/1.1\r\nContent-Length: 1234\r\n\r\n"
    );
    assert_eq!(request_head("/x", 0), "POST /x HTTP/1.1\r\nContent-Length: 0\r\n\r\n");
}

#[test]
fn body_with_length() {
    let r = read_all(b"HTTP/1.1 200 OK\r\nServer: x\r\nContent-Length: 5\r\n\r\nhelloEXTRA");
    assert_eq!(r, Ok(b"hello".to_vec()));
}

#[test]
fn empty_body_with_length_zero() {
    assert_eq!(read_all(b"HTTP/1.1 204 No Content\r\nContent-Length: 0\r\n\r\n"), Ok(vec![]));
}

#[test]
fn chunked_body() {
    let r = read_all(
        b"HTTP/1.1 200 OK\r\nContent-Length: 3\r\nTransfer-Encoding: chunked\r\n\r\n4\r\nWiki\r\n5;ext=1\r\npedia\r\n0\r\n\r\n",
    );
    assert_eq!(r, Ok(b"Wikipedia".to_vec()));
}

#[test]
fn chunked_header_in_any_case() {
    let r = read_all(b"HTTP/1.1 200 OK\r\nTRANSFER-ENCODING: CHUNKED\r\n\r\na\r\n0123456789\r\n0\r\n");
    assert_eq!(r, Ok(b"0123456789".to_vec()));
}

#[test]
fn rejection_and_status_codes() {
    assert_eq!(read_all(b"HTTP/1.1 403 Forbidden\r\n\r\n"), Err(RequestError::Rejection));
    assert_eq!(read_all(b"HTTP/1.1 404 Not Found\r\n"), Err(RequestError::StatusCode(404)));
    assert_eq!(read_all(b"HTTP/1.1 300 x\r\n"), Err(RequestError::StatusCode(300)));
    assert_eq!(read_all(b"HTTP/1.1 500\r\n"), Err(RequestError::StatusCode(500)));
}

#[test]
fn malformed_responses() {
    assert_eq!(read_all(b"HTTP/1.1\r\n"), Err(RequestError::Response));
    assert_eq!(read_all(b"HTTP/1.1 OK\r\n"), Err(RequestError::Number(NumberError::InvalidDigit)));
    assert_eq!(read_all(b"HTTP/1.1 200 OK\r\nServer: x\r\n\r\n"), Err(RequestError::Response));
    assert_eq!(
        read_all(b"HTTP/1.1 200 OK\r\nContent-Length: x\r\n\r\n"),
        Err(RequestError::Number(NumberError::InvalidDigit))
    );
    assert_eq!(read_all(b"HTTP/1.1 200 OK\r\nContent-Length\r\n\r\n"), Err(RequestError::Response));
    assert_eq!(
        read_all(b"HTTP/1.1 200 OK\r\nTransfer-Encoding: chunked\r\n\r\nzz\r\n"),
        Err(RequestError::Number(NumberError::InvalidDigit))
    );
}

#[test]
fn states_step_by_step() {
    let mut r = ResponseReader::new();
    assert_eq!(r.state, ResponseState::StatusLine);
    r.take_line("HTTP/1.1 200 OK\r\n");
    assert_eq!(r.state, ResponseState::Headers { chunked: false, content_length: None });
    r.take_line("Content-Length: 2\r\n");
    assert_eq!(r.state, ResponseState::Headers { chunked: false, content_length: Some(2) });
    r.take_line("\r\n");
    assert_eq!(r.state, ResponseState::Body(2));
    assert_eq!(r.need(), ReadNeed::Bytes(2));
    r.take_bytes(vec![1, 2]);
    assert_eq!(r.state, ResponseState::Done);
    assert_eq!(r.finish(), Ok(vec![1, 2]));
}

#[test]
fn chunks_win_over_a_later_length() {
    let r = read_all(
        b"HTTP/1.1 200 OK\r\nTransfer-Encoding: chunked\r\nContent-Length: 100\r\n\r\n3\r\nabc\r\n0\r\n\r\n",
    );
    assert_eq!(r, Ok(b"abc".to_vec()));
}

#[test]
fn chunks_written_in_hex_read_back() {
    let chunks: Vec<Vec<u8>> = vec![vec![7u8; 1], vec![1u8; 15], vec![2u8; 16], vec![3u8; 255], vec![4u8; 4096]];
    let mut response = b"HTTP/1.1 200 OK\r\ntransfer-encoding: Chunked\r\n\r\n".to_vec();
    for c in &chunks {
        response.extend_from_slice(format!("{:x}\r\n", c.len()).as_bytes());
        response.extend_from_slice(c);
        response.extend_from_slice(b"\r\n");
    }
    response.extend_from_slice(b"0\r\nTrailer: x\r\n\r\n");
    assert_eq!(read_all(&response), Ok(chunks.concat()));
}
