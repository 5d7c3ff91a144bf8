use toolcase_gateway::chunked::{
    encode_chunk, encode_last_chunk, next_chunk, take_chunk, ChunkStep, TakenChunk,
};
use toolcase_gateway::error::{ErrorClass, HttpError};
use toolcase_gateway::http::{
    check_head, header_value, is_chunked, is_request_target, is_token, parse_headers,
    parse_request_head, parse_response_head, render_head, Framing, HeadProgress, MAX_HEAD_BYTES,
};
use toolcase_gateway::reader::{ReadStep, Request, RequestReader};
use toolcase_gateway::relay::{
    busy_response, error_response, relayed_head, BodyRelay, RelayStep, MAX_REWRITE_WINDOW,
};

fn field(name: &str, value: &str) -> (String, String) {
    (name.to_string(), value.to_string())
}

/// Feeds the parts one by one, and then the end.
fn read_parts(parts: &[&[u8]]) -> Result<Request, HttpError> {
    let mut reader = RequestReader::new();
    for part in parts {
        match reader.feed(part) {
            ReadStep::More(next) => reader = next,
            ReadStep::Done(request) => return Ok(request),
            ReadStep::Failed(error) => return Err(error),
        }
    }
    Err(reader.finish())
}

fn refused(bytes: &[u8]) -> HttpError {
    match read_parts(&[bytes]) {
        Ok(_) => panic!("the request is accepted"),
        Err(error) => error,
    }
}

/// Runs a relay over the reads, and gives what the client gets.
fn relay_all(
    headers: &[(String, String)],
    first: &[u8],
    reads: &[&[u8]],
    request: &[u8],
) -> Result<Vec<u8>, HttpError> {
    let mut relay = BodyRelay::new(headers, first.to_vec());
    let mut reads = reads.iter();
    let mut out = Vec::new();
    loop {
        let step = match relay.advance() {
            RelayStep::Read => match reads.next() {
                Some(data) => {
                    relay.feed(data);
                    continue;
                }
                None => relay.finish(),
            },
            RelayStep::Piece(piece) => {
                out.extend(encode_chunk(&piece, request));
                continue;
            }
            other => other,
        };
        return match step {
            RelayStep::Finish(piece) => {
                out.extend(encode_last_chunk(&piece, request));
                Ok(out)
            }
            RelayStep::Failed(error) => Err(error),
            _ => panic!("a relay that has ended asks for nothing"),
        };
    }
}

/// The body of a request with these chunks.
fn dechunked(chunks: &[u8]) -> Vec<u8> {
    let mut bytes = b"POST / HTTP/1.1\r\nTransfer-Encoding: chunked\r\n\r\n".to_vec();
    bytes.extend_from_slice(chunks);
    read_parts(&[&bytes]).unwrap().body
}

#[test]
fn a_request_is_read_whole() {
    let request = read_parts(&[
        b"POST /v1/chat HTTP/1.1\r\nHost: a\r\nX-Empty:\r\nContent-Length: 5\r\n\r\nhello and more",
    ])
    .unwrap();
    assert_eq!(request.method, "POST");
    assert_eq!(request.path, "/v1/chat");
    assert_eq!(
        request.headers,
        vec![field("Host", "a"), field("X-Empty", ""), field("Content-Length", "5")]
    );
    assert_eq!(request.body, b"hello");
}

#[test]
fn the_cut_into_reads_decides_nothing() {
    let bytes: &[u8] = b"POST /x HTTP/1.1\r\nTransfer-Encoding: gzip, Chunked\r\n\r\n\
        4\r\nWiki\r\n5;ext=1\r\npedia\r\n0\r\n\r\n";
    let whole = read_parts(&[bytes]).unwrap();
    assert_eq!(whole.body, b"Wikipedia");
    for cut in 1..bytes.len() - 5 {
        let parts = read_parts(&[&bytes[..cut], &bytes[cut..]]).unwrap();
        assert_eq!(parts.body, whole.body);
        assert_eq!(parts.headers, whole.headers);
    }
    let single: Vec<&[u8]> = bytes.chunks(1).collect();
    assert_eq!(read_parts(&single).unwrap().body, whole.body);
}

#[test]
fn every_refusal_of_a_request() {
    assert_eq!(refused(b"POST / HTTP/1.1\r\nHost: a\r\n"), HttpError::IncompleteRequestHead);
    assert_eq!(refused(b""), HttpError::IncompleteRequestHead);
    assert_eq!(refused(b"GET /\xff HTTP/1.1\r\n\r\n"), HttpError::NonUtf8Head);
    assert_eq!(refused(b"GE(T / HTTP/1.1\r\n\r\n"), HttpError::InvalidRequestLine);
    assert_eq!(refused(b"GET /a\"b HTTP/1.1\r\n\r\n"), HttpError::InvalidRequestLine);
    assert_eq!(refused(b"GET / HTTP/1.1\r\nno colon\r\n\r\n"), HttpError::MalformedHeader);
    assert_eq!(refused(b"GET / HTTP/1.1\r\nX : 1\r\n\r\n"), HttpError::MalformedHeader);
    assert_eq!(refused(b"GET / HTTP/1.1\r\nX: a\nb\r\n\r\n"), HttpError::MalformedHeader);
    assert_eq!(
        refused(b"POST / HTTP/1.1\r\nContent-Length: 1\r\ncontent-length: 1\r\n\r\na"),
        HttpError::ConflictingFraming
    );
    assert_eq!(
        refused(b"POST / HTTP/1.1\r\nTransfer-Encoding: chunked\r\nContent-Length: 7\r\n\r\n"),
        HttpError::ConflictingFraming
    );
    assert_eq!(
        refused(b"POST / HTTP/1.1\r\nContent-Length: -1\r\n\r\n"),
        HttpError::InvalidContentLength
    );
    assert_eq!(
        refused(b"POST / HTTP/1.1\r\nContent-Length: 67108865\r\n\r\n"),
        HttpError::RequestTooLarge
    );
    assert_eq!(
        refused(b"POST / HTTP/1.1\r\nContent-Length: 3\r\n\r\nab"),
        HttpError::BodyCutShort
    );
    let chunked = b"POST / HTTP/1.1\r\nTransfer-Encoding: chunked\r\n\r\n";
    let with = |tail: &[u8]| [&chunked[..], tail].concat();
    assert_eq!(refused(&with(b"5\r\nab")), HttpError::EndedEarly);
    assert_eq!(refused(&with(b"xyz\r\n")), HttpError::InvalidChunkSize);
    assert_eq!(refused(&with(b"\xff\r\n")), HttpError::InvalidChunkSize);
    assert_eq!(refused(&with(b"ffffffffffffffff\r\n")), HttpError::InvalidChunkSize);
}

#[test]
fn a_chunked_body_over_the_limit_is_refused() {
    let mut bytes = b"POST / HTTP/1.1\r\nTransfer-Encoding: chunked\r\n\r\n4000001\r\n".to_vec();
    bytes.extend(vec![b'a'; 0x4000001]);
    bytes.extend_from_slice(b"\r\n0\r\n\r\n");
    assert_eq!(refused(&bytes), HttpError::RequestTooLarge);
}

#[test]
fn a_chunk_is_refused_once_its_size_is_known() {
    let with = |tail: &[u8]| {
        let head: &[u8] = b"POST / HTTP/1.1\r\nTransfer-Encoding: chunked\r\n\r\n";
        [head, tail].concat()
    };
    let failed = |tail: &[u8]| match RequestReader::new().feed(&with(tail)) {
        ReadStep::Failed(error) => Some(error),
        ReadStep::More(_) => None,
        ReadStep::Done(_) => panic!("the request is incomplete"),
    };
    assert_eq!(failed(b"4000001\r\n"), Some(HttpError::RequestTooLarge));
    assert_eq!(failed(b"fffffffffffffff0\r\n"), Some(HttpError::RequestTooLarge));
    assert_eq!(failed(b"4000000\r\n"), None);
    assert_eq!(failed(b"1\r\na\r\n4000000\r\n"), Some(HttpError::RequestTooLarge));
    assert_eq!(failed(b"1\r\na\r\n3ffffff\r\n"), None);
    let mut line = b"1;".to_vec();
    line.resize(0x4000001, b'x');
    assert_eq!(failed(&line), None);
    line.push(b'x');
    assert_eq!(failed(&line), Some(HttpError::RequestTooLarge));
}

#[test]
fn a_chunked_body_of_exactly_the_limit_is_accepted() {
    let mut bytes = b"POST / HTTP/1.1\r\nTransfer-Encoding: chunked\r\n\r\n3ffffff\r\n".to_vec();
    bytes.extend(vec![b'a'; 0x3ffffff]);
    bytes.extend_from_slice(b"\r\n1;last=yes\r\nb\r\n0;and=more\r\n\r\n");
    let request = read_parts(&[&bytes]).unwrap();
    assert_eq!(request.body.len(), 67108864);
    assert_eq!(request.body[0x3ffffff], b'b');
}

#[test]
fn chunks_are_taken_one_by_one() {
    let mut buffered = b"5;x=1\r\nhello\r\n0\r\n\r\n".to_vec();
    assert_eq!(next_chunk(&buffered), ChunkStep::Data { start: 7, end: 12, next: 14 });
    match take_chunk(&mut buffered) {
        TakenChunk::Data(data) => assert_eq!(data, b"hello"),
        _ => panic!("a chunk was expected"),
    }
    assert_eq!(buffered, b"0\r\n\r\n");
    assert_eq!(next_chunk(&buffered), ChunkStep::Last { next: 3 });
    assert!(matches!(take_chunk(&mut buffered), TakenChunk::Last));
    assert_eq!(buffered, b"\r\n");
    assert_eq!(next_chunk(b"5\r\nhel"), ChunkStep::Part { size: 5 });
    assert_eq!(next_chunk(b"5\r"), ChunkStep::More);
    let mut part = b"5\r\nhel".to_vec();
    assert!(matches!(take_chunk(&mut part), TakenChunk::More));
    assert_eq!(part, b"5\r\nhel");
    let mut bad = b"x\r\n".to_vec();
    assert!(matches!(take_chunk(&mut bad), TakenChunk::Invalid));
    assert_eq!(bad, b"x\r\n");
}

#[test]
fn heads_are_capped() {
    let mut head = b"GET / HTTP/1.1\r\nX: ".to_vec();
    let room = MAX_HEAD_BYTES - head.len() - 4;
    head.extend(vec![b'a'; room]);
    let mut fits = head.clone();
    fits.extend_from_slice(b"\r\n\r\n");
    assert_eq!(check_head(&fits, MAX_HEAD_BYTES), HeadProgress::Complete(65536));
    assert!(read_parts(&[&fits]).is_ok());
    let mut over = head.clone();
    over.extend_from_slice(b"a\r\n\r\n");
    assert_eq!(refused(&over), HttpError::HeadTooLarge);
    head.extend_from_slice(b"aaaaa");
    assert_eq!(check_head(&head, MAX_HEAD_BYTES), HeadProgress::TooLarge);
    assert_eq!(check_head(b"GET", MAX_HEAD_BYTES), HeadProgress::More);
}

#[test]
fn errors_have_a_class_and_a_message() {
    assert_eq!(HttpError::EndedEarly.class(), ErrorClass::UnexpectedEof);
    assert_eq!(HttpError::EndedEarly.message(), "request ended early");
    assert_eq!(HttpError::HeadTooLarge.class(), ErrorClass::InvalidInput);
    assert_eq!(HttpError::HeadTooLarge.message(), "head too large");
    assert_eq!(HttpError::ConflictingFraming.class(), ErrorClass::InvalidData);
    assert_eq!(HttpError::ConflictingFraming.message(), "conflicting framing headers");
    assert_eq!(HttpError::MalformedHeader.message(), "malformed header");
    assert_eq!(HttpError::InvalidRequestLine.message(), "invalid request line");
    assert_eq!(HttpError::NonUtf8Head.message(), "non-utf8 request head");
}

#[test]
fn request_lines_have_defaults() {
    let head = parse_request_head(b"\r\nHost: a\r\n\r\n").unwrap();
    assert_eq!((head.method.as_str(), head.path.as_str()), ("POST", "/"));
    let head = parse_request_head(b"GET\r\n\r\n").unwrap();
    assert_eq!((head.method.as_str(), head.path.as_str()), ("GET", "/"));
    let head = parse_request_head(b"  GET \t /x  HTTP/1.1\r\n\r\n").unwrap();
    assert_eq!((head.method.as_str(), head.path.as_str()), ("GET", "/x"));
    assert_eq!(head.framing, Framing::Length(0));
}

#[test]
fn targets_and_tokens_are_limited() {
    assert!(is_request_target(&"a".repeat(8192)));
    assert!(!is_request_target(&"a".repeat(8193)));
    assert!(!is_request_target("/a\\b"));
    assert!(!is_request_target("/\u{e9}"));
    for byte in 0u8..128 {
        let allowed =
            byte.is_ascii_alphanumeric() || b"!#$%&'*+-.^_`|~".contains(&byte);
        assert_eq!(is_token(&(byte as char).to_string()), allowed);
        let allowed = byte.is_ascii_graphic() && byte != b'\\' && byte != b'"';
        assert_eq!(is_request_target(&(byte as char).to_string()), allowed);
    }
}

#[test]
fn headers_end_at_the_first_empty_line() {
    let lines: Vec<String> = ["A: 1", "B:  two  ", "", "not read"]
        .iter()
        .map(|s| s.to_string())
        .collect();
    assert_eq!(
        parse_headers(&lines).unwrap(),
        vec![field("A", "1"), field("B", "two")]
    );
    assert_eq!(
        parse_headers(&["A: nul\0".to_string()]).unwrap_err(),
        HttpError::MalformedHeader
    );
}

#[test]
fn headers_are_found_up_to_letter_case() {
    let headers = vec![field("Retry-After", "1"), field("retry-after", "2")];
    assert_eq!(header_value(&headers, "RETRY-AFTER"), Some("1"));
    assert_eq!(header_value(&headers, "other"), None);
    assert!(!is_chunked(&[field("Transfer-Encoding", "gzip")]));
    assert!(is_chunked(&[
        field("Transfer-Encoding", "gzip"),
        field("TRANSFER-ENCODING", "deflate , CHUNKED")
    ]));
}

#[test]
fn response_heads_are_read() {
    let head =
        parse_response_head(b"HTTP/1.1 429 Too Many\x07 Requests\r\nA: 1\r\n\r\nbody").unwrap();
    assert_eq!(head.status, 429);
    assert_eq!(head.reason, "Too Many Requests");
    assert_eq!(head.headers, vec![field("A", "1")]);
    assert_eq!(head.buffered_body, b"body");
    assert_eq!(parse_response_head(b"HTTP/1.1 abc x\r\n\r\n").unwrap().status, 502);
    assert_eq!(parse_response_head(b"nothing\r\n\r\n").unwrap().status, 502);
    assert_eq!(parse_response_head(b"HTTP/1.1 204\r\n\r\n").unwrap().status, 204);
    assert_eq!(
        parse_response_head(b"HTTP/1.1 200 OK\r\n").err(),
        Some(HttpError::IncompleteResponseHead)
    );
    assert_eq!(
        parse_response_head(b"HTTP/1.1 200 OK\r\nbad\r\n\r\n").err(),
        Some(HttpError::MalformedHeader)
    );
}

#[test]
fn heads_that_are_not_utf8_are_read_lossily() {
    let raw = b"HTTP/1.1 200 Fine \xff\r\nX: \xc3\x28\r\n\r\n";
    let head = parse_response_head(raw).unwrap();
    assert_eq!(head.reason, "Fine \u{fffd}");
    assert_eq!(header_value(&head.headers, "x"), Some("\u{fffd}("));
}

#[test]
fn control_characters_are_those_of_std() {
    for c in (0u32..0x3000).filter_map(char::from_u32) {
        if c == '\r' || c == '\n' {
            continue;
        }
        let raw = format!("HTTP/1.1 200 a{c}b\r\n\r\n");
        let head = parse_response_head(raw.as_bytes()).unwrap();
        let expected: String = ['a', c, 'b'].iter().filter(|c| !c.is_control()).collect();
        assert_eq!(head.reason, expected);
    }
}

#[test]
fn written_heads_are_read_back() {
    let headers = vec![field("A", "1"), field("B-c", "x, y"), field("Empty", "")];
    let text = render_head("HTTP/1.1 200 OK", &headers);
    assert_eq!(text, "HTTP/1.1 200 OK\r\nA: 1\r\nB-c: x, y\r\nEmpty: \r\n\r\n");
    let head = parse_response_head(text.as_bytes()).unwrap();
    assert_eq!(head.headers, headers);
    assert!(head.buffered_body.is_empty());
}

#[test]
fn errors_are_json_with_their_length() {
    let answer = error_response(503, "Service Unavailable", "too \"many\" \\ \u{e9}");
    let body = "{\"error\":{\"message\":\"too \\\"many\\\" \\\\ \u{e9}\"}}";
    assert_eq!(
        answer,
        format!(
            "HTTP/1.1 503 Service Unavailable\r\nContent-Type: application/json\r\nContent-Length: {}\r\nX-Content-Type-Options: nosniff\r\nConnection: close\r\n\r\n{}",
            body.len(),
            body
        )
    );
    let head = parse_response_head(answer.as_bytes()).unwrap();
    let json: serde_json::Value = serde_json::from_slice(&head.buffered_body).unwrap();
    assert_eq!(json["error"]["message"], "too \"many\" \\ \u{e9}");
}

#[test]
fn errors_are_json_whatever_the_message_holds() {
    let all: String = (0u32..0x3000).filter_map(char::from_u32).collect();
    for message in ["\n", "a\r\nb\tc", "\u{0}\u{8}\u{c}\u{1f}\u{7f}", "\\n\"\u{1f600}", all.as_str()] {
        let answer = error_response(400, "Bad Request", message);
        let head = parse_response_head(answer.as_bytes()).unwrap();
        let json: serde_json::Value = serde_json::from_slice(&head.buffered_body).unwrap();
        assert_eq!(json["error"]["message"], message);
        let length = head.buffered_body.len().to_string();
        assert_eq!(header_value(&head.headers, "content-length"), Some(length.as_str()));
    }
    assert!(error_response(400, "x", "\u{1}\n\u{1b}").ends_with("\"\\u0001\\n\\u001B\"}}"));
}

#[test]
fn connections_beyond_the_cap_are_answered() {
    assert_eq!(
        busy_response(),
        error_response(503, "Service Unavailable", "too many connections")
    );
    let head = parse_response_head(busy_response().as_bytes()).unwrap();
    assert_eq!(head.status, 503);
    assert_eq!(head.buffered_body, br#"{"error":{"message":"too many connections"}}"#);
}

#[test]
fn relayed_heads_lose_what_is_untrue() {
    let raw = b"HTTP/1.1 206 Partial\r\nContent-Length: 9\r\nContent-Encoding: gzip\r\nETag: x\r\n\
        Connection: keep-alive\r\nKeep-Alive: 5\r\nX-Kept: yes\r\nTransfer-Encoding: chunked\r\n\r\n";
    let head = parse_response_head(raw).unwrap();
    assert_eq!(
        relayed_head(&head),
        "HTTP/1.1 206 Partial\r\nX-Kept: yes\r\nTransfer-Encoding: chunked\r\nConnection: close\r\n\r\n"
    );
}

#[test]
fn bodies_of_known_length_are_relayed() {
    let headers = vec![field("Content-Length", "12")];
    let out = relay_all(&headers, b"one\nt", &[b"wo\nthree", b"not read"], b"").unwrap();
    assert_eq!(out, b"4\r\none\n\r\n4\r\ntwo\n\r\n4\r\nthre\r\n0\r\n\r\n");
    assert_eq!(dechunked(&out), b"one\ntwo\nthre");
    let empty = vec![field("Content-Length", "0")];
    assert_eq!(relay_all(&empty, b"", &[], b"").unwrap(), b"0\r\n\r\n");
}

#[test]
fn bodies_up_to_the_end_are_relayed() {
    let out = relay_all(&[], b"", &[b"a", b"b\nc", b"d"], b"").unwrap();
    assert_eq!(out, b"3\r\nab\n\r\n2\r\ncd\r\n0\r\n\r\n");
    let out = relay_all(&[field("Content-Length", "x")], b"ab", &[], b"").unwrap();
    assert_eq!(out, b"2\r\nab\r\n0\r\n\r\n");
}

#[test]
fn chunked_bodies_are_relayed() {
    let headers = vec![field("Transfer-Encoding", "chunked")];
    let request = br#"{"tools":[{"name":"MyTool"}]}"#;
    // The name is cut in two by the chunks.
    let reads: [&[u8]; 3] = [b"9\r\n{\"name\":\"\r\n", b"8\r\nmytool\"}", b"\r\n0\r\n\r\n"];
    let out = relay_all(&headers, b"", &reads, request).unwrap();
    assert_eq!(out, b"11\r\n{\"name\":\"MyTool\"}\r\n0\r\n\r\n");
    assert_eq!(
        relay_all(&headers, b"5\r\nab", &[], request).unwrap_err(),
        HttpError::EndedEarly
    );
    assert_eq!(
        relay_all(&headers, b"zz\r\n", &[], request).unwrap_err(),
        HttpError::InvalidChunkSize
    );
}

#[test]
fn long_lines_are_let_go() {
    let long = vec![b'a'; MAX_REWRITE_WINDOW];
    let mut relay = BodyRelay::new(&[], long.clone());
    match relay.advance() {
        RelayStep::Piece(piece) => assert!(piece.is_empty()),
        _ => panic!("a piece was expected"),
    }
    relay.feed(b"b");
    match relay.advance() {
        RelayStep::Piece(piece) => {
            assert_eq!(piece.len(), MAX_REWRITE_WINDOW + 1);
            assert_eq!(piece[MAX_REWRITE_WINDOW], b'b');
        }
        _ => panic!("a piece was expected"),
    }
}

#[test]
fn chunks_have_sizes_in_upper_case() {
    assert_eq!(encode_chunk(&[b'x'; 171], b""), {
        let mut expected = b"AB\r\n".to_vec();
        expected.extend([b'x'; 171]);
        expected.extend_from_slice(b"\r\n");
        expected
    });
    assert_eq!(encode_chunk(b"", b""), b"");
}
