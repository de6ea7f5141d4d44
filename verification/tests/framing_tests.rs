use bazel_bsp::framing::{decode_frame, encode_frame, DecodeOutcome};

#[test]
fn encode_produces_the_wire_header() {
    let body: Vec<u8> = b"{\"id\":1}".to_vec();
    let framed = encode_frame(&body);
    let expected = b"Content-Length: 8\r\n\r\n{\"id\":1}".to_vec();
    assert_eq!(framed, expected);
}

#[test]
fn round_trip_returns_the_exact_body() {
    let body: Vec<u8> = b"{\"jsonrpc\":\"2.0\",\"method\":\"build/exit\"}".to_vec();
    let framed = encode_frame(&body);
    match decode_frame(&framed, false) {
        DecodeOutcome::Message { body: got, consumed } => {
            assert_eq!(got, body);
            assert_eq!(consumed, framed.len());
        }
        other => panic!("expected a message, got {:?}", other),
    }
}

#[test]
fn round_trip_with_following_bytes_consumes_only_one_frame() {
    let body: Vec<u8> = b"hello".to_vec();
    let mut stream = encode_frame(&body);
    let first_len = stream.len();
    let mut second = encode_frame(&b"world!".to_vec());
    stream.append(&mut second);
    match decode_frame(&stream, false) {
        DecodeOutcome::Message { body: got, consumed } => {
            assert_eq!(got, body);
            assert_eq!(consumed, first_len);
        }
        other => panic!("expected a message, got {:?}", other),
    }
}

#[test]
fn truncated_body_is_an_incomplete_read_not_a_message() {
    let body: Vec<u8> = b"0123456789".to_vec();
    let framed = encode_frame(&body);
    let cut = framed[..framed.len() - 3].to_vec();
    assert_eq!(decode_frame(&cut, false), DecodeOutcome::NeedMore);
}

#[test]
fn truncated_header_is_an_incomplete_read() {
    let cut: Vec<u8> = b"Content-Length: 1".to_vec();
    assert_eq!(decode_frame(&cut, false), DecodeOutcome::NeedMore);
}

#[test]
fn stream_end_before_a_frame_is_end_of_stream() {
    assert_eq!(decode_frame(&Vec::new(), true), DecodeOutcome::EndOfStream);
    let partial: Vec<u8> = b"Content-Length: 5\r\n\r\nab".to_vec();
    assert_eq!(decode_frame(&partial, true), DecodeOutcome::EndOfStream);
}

#[test]
fn headers_without_a_length_are_a_framing_error() {
    let buf: Vec<u8> = b"Content-Type: application/json\r\n\r\n{}".to_vec();
    assert_eq!(decode_frame(&buf, false), DecodeOutcome::HeaderError);
}

#[test]
fn unparseable_length_is_a_framing_error() {
    let buf: Vec<u8> = b"Content-Length: ten\r\n\r\n{}".to_vec();
    assert_eq!(decode_frame(&buf, false), DecodeOutcome::HeaderError);
}

#[test]
fn header_name_is_case_insensitive() {
    let buf: Vec<u8> = b"content-LENGTH: 2\r\n\r\nok".to_vec();
    match decode_frame(&buf, false) {
        DecodeOutcome::Message { body, consumed } => {
            assert_eq!(body, b"ok".to_vec());
            assert_eq!(consumed, buf.len());
        }
        other => panic!("expected a message, got {:?}", other),
    }
}

#[test]
fn other_headers_are_skipped_and_last_length_wins() {
    let buf: Vec<u8> = b"Content-Type: json\r\nContent-Length: 9\r\nContent-Length: 2\r\n\r\nhi".to_vec();
    match decode_frame(&buf, false) {
        DecodeOutcome::Message { body, consumed } => {
            assert_eq!(body, b"hi".to_vec());
            assert_eq!(consumed, buf.len());
        }
        other => panic!("expected a message, got {:?}", other),
    }
}

#[test]
fn zero_length_body_round_trips() {
    let framed = encode_frame(&Vec::new());
    assert_eq!(framed, b"Content-Length: 0\r\n\r\n".to_vec());
    match decode_frame(&framed, false) {
        DecodeOutcome::Message { body, consumed } => {
            assert_eq!(body, Vec::<u8>::new());
            assert_eq!(consumed, framed.len());
        }
        other => panic!("expected a message, got {:?}", other),
    }
}
