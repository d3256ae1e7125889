//! Wire codec behaviour: head decoding, framing decisions, chunked
//! transfer, numbers and dates.

use summer_boot::chunked::{decode_chunked, max_bytes_to_read, ChunkedEncoder};
use summer_boot::decode::{decode, BodyFraming, DecodeError, HeadReader, HeadStatus};
use summer_boot::encode::{compute_head, fmt_http_date, Encoder, EncoderState};
use summer_boot::method::Method;
use summer_boot::num::{parse_dec, parse_hex, render_dec};
use summer_boot::response::{Body, Response};

#[test]
fn decode_simple_get() {
    let head = b"GET /hello HTTP/1.1\r\nHost: example.com\r\n\r\n";
    let d = decode(head).unwrap();
    assert!(matches!(d.method, Method::Get));
    assert_eq!(d.url.host, "example.com");
    assert_eq!(d.url.path, "/hello");
    assert!(d.url.query.is_none());
    assert!(matches!(d.framing, BodyFraming::Empty));
    assert!(!d.expect_continue);
}

#[test]
fn decode_post_with_content_length() {
    let head = b"POST /submit HTTP/1.1\r\nHost: a\r\nContent-Length: 5\r\n\r\n";
    let d = decode(head).unwrap();
    assert!(matches!(d.method, Method::Post));
    assert!(matches!(d.framing, BodyFraming::Fixed(5)));
}

#[test]
fn decode_chunked_transfer_encoding() {
    let head = b"POST /x HTTP/1.1\r\nHost: a\r\nTransfer-Encoding: chunked\r\n\r\n";
    let d = decode(head).unwrap();
    assert!(matches!(d.framing, BodyFraming::Chunked));
}

#[test]
fn decode_rejects_dual_framing_with_400() {
    let head =
        b"POST /x HTTP/1.1\r\nHost: a\r\nContent-Length: 5\r\nTransfer-Encoding: chunked\r\n\r\n";
    let e = decode(head).unwrap_err();
    assert!(matches!(e, DecodeError::AmbiguousFraming));
    assert_eq!(e.status(), 400);
}

#[test]
fn decode_rejects_missing_host() {
    let head = b"GET /hello HTTP/1.1\r\n\r\n";
    let e = decode(head).unwrap_err();
    assert!(matches!(e, DecodeError::MissingHost));
}

#[test]
fn decode_rejects_old_version() {
    let head = b"GET / HTTP/1.0\r\nHost: a\r\n\r\n";
    let e = decode(head).unwrap_err();
    assert!(matches!(e, DecodeError::UnsupportedVersion));
}

#[test]
fn decode_rejects_bad_method() {
    let head = b"BREW / HTTP/1.1\r\nHost: a\r\n\r\n";
    let e = decode(head).unwrap_err();
    assert!(matches!(e, DecodeError::BadMethod));
}

#[test]
fn decode_absolute_form_target() {
    let head = b"GET http://example.com/a/b?q=1 HTTP/1.1\r\n\r\n";
    let d = decode(head).unwrap();
    assert_eq!(d.url.host, "example.com");
    assert_eq!(d.url.path, "/a/b");
    assert_eq!(d.url.query.as_deref(), Some("q=1"));
}

#[test]
fn decode_connect_form_target() {
    let head = b"CONNECT example.com:443 HTTP/1.1\r\nHost: example.com\r\n\r\n";
    let d = decode(head).unwrap();
    assert!(matches!(d.method, Method::Connect));
    assert_eq!(d.url.host, "example.com:443");
    assert_eq!(d.url.path, "/");
}

#[test]
fn decode_expect_continue() {
    let head = b"POST /u HTTP/1.1\r\nHost: a\r\nContent-Length: 1\r\nExpect: 100-continue\r\n\r\n";
    let d = decode(head).unwrap();
    assert!(d.expect_continue);
}

#[test]
fn decode_too_many_headers() {
    let mut head = b"GET / HTTP/1.1\r\nHost: a\r\n".to_vec();
    for i in 0..129 {
        head.extend_from_slice(format!("x-h{}: v\r\n", i).as_bytes());
    }
    head.extend_from_slice(b"\r\n");
    let e = decode(&head).unwrap_err();
    assert!(matches!(e, DecodeError::TooManyHeaders));
}

#[test]
fn decode_header_names_fold_to_lowercase() {
    let head = b"GET / HTTP/1.1\r\nHOST: a\r\nX-Thing: One\r\n\r\n";
    let d = decode(head).unwrap();
    let vs = d.headers.header("x-thing").unwrap();
    assert_eq!(vs[0], "One");
}

#[test]
fn head_reader_finds_terminator_across_chunks() {
    let mut reader = HeadReader::new();
    assert!(matches!(reader.push(b"GET / HTTP/1.1\r\nHost: a\r"), HeadStatus::Partial));
    match reader.push(b"\n\r\nBODY") {
        HeadStatus::Complete(n) => {
            assert_eq!(n, 27);
            assert_eq!(&reader.buf[n..], b"BODY");
        },
        _ => panic!("head should be complete"),
    }
}

#[test]
fn head_reader_rejects_oversized_head() {
    let mut reader = HeadReader::new();
    let filler = vec![97u8; 9000];
    assert!(matches!(reader.push(&filler), HeadStatus::TooLarge));
}

#[test]
fn chunked_scenario_decodes_data() {
    let stream = b"4\r\ndata\r\n0\r\n\r\n";
    let d = decode_chunked(stream).unwrap();
    assert_eq!(d.body, b"data");
    assert_eq!(d.trailer_lines.len(), 0);
    assert_eq!(d.consumed, stream.len());
}

#[test]
fn chunked_decode_reads_trailers() {
    let stream = b"1\r\nz\r\n0\r\nx-after: 1\r\n\r\n";
    let d = decode_chunked(stream).unwrap();
    assert_eq!(d.body, b"z");
    assert_eq!(d.trailer_lines.len(), 1);
    assert_eq!(d.trailer_lines[0], b"x-after: 1");
}

#[test]
fn chunked_round_trip_various_buffers() {
    let body: Vec<u8> = (0u16..800).map(|i| (i % 251) as u8).collect();
    for buf_len in [6usize, 7, 8, 15, 16, 17, 31, 32, 64, 255, 256, 1024] {
        let stream = ChunkedEncoder::encode_whole(body.clone(), buf_len);
        let d = decode_chunked(&stream).unwrap();
        assert_eq!(d.body, body, "buffer {}", buf_len);
        assert_eq!(d.consumed, stream.len());
        assert!(stream.ends_with(b"0\r\n\r\n"));
    }
}

#[test]
fn chunked_encoder_frames_fit_the_buffer() {
    let body = vec![7u8; 100];
    let mut enc = ChunkedEncoder::new(body);
    loop {
        let frame = enc.poll_read(16);
        if frame.is_empty() {
            break;
        }
        assert!(frame.len() <= 16);
    }
    assert!(enc.done);
}

#[test]
fn max_bytes_to_read_values() {
    assert_eq!(max_bytes_to_read(6), 1);
    assert_eq!(max_bytes_to_read(10), 5);
    assert_eq!(max_bytes_to_read(16), 11);
    assert_eq!(max_bytes_to_read(20), 14);
    assert_eq!(max_bytes_to_read(21), 15);
    assert_eq!(max_bytes_to_read(1024), 1017);
}

#[test]
fn numbers_render_and_parse() {
    assert_eq!(render_dec(0), b"0");
    assert_eq!(render_dec(10234), b"10234");
    assert_eq!(parse_dec(b"10234"), Some(10234));
    assert_eq!(parse_dec(b""), None);
    assert_eq!(parse_dec(b"12x"), None);
    assert_eq!(parse_dec(b"18446744073709551615"), Some(u64::MAX));
    assert_eq!(parse_dec(b"18446744073709551616"), None);
    assert_eq!(parse_hex(b"ff"), Some(255));
    assert_eq!(parse_hex(b"FF"), Some(255));
    assert_eq!(parse_hex(b"0"), Some(0));
    assert_eq!(parse_hex(b"g"), None);
}

#[test]
fn http_date_renders_fixed_format() {
    assert_eq!(fmt_http_date(0), b"Thu, 01 Jan 1970 00:00:00 GMT");
    assert_eq!(fmt_http_date(784111777), b"Sun, 06 Nov 1994 08:49:37 GMT");
    assert_eq!(fmt_http_date(1000000000), b"Sun, 09 Sep 2001 01:46:40 GMT");
}

#[test]
fn encoded_head_has_length_date_and_sorted_headers() {
    let mut res = Response::new(200);
    res.body_bytes(b"hello".to_vec());
    res.insert_header("x-late", "1");
    res.insert_header("aardvark", "2");
    let head = compute_head(&mut res, 784111777);
    let text = String::from_utf8(head).unwrap();
    assert!(text.starts_with("HTTP/1.1 200 OK\r\n"));
    assert!(text.contains("content-length: 5\r\n"));
    assert!(text.contains("date: Sun, 06 Nov 1994 08:49:37 GMT\r\n"));
    assert!(text.ends_with("\r\n\r\n"));
    let aardvark = text.find("aardvark:").unwrap();
    let content_length = text.find("content-length:").unwrap();
    let date = text.find("date:").unwrap();
    let late = text.find("x-late:").unwrap();
    assert!(aardvark < content_length && content_length < date && date < late);
}

#[test]
fn encoded_response_round_trips_status_headers_and_body() {
    let mut res = Response::new(200);
    res.body_bytes(b"hello".to_vec());
    let mut enc = Encoder::new(res, Method::Get, 0);
    let mut wire: Vec<u8> = Vec::new();
    loop {
        let chunk = enc.poll_read(32);
        if chunk.is_empty() {
            break;
        }
        wire.extend_from_slice(&chunk);
    }
    let expected = b"HTTP/1.1 200 OK\r\ncontent-length: 5\r\ndate: Thu, 01 Jan 1970 00:00:00 GMT\r\n\r\nhello";
    assert_eq!(wire, expected);
}

#[test]
fn encoder_emits_no_body_for_head_requests() {
    let mut res = Response::new(200);
    res.body_bytes(b"hello".to_vec());
    let mut enc = Encoder::new(res, Method::Head, 0);
    let mut wire: Vec<u8> = Vec::new();
    loop {
        let chunk = enc.poll_read(32);
        if chunk.is_empty() {
            break;
        }
        wire.extend_from_slice(&chunk);
    }
    assert!(wire.ends_with(b"\r\n\r\n"));
    assert!(matches!(enc.state, EncoderState::End));
    let more = enc.poll_read(32);
    assert!(more.is_empty());
}

#[test]
fn encoder_streams_unknown_length_bodies_chunked() {
    let mut res = Response::new(200);
    res.set_body(Body::Streamed(b"stream me".to_vec()));
    let mut enc = Encoder::new(res, Method::Get, 0);
    let mut wire: Vec<u8> = Vec::new();
    loop {
        let chunk = enc.poll_read(64);
        if chunk.is_empty() {
            break;
        }
        wire.extend_from_slice(&chunk);
    }
    let text = String::from_utf8(wire.clone()).unwrap();
    assert!(text.contains("transfer-encoding: chunked\r\n"));
    let head_end = text.find("\r\n\r\n").unwrap() + 4;
    let d = decode_chunked(&wire[head_end..]).unwrap();
    assert_eq!(d.body, b"stream me");
}

#[test]
fn method_tokens_round_trip() {
    for (token, m) in [
        (&b"GET"[..], Method::Get),
        (b"HEAD", Method::Head),
        (b"POST", Method::Post),
        (b"PUT", Method::Put),
        (b"DELETE", Method::Delete),
        (b"CONNECT", Method::Connect),
        (b"OPTIONS", Method::Options),
        (b"TRACE", Method::Trace),
        (b"PATCH", Method::Patch),
    ] {
        assert_eq!(Method::parse(token), Some(m));
        assert_eq!(m.token_bytes(), token);
    }
    assert_eq!(Method::parse(b"get"), None);
}

#[test]
fn decode_origin_form_query_splits() {
    let head = b"GET /search?q=a&n=2 HTTP/1.1\r\nHost: h\r\n\r\n";
    let d = decode(head).unwrap();
    assert_eq!(d.url.path, "/search");
    assert_eq!(d.url.query.as_deref(), Some("q=a&n=2"));
}

#[test]
fn decode_trims_header_value_whitespace() {
    let head = b"GET / HTTP/1.1\r\nHost:   padded.example   \r\n\r\n";
    let d = decode(head).unwrap();
    assert_eq!(d.url.host, "padded.example");
}

#[test]
fn decode_rejects_garbage() {
    assert!(decode(b"not an http head").is_err());
    assert!(decode(b"\r\n\r\n").is_err());
    assert!(decode(b"GET /x\r\nHost: a\r\n\r\n").is_err());
}
