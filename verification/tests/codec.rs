use rtsp_client::http::header::{Header, ParseHeaderError};
use rtsp_client::http::version::{ParseVersionError, Version};
use rtsp_client::rtsp::method::Method;
use rtsp_client::rtsp::protocol::{ParseProtocolError, Protocol};
use rtsp_client::rtsp::request::{serialize_into, RequestBuilder};
use rtsp_client::rtsp::response::{ParseItem, Parser};
use rtsp_client::rtsp::status::Status;
use rtsp_client::rtsp::uri::Uri;

#[test]
fn test_parse_header() {
    let header = Header::parse(b"Content-Length: 123").unwrap();
    assert_eq!(header.name, b"Content-Length".to_vec());
    assert_eq!(header.value, b"123".to_vec());
}

#[test]
fn test_parse_header_missing_colon() {
    let result = Header::parse(b"Content-Length 123");
    assert!(result.is_err());
}

#[test]
fn test_parse_header_space_before_colon() {
    let result = Header::parse(b"Content-Length : 123");
    assert!(result.is_err());
}

#[test]
fn test_parse_header_empty_value() {
    let header = Header::parse(b"Content-Length:").unwrap();
    assert_eq!(header.name, b"Content-Length".to_vec());
    assert_eq!(header.value, b"".to_vec());
}

#[test]
fn version_test_parse_version() {
    let version = Version::parse(b"1.0").unwrap();
    assert_eq!(version, Version::new(1, 0));
}

#[test]
fn version_test_parse_version_missing_token() {
    let result = Version::parse(b"1");
    assert!(result.is_err());
    assert!(matches!(result.unwrap_err(), ParseVersionError::Format));
}

#[test]
fn version_test_parse_version_invalid_version() {
    let result = Version::parse(b"1.0.0");
    assert!(result.is_err());
    assert!(matches!(result.unwrap_err(), ParseVersionError::Format));
}

#[test]
fn test_parse_version_invalid_digit() {
    let result = Version::parse(b"1.a");
    assert!(result.is_err());
    assert!(matches!(result.unwrap_err(), ParseVersionError::ParseInt(_)));
}

#[test]
fn protocol_test_parse_version() {
    let version = Protocol::parse(b"RTSP/1.0").unwrap();
    assert_eq!(version.version, Version::new(1, 0));
}

#[test]
fn protocol_test_parse_version_missing_token() {
    let result = Protocol::parse(b"1.0");
    assert!(result.is_err());
    assert!(matches!(result.unwrap_err(), ParseProtocolError::UnexpectedToken));
}

#[test]
fn protocol_test_parse_version_invalid_version() {
    let result = Protocol::parse(b"RTSP/1");
    assert!(result.is_err());
    assert!(matches!(result.unwrap_err(), ParseProtocolError::ParseVersion(_)));
}

#[test]
fn test_parse_status() {
    let status = Status::from_code(200).unwrap();
    assert_eq!(status, Status::OK);
    let status = Status::from_code(404).unwrap();
    assert_eq!(status, Status::NotFound);
    let status = Status::from_code(500).unwrap();
    assert_eq!(status, Status::InternalServerError);
}

#[test]
fn test_parse_status_str() {
    let status = Status::parse(b"200").unwrap();
    assert_eq!(status, Status::OK);
    let status = Status::parse(b"404").unwrap();
    assert_eq!(status, Status::NotFound);
    let status = Status::parse(b"500").unwrap();
    assert_eq!(status, Status::InternalServerError);
}

#[test]
fn test_parse_simple_response() {
    let mut parser = Parser::new();
    let response = b"RTSP/1.0 200 OK\r\nCSeq: 1\r\n\r\n".to_vec();
    loop {
        match parser.parse_next(&response).unwrap() {
            Some(ParseItem::Protocol(p)) => assert_eq!(p, Protocol::new(Version::new(1, 0))),
            Some(ParseItem::Status(s)) => assert_eq!(s, Status::OK),
            Some(ParseItem::Header(h)) => {
                assert_eq!(h.name, b"CSeq".to_vec());
                assert_eq!(h.value, b"1".to_vec());
            }
            Some(ParseItem::Body(b)) => assert_eq!(b, b"".to_vec()),
            None => break,
        }
    }
    assert_eq!(parser.is_done(), true);
}

#[test]
fn test_parse_response_with_body() {
    let mut parser = Parser::new();
    let response = b"RTSP/1.0 200 OK\r\nCSeq: 1\r\nContent-Length: 5\r\n\r\nhello".to_vec();
    loop {
        match parser.parse_next(&response).unwrap() {
            Some(ParseItem::Protocol(p)) => assert_eq!(p, Protocol::new(Version::new(1, 0))),
            Some(ParseItem::Status(s)) => assert_eq!(s, Status::OK),
            Some(ParseItem::Header(h)) => match h.name.as_slice() {
                b"CSeq" => assert_eq!(h.value, b"1".to_vec()),
                b"Content-Length" => assert_eq!(h.value, b"5".to_vec()),
                _ => panic!("Unexpected header: {:?}", h),
            },
            Some(ParseItem::Body(b)) => assert_eq!(b, b"hello".to_vec()),
            None => break,
        }
    }
    assert_eq!(parser.is_done(), true);
}

#[test]
fn test_parse_response_with_incomplete_body() {
    let mut parser = Parser::new();
    let response = b"RTSP/1.0 200 OK\r\nCSeq: 1\r\nContent-Length: 11\r\n\r\nhello".to_vec();
    while let Some(item) = parser.parse_next(&response).unwrap() {
        match item {
            ParseItem::Protocol(p) => assert_eq!(p, Protocol::new(Version::new(1, 0))),
            ParseItem::Status(s) => assert_eq!(s, Status::OK),
            ParseItem::Header(h) => match h.name.as_slice() {
                b"CSeq" => assert_eq!(h.value, b"1".to_vec()),
                b"Content-Length" => assert_eq!(h.value, b"11".to_vec()),
                _ => panic!("Unexpected header: {:?}", h),
            },
            ParseItem::Body(b) => assert_eq!(b, b"hello".to_vec()),
        }
    }
    assert_eq!(parser.is_done(), false);
    let mut parser = Parser::new();
    let response = b"RTSP/1.0 200 OK\r\nCSeq: 1\r\nContent-Length: 11\r\n\r\nhello world".to_vec();
    let mut body_seen = false;
    while let Some(item) = parser.parse_next(&response).unwrap() {
        if let ParseItem::Body(b) = item {
            assert_eq!(b, b"hello world".to_vec());
            body_seen = true;
        }
    }
    assert!(body_seen, "Unexpected item");
    assert_eq!(parser.is_done(), true);
}

#[test]
fn test_request_buf_builder() {
    let uri = Uri::parse(b"rtsp://test.com".to_vec());
    let buf = RequestBuilder::new(uri, Method::Describe)
        .version(Version::new(1, 0))
        .header(b"CSeq", b"1")
        .header(b"Accept", b"application/sdp")
        .header(b"User-Agent", b"apex")
        .header(b"Session", b"123456")
        .body(b"")
        .result();
    assert_eq!(
        buf,
        b"DESCRIBE rtsp://test.com RTSP/1.0\r\nCSeq: 1\r\nAccept: application/sdp\r\nUser-Agent: apex\r\nSession: 123456\r\nContent-Length: 0\r\n\r\n".to_vec()
    );
}

#[test]
fn test_request_builder() {
    let mut buf = [0u8; 128];
    let uri = Uri::parse(b"rtsp://test.com".to_vec());
    let request = RequestBuilder::new(uri, Method::Describe)
        .version(Version::new(1, 0))
        .header(b"CSeq", b"1")
        .header(b"User-Agent", b"test")
        .body(b"test")
        .result();
    let n = serialize_into(&request, &mut buf).unwrap();
    assert_eq!(
        std::str::from_utf8(&buf[..n]).unwrap(),
        "DESCRIBE rtsp://test.com RTSP/1.0\r\nCSeq: 1\r\nUser-Agent: test\r\nContent-Length: 4\r\n\r\ntest"
    );
}

#[test]
fn test_request_builder_insufficient_buffer() {
    let mut buf = [0u8; 10];
    let uri = Uri::parse(b"rtsp://test.com".to_vec());
    let request = RequestBuilder::new(uri, Method::Describe)
        .version(Version::new(1, 0))
        .header(b"CSeq", b"1")
        .header(b"User-Agent", b"test")
        .body(b"test")
        .result();
    let n = serialize_into(&request, &mut buf);
    assert!(n.is_err());
}

#[test]
fn version_overflowing_component_is_refused() {
    let result = Version::parse(b"300.0");
    assert!(matches!(result.unwrap_err(), ParseVersionError::ParseInt(_)));
}

#[test]
fn status_outside_closed_set_is_refused() {
    let result = Status::parse(b"299");
    assert!(matches!(
        result.unwrap_err(),
        rtsp_client::rtsp::status::ParseStatusError::InvalidStatus(_)
    ));
    let result = Status::parse(b"abc");
    assert!(matches!(
        result.unwrap_err(),
        rtsp_client::rtsp::status::ParseStatusError::ParseIntError(_)
    ));
}

#[test]
fn header_without_colon_but_valid_name_is_bad_format() {
    let result = Header::parse(b"Connection");
    assert!(matches!(result.unwrap_err(), ParseHeaderError::InvalidFormat));
}

#[test]
fn header_with_non_ascii_value_is_bad_format() {
    let result = Header::parse(b"Name: \xff\xfe");
    assert!(matches!(result.unwrap_err(), ParseHeaderError::InvalidFormat));
}

#[test]
fn status_reason_phrases() {
    assert_eq!(Status::OK.reason_phrase(), b"OK".to_vec());
    assert_eq!(Status::NotFound.reason_phrase(), b"Stream Not Found".to_vec());
    assert_eq!(Status::Unauthorized.reason_phrase(), b"Unauthorized".to_vec());
    assert_eq!(Status::OK.code(), 200);
}
