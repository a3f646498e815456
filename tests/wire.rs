use parsec_core::request::{Request, RequestHeader};
use parsec_core::response::{Response, ResponseBody, ResponseHeader};
use parsec_core::status::ResponseStatus;

fn get_response() -> Response {
    let body = ResponseBody::from_bytes(vec![0x70, 0x80, 0x90]);
    let header = ResponseHeader {
        magic_number: 0x5EC0_A710,
        hdr_size: 0x00_14,
        version_maj: 0xde,
        version_min: 0xf0,
        provider: 0x00,
        session: 0x11_22_33_44_55_66_77_88,
        content_type: 0x99,
        body_len: 0x00_00_00_03,
        opcode: 0xbb_cc,
        status: 0xdd_ee,
    };
    Response { header, body }
}

fn get_response_bytes() -> Vec<u8> {
    vec![
        0x10, 0xA7, 0xC0, 0x5E, 0x14, 0x00, 0xde, 0xf0, 0x00, 0x88, 0x77, 0x66, 0x55, 0x44, 0x33,
        0x22, 0x11, 0x99, 0x03, 0x00, 0x00, 0x00, 0xcc, 0xbb, 0xee, 0xdd, 0x70, 0x80, 0x90,
    ]
}

#[test]
fn response_to_stream() {
    let mut mock: Vec<u8> = Vec::new();
    let response = get_response();

    response.write_to_stream(&mut mock);

    assert_eq!(mock, get_response_bytes());
}

#[test]
fn stream_to_response() {
    let buffer = get_response_bytes();

    let response = Response::read_from_stream(&buffer).expect("Failed to read response");

    assert_eq!(response, get_response());
}

#[test]
fn response_built_with_set_body_matches_wire_form() {
    let mut response = Response::new();
    response.header.version_maj = 0xde;
    response.header.version_min = 0xf0;
    response.header.session = 0x11_22_33_44_55_66_77_88;
    response.header.content_type = 0x99;
    response.header.opcode = 0xbb_cc;
    response.header.status = 0xdd_ee;
    response.set_body(ResponseBody::from_bytes(vec![0x70, 0x80, 0x90]));
    assert_eq!(response, get_response());
    assert_eq!(response.body().len(), 3);
    assert!(!response.body().is_empty());
    assert_eq!(response.body().bytes(), &[0x70, 0x80, 0x90]);
}

#[test]
fn response_with_bad_magic_is_invalid_header() {
    let mut bytes = get_response_bytes();
    bytes[0] = 0x11;
    assert_eq!(Response::read_from_stream(&bytes), Err(ResponseStatus::InvalidHeader));
}

#[test]
fn truncated_response_is_connection_error() {
    let bytes = get_response_bytes();
    assert_eq!(Response::read_from_stream(&bytes[..27]), Err(ResponseStatus::ConnectionError));
    assert_eq!(Response::read_from_stream(&bytes[..3]), Err(ResponseStatus::ConnectionError));
}

#[test]
fn response_status_and_opcode() {
    let mut header = ResponseHeader::new();
    header.status = 20;
    header.opcode = 9;
    assert_eq!(header.status(), ResponseStatus::BodyLenTooLarge);
    assert_eq!(header.opcode(), parsec_core::requests::Opcode::ListOpcodes);
}

fn sample_request() -> Request {
    let mut header = RequestHeader::new();
    header.version_maj = 1;
    header.version_min = 0;
    header.provider = 1;
    header.session = 0x0102_0304_0506_0708;
    header.content_type = 0;
    header.accept_type = 0;
    header.auth_type = 1;
    header.body_len = 2;
    header.auth_len = 5;
    header.opcode = 7;
    Request { header, body: vec![0xaa, 0xbb], auth: b"alice".to_vec() }
}

#[test]
fn request_round_trip() {
    let request = sample_request();
    let mut bytes = Vec::new();
    request.write_to_stream(&mut bytes);
    assert_eq!(bytes.len(), 28 + 2 + 5);
    assert_eq!(&bytes[..6], &[0x10, 0xA7, 0xC0, 0x5E, 22, 0]);
    let back = Request::read_from_stream(&bytes, 1 << 20).expect("request");
    assert_eq!(back, request);
}

#[test]
fn request_with_bad_magic_is_invalid_header() {
    let mut bytes = Vec::new();
    sample_request().write_to_stream(&mut bytes);
    bytes[3] = 0x00;
    assert_eq!(Request::read_from_stream(&bytes, 1 << 20), Err(ResponseStatus::InvalidHeader));
    assert_eq!(
        Request::read_from_stream(&[0u8, 0, 0, 0], 1 << 20),
        Err(ResponseStatus::InvalidHeader)
    );
}

#[test]
fn request_with_bad_header_size_is_invalid_header() {
    let mut bytes = Vec::new();
    sample_request().write_to_stream(&mut bytes);
    bytes[4] = 20;
    assert_eq!(Request::read_from_stream(&bytes, 1 << 20), Err(ResponseStatus::InvalidHeader));
}

#[test]
fn oversize_body_is_refused_before_reading_it() {
    let mut header = RequestHeader::new();
    header.body_len = 2 << 20;
    let request = Request { header, body: Vec::new(), auth: Vec::new() };
    let mut bytes = Vec::new();
    request.write_to_stream(&mut bytes);
    assert_eq!(bytes.len(), 28);
    assert_eq!(Request::read_from_stream(&bytes, 1 << 20), Err(ResponseStatus::BodyLenTooLarge));
}

#[test]
fn body_and_auth_together_count_against_the_limit() {
    let request = sample_request();
    let mut bytes = Vec::new();
    request.write_to_stream(&mut bytes);
    assert_eq!(Request::read_from_stream(&bytes, 6), Err(ResponseStatus::BodyLenTooLarge));
    assert!(Request::read_from_stream(&bytes, 7).is_ok());
}

#[test]
fn short_request_is_connection_error() {
    let mut bytes = Vec::new();
    sample_request().write_to_stream(&mut bytes);
    bytes.pop();
    assert_eq!(Request::read_from_stream(&bytes, 1 << 20), Err(ResponseStatus::ConnectionError));
}

#[test]
fn status_response_echoes_request_header() {
    let request = sample_request();
    let response = Response::from_request_header(&request.header, ResponseStatus::KeyDoesNotExist);
    assert_eq!(response.header.session, 0x0102_0304_0506_0708);
    assert_eq!(response.header.opcode, 7);
    assert_eq!(response.header.provider, 1);
    assert_eq!(response.header.status, 14);
    assert!(response.body().is_empty());
    let zeroed = Response::from_status(ResponseStatus::InvalidHeader);
    assert_eq!(zeroed.header.session, 0);
    assert_eq!(zeroed.header.status, 19);
}

#[test]
fn response_header_round_trip_alone() {
    let header = get_response().header;
    let mut bytes = Vec::new();
    header.write_to_stream(&mut bytes);
    assert_eq!(bytes.len(), 26);
    assert_eq!(bytes, get_response_bytes()[..26].to_vec());
    assert_eq!(ResponseHeader::read_from_stream(&bytes), Ok(header));
    assert_eq!(ResponseHeader::read_from_stream(&bytes[..25]), Err(ResponseStatus::ConnectionError));
}
