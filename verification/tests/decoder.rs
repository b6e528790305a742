use bytes::BytesMut;
use resp_codec::request::ProtocolError;
use resp_codec::request::Request;
use resp_codec::request::RequestError;
use resp_codec::wire::FaultKind;

#[test]
fn a_command_is_successfully_parsed() {
    let request = Request::parse(&mut BytesMut::from("*2\r\n$10\r\ntest.hello\r\n$5\r\nWorld\r\n"))
        .unwrap()
        .unwrap();
    assert_eq!(request.parameter_count(), 1);
    assert_eq!(request.command().unwrap(), "test.hello");
    assert_eq!(request.str_parameter(0).unwrap(), "World");
}

#[test]
fn missing_array_is_detected() {
    let result = Request::parse(&mut BytesMut::from("+GET"));
    assert_eq!(result.is_err(), true);
}

#[test]
fn non_bulk_string_is_detected() {
    let result = Request::parse(&mut BytesMut::from("*1\r\n+GET"));
    assert_eq!(result.is_err(), true);
}

#[test]
fn invalid_number_is_detected() {
    let result = Request::parse(&mut BytesMut::from("*GET\r\n"));
    assert_eq!(result.is_err(), true);
}

#[test]
fn an_incomplete_command_is_skipped() {
    {
        let result = Request::parse(&mut BytesMut::from("")).unwrap();
        assert_eq!(result.is_none(), true);
    }
    {
        let result = Request::parse(&mut BytesMut::from("*")).unwrap();
        assert_eq!(result.is_none(), true);
    }
    {
        let result = Request::parse(&mut BytesMut::from("*1")).unwrap();
        assert_eq!(result.is_none(), true);
    }
    {
        let result = Request::parse(&mut BytesMut::from("*1\r")).unwrap();
        assert_eq!(result.is_none(), true);
    }
    {
        let result = Request::parse(&mut BytesMut::from("*1\r\n")).unwrap();
        assert_eq!(result.is_none(), true);
    }
    {
        let result = Request::parse(&mut BytesMut::from("*2\r\n$10\r\ntest.h")).unwrap();
        assert_eq!(result.is_none(), true);
    }
    {
        let result = Request::parse(&mut BytesMut::from("*2\r\n$10\r\ntest.hello\r\n")).unwrap();
        assert_eq!(result.is_none(), true);
    }
}

#[test]
fn single_element_frame_has_no_arguments() {
    let request = Request::parse(&mut BytesMut::from("*1\r\n$3\r\nGET\r\n")).unwrap().unwrap();
    assert_eq!(request.command().unwrap(), "GET");
    assert_eq!(request.parameter_count(), 0);
    assert!(matches!(
        request.parameter(0),
        Err(RequestError::IndexOutOfRange { index: 0, count: 0 })
    ));
}

#[test]
fn zero_length_bulk_string_is_an_empty_parameter() {
    let request = Request::parse(&mut BytesMut::from("*2\r\n$3\r\nGET\r\n$0\r\n\r\n"))
        .unwrap()
        .unwrap();
    assert_eq!(request.parameter_count(), 1);
    assert_eq!(request.parameter(0).unwrap().as_ref(), b"");
    assert_eq!(request.str_parameter(0).unwrap(), "");
}

#[test]
fn pipelined_frames_are_decoded_one_per_call() {
    let mut buffer = BytesMut::from("*1\r\n$4\r\nPING\r\n*2\r\n$3\r\nGET\r\n$3\r\nkey\r\n");
    let first = Request::parse(&mut buffer).unwrap().unwrap();
    assert_eq!(first.command().unwrap(), "PING");
    assert_eq!(first.parameter_count(), 0);
    let second = Request::parse(&mut buffer).unwrap().unwrap();
    assert_eq!(second.command().unwrap(), "GET");
    assert_eq!(second.parameter_count(), 1);
    assert_eq!(second.parameter(0).unwrap().as_ref(), b"key");
    assert!(Request::parse(&mut buffer).unwrap().is_none());
}

#[test]
fn every_truncation_of_a_frame_is_incomplete() {
    let frame: &[u8] = b"*2\r\n$10\r\ntest.hello\r\n$5\r\nWorld\r\n";
    for cut in 0..frame.len() {
        let mut buffer = BytesMut::from(&frame[..cut]);
        let result = Request::parse(&mut buffer).unwrap();
        assert!(result.is_none());
        assert_eq!(&buffer[..], &frame[..cut]);
    }
}

#[test]
fn fatal_errors_carry_kind_and_offset() {
    assert_eq!(
        Request::parse(&mut BytesMut::from("+GET")).err().unwrap(),
        ProtocolError { kind: FaultKind::NotAnArray, offset: 0 }
    );
    assert_eq!(
        Request::parse(&mut BytesMut::from("*1\r\n+GET")).err().unwrap(),
        ProtocolError { kind: FaultKind::ExpectedBulkString, offset: 4 }
    );
    assert_eq!(
        Request::parse(&mut BytesMut::from("*GET\r\n")).err().unwrap(),
        ProtocolError { kind: FaultKind::MalformedInteger, offset: 1 }
    );
    assert_eq!(
        Request::parse(&mut BytesMut::from("*2\r\n$1x\r\nA\r\n")).err().unwrap(),
        ProtocolError { kind: FaultKind::MalformedInteger, offset: 6 }
    );
    assert_eq!(
        Request::parse(&mut BytesMut::from("*0\r\n")).err().unwrap(),
        ProtocolError { kind: FaultKind::InvalidElementCount, offset: 1 }
    );
}

#[test]
fn oversized_length_field_is_malformed() {
    // one digit too many for a 64-bit length
    let result = Request::parse(&mut BytesMut::from("*99999999999999999999\r\n"));
    assert_eq!(
        result.err().unwrap(),
        ProtocolError { kind: FaultKind::MalformedInteger, offset: 20 }
    );
}

#[test]
fn binary_payload_is_handed_out_raw() {
    let mut buffer = BytesMut::from(&b"*2\r\n$3\r\nSET\r\n$3\r\n\x00\xff\x7f\r\n"[..]);
    let request = Request::parse(&mut buffer).unwrap().unwrap();
    assert_eq!(request.parameter(0).unwrap().as_ref(), b"\x00\xff\x7f");
}

#[test]
fn invalid_utf8_parameter_is_a_recoverable_error() {
    let mut buffer = BytesMut::from(&b"*2\r\n$3\r\nGET\r\n$2\r\n\xff\xfe\r\n"[..]);
    let request = Request::parse(&mut buffer).unwrap().unwrap();
    assert!(matches!(
        request.str_parameter(0),
        Err(RequestError::InvalidEncoding { index: Some(0), .. })
    ));
    assert!(matches!(
        request.int_parameter(0),
        Err(RequestError::InvalidEncoding { index: Some(0), .. })
    ));
    // the raw bytes are still available
    assert_eq!(request.parameter(0).unwrap().as_ref(), b"\xff\xfe");
}

#[test]
fn invalid_utf8_command_is_a_recoverable_error() {
    let mut buffer = BytesMut::from(&b"*1\r\n$2\r\n\xc3\x28\r\n"[..]);
    let request = Request::parse(&mut buffer).unwrap().unwrap();
    assert!(matches!(
        request.command(),
        Err(RequestError::InvalidEncoding { index: None, .. })
    ));
}

#[test]
fn integer_parameters_are_parsed_with_sign_and_bounds() {
    let mut buffer = BytesMut::from(
        "*6\r\n$4\r\nINCR\r\n$3\r\n-42\r\n$10\r\n2147483647\r\n$11\r\n-2147483648\r\n$10\r\n2147483648\r\n$3\r\nabc\r\n",
    );
    let request = Request::parse(&mut buffer).unwrap().unwrap();
    assert_eq!(request.parameter_count(), 5);
    assert_eq!(request.int_parameter(0).unwrap(), -42);
    assert_eq!(request.int_parameter(1).unwrap(), 2147483647);
    assert_eq!(request.int_parameter(2).unwrap(), -2147483648);
    assert!(matches!(
        request.int_parameter(3),
        Err(RequestError::InvalidFormat { index: 3, .. })
    ));
    assert!(matches!(
        request.int_parameter(4),
        Err(RequestError::InvalidFormat { index: 4, .. })
    ));
    assert!(matches!(
        request.int_parameter(5),
        Err(RequestError::IndexOutOfRange { index: 5, count: 5 })
    ));
}

#[test]
fn str_parameter_out_of_range_is_reported() {
    let request = Request::parse(&mut BytesMut::from("*1\r\n$4\r\nPING\r\n")).unwrap().unwrap();
    assert!(matches!(
        request.str_parameter(2),
        Err(RequestError::IndexOutOfRange { index: 2, count: 0 })
    ));
}

#[test]
fn request_survives_later_buffer_writes() {
    let mut buffer = BytesMut::from("*2\r\n$3\r\nGET\r\n$3\r\nkey\r\n");
    let request = Request::parse(&mut buffer).unwrap().unwrap();
    buffer.extend_from_slice(b"*1\r\n$4\r\nPING\r\n");
    let next = Request::parse(&mut buffer).unwrap().unwrap();
    assert_eq!(next.command().unwrap(), "PING");
    assert_eq!(request.command().unwrap(), "GET");
    assert_eq!(request.parameter(0).unwrap().as_ref(), b"key");
}
