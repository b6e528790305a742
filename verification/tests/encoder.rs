use resp_codec::response::Response;

#[test]
fn ok_writes_the_fixed_status_reply() {
    let mut response = Response::new();
    response.ok();
    assert_eq!(response.take_output(), b"+OK\r\n");
}

#[test]
fn zero_and_one_write_their_fast_paths() {
    let mut response = Response::new();
    response.zero();
    assert_eq!(response.take_output(), b":0\r\n");
    response.one();
    assert_eq!(response.take_output(), b":1\r\n");
}

#[test]
fn number_is_byte_identical_across_fast_and_general_paths() {
    let mut response = Response::new();
    response.number(0);
    assert_eq!(response.take_output(), b":0\r\n");
    response.number(1);
    assert_eq!(response.take_output(), b":1\r\n");
    response.number(42);
    assert_eq!(response.take_output(), b":42\r\n");
    response.number(10);
    assert_eq!(response.take_output(), b":10\r\n");
    response.number(-5);
    assert_eq!(response.take_output(), b":-5\r\n");
    response.number(2147483647);
    assert_eq!(response.take_output(), b":2147483647\r\n");
    response.number(-2147483648);
    assert_eq!(response.take_output(), b":-2147483648\r\n");
}

#[test]
fn replies_accumulate_until_drained() {
    let mut response = Response::new();
    response.ok();
    response.number(7);
    assert_eq!(response.take_output(), b"+OK\r\n:7\r\n");
    assert_eq!(response.take_output(), b"");
}
