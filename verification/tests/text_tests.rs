use fake_redis_rs::text::{bulk_reply_string, decimal_string, int_reply_string};

#[test]
fn decimal_rendering() {
    assert_eq!(decimal_string(0), "0");
    assert_eq!(decimal_string(7), "7");
    assert_eq!(decimal_string(10), "10");
    assert_eq!(decimal_string(1234567890), "1234567890");
    assert_eq!(decimal_string(usize::MAX), usize::MAX.to_string());
}

#[test]
fn reply_shapes() {
    assert_eq!(int_reply_string(0), ":0\r\n");
    assert_eq!(int_reply_string(42), ":42\r\n");
    assert_eq!(bulk_reply_string(&"value".to_string()), "$5\r\nvalue\r\n");
    assert_eq!(bulk_reply_string(&"".to_string()), "$0\r\n\r\n");
    // length in bytes, not characters
    assert_eq!(bulk_reply_string(&"é".to_string()), "$2\r\né\r\n");
}
