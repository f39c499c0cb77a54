use fake_redis_rs::serve::Serve;

#[test]
fn connections_are_numbered_from_one() {
    let mut s = Serve::new("0.0.0.0".to_string(), 6379);
    assert_eq!(s.host(), "0.0.0.0");
    assert_eq!(s.port(), 6379);
    assert_eq!(s.incr_socket_id(), 1);
    assert_eq!(s.incr_socket_id(), 2);
    assert_eq!(s.incr_socket_id(), 3);
}
