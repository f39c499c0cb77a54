use fake_redis_rs::storage::db::Inner;
use fake_redis_rs::client::{Client, Forward};
use fake_redis_rs::parser::entry;
use fake_redis_rs::protocol::{Message, Protocol};

fn lines(ws: &[&str]) -> Vec<String> {
    ws.iter().map(|s| s.to_string()).collect()
}

#[test]
fn frames_command_package() {
    let mut c = Client::new();
    c.buffer.extend_from_slice(b"*1\r\n$7\r\nCOMMAND\r\n");
    assert_eq!(c.next_package(), Some(Ok(lines(&["*1", "$7", "COMMAND"]))));
    // the connection starts afresh
    assert_eq!(c.cursor, 0);
    assert_eq!(c.param_number, 0);
    assert!(c.params.is_empty());
    assert_eq!(c.buffer.len(), 0);
}

#[test]
fn frames_set_and_hset_packages() {
    let mut c = Client::new();
    c.buffer.extend_from_slice(b"*3\r\n$3\r\nset\r\n$3\r\nkey\r\n$5\r\nvalue\r\n");
    assert_eq!(
        c.get_complete_package(),
        Ok(lines(&["*3", "$3", "set", "$3", "key", "$5", "value"]))
    );
    c.buffer.extend_from_slice(b"*4\r\n$4\r\nhset\r\n$3\r\nkey\r\n$5\r\nfield\r\n$5\r\nvalue\r\n");
    assert_eq!(
        c.get_complete_package(),
        Ok(lines(&["*4", "$4", "hset", "$3", "key", "$5", "field", "$5", "value"]))
    );
}

#[test]
fn package_in_two_reads() {
    let mut c = Client::new();
    c.buffer.extend_from_slice(b"*2\r\n$3\r\nget\r\n$1");
    assert_eq!(c.next_package(), Some(Err(())));
    assert_eq!(c.param_number, 2);
    assert_eq!(c.params, lines(&["*2", "$3", "get"]));
    c.buffer.extend_from_slice(b"\r\nk\r\n");
    assert_eq!(c.next_package(), Some(Ok(lines(&["*2", "$3", "get", "$1", "k"]))));
}

#[test]
fn read_ending_in_cr_waits() {
    // a CR as the last byte read waits for the LF of the next read
    let mut c = Client::new();
    c.buffer.extend_from_slice(b"*2\r\n$3\r\nget\r\n$1\r");
    assert!(!c.package_faults());
    assert_eq!(c.next_package(), Some(Err(())));
    assert_eq!(c.params, lines(&["*2", "$3", "get"]));
    c.buffer.extend_from_slice(b"\nk\r\n");
    assert_eq!(c.next_package(), Some(Ok(lines(&["*2", "$3", "get", "$1", "k"]))));
}

#[test]
fn bytes_after_a_package_are_dropped() {
    let mut c = Client::new();
    c.buffer.extend_from_slice(b"*1\r\n$7\r\nCOMMAND\r\n*1\r\n");
    assert_eq!(c.next_package(), Some(Ok(lines(&["*1", "$7", "COMMAND"]))));
    assert_eq!(c.buffer.len(), 0);
}

#[test]
fn header_alone_waits() {
    // after the header line the framing waits for the words
    let mut c = Client::new();
    c.buffer.extend_from_slice(b"*1\r\n");
    assert!(!c.package_faults());
    assert_eq!(c.next_package(), Some(Err(())));
    assert_eq!(c.param_number, 1);
    assert_eq!(c.params, lines(&["*1"]));
    c.buffer.extend_from_slice(b"$7\r\nCOMMAND\r\n");
    assert_eq!(c.next_package(), Some(Ok(lines(&["*1", "$7", "COMMAND"]))));
}

#[test]
fn header_that_is_no_number_faults() {
    let mut c = Client::new();
    c.buffer.extend_from_slice(b"*x\r\n$1\r\n");
    assert!(c.package_faults());
    assert_eq!(c.next_package(), None);
}

#[test]
fn first_line_without_star_waits() {
    let mut c = Client::new();
    c.buffer.extend_from_slice(b"PING\r\n");
    assert!(!c.package_faults());
    assert_eq!(c.next_package(), Some(Err(())));
    // nothing is taken
    assert_eq!(c.cursor, 0);
    assert!(c.params.is_empty());
    assert_eq!(c.buffer.len(), 6);
}

#[test]
fn first_line_with_star_that_is_no_header_faults() {
    let mut c = Client::new();
    c.buffer.extend_from_slice(b"GET *\r\n");
    assert!(c.package_faults());
    assert_eq!(c.next_package(), None);
    // nothing changes on a fault
    assert_eq!(c.cursor, 0);
    assert!(c.params.is_empty());
}

#[test]
fn word_is_taken_by_its_length() {
    // a bulk string may hold CR LF: its length line decides where it ends
    let mut c = Client::new();
    c.buffer.extend_from_slice(b"*1\r\n$4\r\na\r\n");
    assert_eq!(c.next_package(), Some(Err(())));
    assert_eq!(c.params, lines(&["*1", "$4"]));
    c.buffer.extend_from_slice(b"b\r\n");
    assert_eq!(c.next_package(), Some(Ok(lines(&["*1", "$4", "a\r\nb"]))));
}

#[test]
fn word_without_crlf_after_its_length_is_a_line() {
    let mut c = Client::new();
    c.buffer.extend_from_slice(b"*1\r\n$2\r\nabc\r\n");
    assert_eq!(c.next_package(), Some(Ok(lines(&["*1", "$2", "abc"]))));
}

#[test]
fn star_inside_a_word_is_a_byte_of_the_word() {
    let mut c = Client::new();
    c.buffer.extend_from_slice(b"*3\r\n$3\r\nset\r\n$1\r\nk\r\n$3\r\na*b\r\n");
    assert!(!c.package_faults());
    assert_eq!(
        c.get_complete_package(),
        Ok(lines(&["*3", "$3", "set", "$1", "k", "$3", "a*b"]))
    );
}

#[test]
fn zero_words_wait() {
    let mut c = Client::new();
    c.buffer.extend_from_slice(b"*0\r\n");
    assert!(!c.package_faults());
    assert_eq!(c.get_complete_package(), Err(()));
    assert_eq!(c.params, lines(&["*0"]));
    assert_eq!(c.param_number, 0);
    c.buffer.extend_from_slice(b"*1\r\n$7\r\nCOMMAND\r\n");
    assert_eq!(c.next_package(), Some(Err(())));
    assert_eq!(c.params, lines(&["*0"]));
}

#[test]
fn package_read_byte_by_byte() {
    let bytes = b"*2\r\n$3\r\nget\r\n$1\r\nk\r\n";
    let mut c = Client::new();
    for (i, b) in bytes.iter().enumerate() {
        c.buffer.extend_from_slice(&[*b]);
        let r = c.next_package();
        if i + 1 < bytes.len() {
            assert_eq!(r, Some(Err(())), "after {} bytes", i + 1);
        } else {
            assert_eq!(r, Some(Ok(lines(&["*2", "$3", "get", "$1", "k"]))));
        }
    }
}

fn message(ws: &[&str]) -> Message {
    entry(lines(ws)).expect("known command")
}

#[test]
fn forward_decisions() {
    match Client::forward_action(Err(())) {
        Forward::Reply(s) => assert_eq!(s, "-ERR syntax error\r\n"),
        _ => panic!("expected a reply"),
    }
    match Client::forward_action(Ok(message(&["*1", "$7", "command"]))) {
        Forward::Reply(s) => assert_eq!(s, "+OK\r\n"),
        _ => panic!("expected a reply"),
    }
    match Client::forward_action(Ok(message(&["*1", "$3", "get"]))) {
        Forward::Reply(s) => assert_eq!(s, "-ERR syntax error\r\n"),
        _ => panic!("expected a reply"),
    }
    let unsupported = Message { protocol: Protocol::UnSupport, key: String::new(), cmd: "X".to_string() };
    match Client::forward_action(Ok(unsupported)) {
        Forward::Reply(s) => assert_eq!(s, "-command unsupport\r\n"),
        _ => panic!("expected a reply"),
    }
    let f = Client::forward_action(Ok(message(&["*2", "$3", "get", "$1", "k"])));
    assert!(f.ends_on_write_error());
    match f {
        Forward::Execute(m) => assert_eq!(m.cmd, "GET"),
        _ => panic!("expected execution"),
    }
}

#[test]
fn execution_replies() {
    assert_eq!(Client::execution_reply(Ok(":1\r\n".to_string())), ":1\r\n");
    assert_eq!(Client::execution_reply(Err(())), "-Internal Server Error\r\n");
}

fn resp_array(ws: &[&str]) -> Vec<u8> {
    let mut out = format!("*{}\r\n", ws.len());
    for w in ws {
        out.push_str(&format!("${}\r\n{}\r\n", w.len(), w));
    }
    out.into_bytes()
}

#[test]
fn command_words_reach_the_database() {

    let mut db = Inner::new();
    let mut c = Client::new();
    for (ws, expected) in [
        (&["SET", "greeting", "hello"][..], "+OK\r\n"),
        (&["get", "greeting"][..], "$5\r\nhello\r\n"),
        (&["HSET", "h", "f", "v"][..], ":1\r\n"),
        (&["hget", "h", "f"][..], "$1\r\nv\r\n"),
        (&["del", "greeting", "h"][..], ":2\r\n"),
        (&["get", "greeting"][..], "$-1\r\n"),
        (&["set", "multi", "a\r\nb*"][..], "+OK\r\n"),
        (&["get", "multi"][..], "$5\r\na\r\nb*\r\n"),
    ] {
        c.buffer.extend_from_slice(&resp_array(ws));
        let package = c.next_package().expect("no fault").expect("complete");
        let words: Vec<String> = package.iter().skip(2).step_by(2).cloned().collect();
        assert_eq!(words, lines(ws));
        match Client::forward_action(entry(package).map_err(|_| ())) {
            Forward::Execute(m) => assert_eq!(db.handle(m, 0), Ok(expected.to_string())),
            _ => panic!("expected execution for {:?}", ws),
        }
    }
}
