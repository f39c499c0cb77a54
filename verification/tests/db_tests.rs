use fake_redis_rs::parser::entry;
use fake_redis_rs::protocol::{KeyType, Message};
use fake_redis_rs::storage::db::Inner;

/// The message for a command given as words, framed as a client sends it.
fn message(ws: &[&str]) -> Message {
    let mut lines = vec![format!("*{}", ws.len())];
    for w in ws {
        lines.push(format!("${}", w.len()));
        lines.push(w.to_string());
    }
    entry(lines).expect("a known command")
}

fn run(db: &mut Inner, ws: &[&str]) -> String {
    run_at(db, ws, 0)
}

/// Handles the command at the moment `now`, in milliseconds.
fn run_at(db: &mut Inner, ws: &[&str], now: u64) -> String {
    db.handle(message(ws), now).expect("a reply")
}

const WRONGTYPE: &str = "-WRONGTYPE Operation against a key holding the wrong kind of value\r\n";

#[test]
fn get_after_set() {
    let mut db = Inner::new();
    assert_eq!(run(&mut db, &["get", "k"]), "$-1\r\n");
    assert_eq!(run(&mut db, &["set", "k", "value"]), "+OK\r\n");
    assert_eq!(run(&mut db, &["get", "k"]), "$5\r\nvalue\r\n");
}

#[test]
fn hget_after_hset() {
    let mut db = Inner::new();
    assert_eq!(run(&mut db, &["hset", "h", "f", "v"]), ":1\r\n");
    assert_eq!(run(&mut db, &["hset", "h", "f", "w"]), ":0\r\n");
    assert_eq!(run(&mut db, &["hget", "h", "f"]), "$1\r\nw\r\n");
    assert_eq!(run(&mut db, &["hget", "h", "g"]), "$-1\r\n");
}

#[test]
fn wrong_kind_is_refused() {
    let mut db = Inner::new();
    run(&mut db, &["set", "s", "1"]);
    run(&mut db, &["hset", "h", "f", "1"]);
    assert_eq!(run(&mut db, &["hget", "s", "f"]), WRONGTYPE);
    assert_eq!(run(&mut db, &["hset", "s", "f", "2"]), WRONGTYPE);
    assert_eq!(run(&mut db, &["get", "h"]), WRONGTYPE);
    assert_eq!(run(&mut db, &["set", "h", "2"]), WRONGTYPE);
    // nothing changed
    assert_eq!(run(&mut db, &["get", "s"]), "$1\r\n1\r\n");
    assert_eq!(run(&mut db, &["hget", "h", "f"]), "$1\r\n1\r\n");
}

#[test]
fn del_counts_deleted_keys() {
    let mut db = Inner::new();
    assert_eq!(run(&mut db, &["del", "a"]), ":0\r\n");
    run(&mut db, &["set", "a", "1"]);
    run(&mut db, &["hset", "b", "f", "1"]);
    assert_eq!(run(&mut db, &["del", "a", "b", "c", "a"]), ":2\r\n");
    assert_eq!(run(&mut db, &["get", "a"]), "$-1\r\n");
    assert_eq!(run(&mut db, &["hget", "b", "f"]), "$-1\r\n");
    // the keys are free for either kind again
    assert_eq!(run(&mut db, &["hset", "a", "f", "x"]), ":1\r\n");
    assert_eq!(run(&mut db, &["set", "b", "y"]), "+OK\r\n");
}

#[test]
fn hdel_of_last_field_frees_the_key() {
    let mut db = Inner::new();
    run(&mut db, &["hset", "h", "f", "1"]);
    run(&mut db, &["hset", "h", "g", "2"]);
    assert_eq!(run(&mut db, &["hdel", "h", "f"]), ":1\r\n");
    // a field is left: the key is still a hash
    assert_eq!(run(&mut db, &["set", "h", "x"]), WRONGTYPE);
    assert_eq!(run(&mut db, &["hdel", "h", "g", "z"]), ":1\r\n");
    assert_eq!(run(&mut db, &["hget", "h", "g"]), "$-1\r\n");
    // the last field gone, the key may hold another kind
    assert_eq!(run(&mut db, &["set", "h", "x"]), "+OK\r\n");
    assert_eq!(run(&mut db, &["get", "h"]), "$1\r\nx\r\n");
    assert_eq!(run(&mut db, &["hget", "h", "f"]), WRONGTYPE);
}

#[test]
fn set_nx_only_on_an_absent_key() {
    let mut db = Inner::new();
    assert_eq!(run(&mut db, &["set", "k", "first", "nx"]), "+OK\r\n");
    assert_eq!(run(&mut db, &["set", "k", "second", "NX"]), "$-1\r\n");
    assert_eq!(run(&mut db, &["get", "k"]), "$5\r\nfirst\r\n");
}

#[test]
fn set_xx_only_on_a_present_key() {
    let mut db = Inner::new();
    assert_eq!(run(&mut db, &["set", "k", "v", "xx"]), "$-1\r\n");
    assert_eq!(run(&mut db, &["get", "k"]), "$-1\r\n");
    // the refused SET left the key free for another kind
    assert_eq!(run(&mut db, &["hset", "k", "f", "v"]), ":1\r\n");
    assert_eq!(run(&mut db, &["set", "s", "a"]), "+OK\r\n");
    assert_eq!(run(&mut db, &["set", "s", "b", "ex", "10", "xx"]), "+OK\r\n");
    assert_eq!(run(&mut db, &["get", "s"]), "$1\r\nb\r\n");
}

#[test]
fn check_typ_unanimous_cases() {
    let mut db = Inner::new();
    run(&mut db, &["set", "s", "1"]);
    let s = "s".to_string();
    assert!(db.check_typ_unanimous(&"GET".to_string(), &s, &KeyType::String));
    assert!(!db.check_typ_unanimous(&"HGET".to_string(), &s, &KeyType::Hash));
    assert!(db.check_typ_unanimous(&"DEL".to_string(), &s, &KeyType::Hash));
    assert!(db.check_typ_unanimous(&"FLUSHDB".to_string(), &s, &KeyType::Hash));
    assert!(db.check_typ_unanimous(&"HGET".to_string(), &"other".to_string(), &KeyType::Hash));
}

#[test]
fn key_type_from_protocol() {
    assert_eq!(KeyType::from(message(&["get", "k"]).protocol), KeyType::String);
    assert_eq!(KeyType::from(message(&["hdel", "k", "f"]).protocol), KeyType::Hash);
    assert_eq!(KeyType::from(message(&["del", "k"]).protocol), KeyType::String);
}

#[test]
fn database_clone_is_a_separate_copy() {
    let mut db = Inner::new();
    run(&mut db, &["set", "s", "1"]);
    run(&mut db, &["hset", "h", "f", "v"]);
    let copy = db.clone();
    run(&mut db, &["del", "s", "h"]);
    run(&mut db, &["hset", "s", "f", "w"]);
    let mut copy = copy;
    assert_eq!(run(&mut copy, &["get", "s"]), "$1\r\n1\r\n");
    assert_eq!(run(&mut copy, &["hget", "h", "f"]), "$1\r\nv\r\n");
    assert_eq!(run(&mut copy, &["hget", "s", "f"]), WRONGTYPE);
    assert_eq!(run(&mut db, &["hget", "s", "f"]), "$1\r\nw\r\n");
}

#[test]
fn value_expires_after_px() {
    let mut db = Inner::new();
    assert_eq!(run_at(&mut db, &["set", "k", "v", "px", "100"], 1000), "+OK\r\n");
    assert_eq!(run_at(&mut db, &["get", "k"], 1099), "$1\r\nv\r\n");
    assert_eq!(run_at(&mut db, &["get", "k"], 1100), "$-1\r\n");
    // the expired key is gone with its kind
    assert_eq!(run_at(&mut db, &["hset", "k", "f", "v"], 1100), ":1\r\n");
    assert_eq!(run_at(&mut db, &["hget", "k", "f"], 99999), "$1\r\nv\r\n");
}

#[test]
fn value_expires_after_ex_seconds() {
    let mut db = Inner::new();
    assert_eq!(run_at(&mut db, &["SET", "k", "v", "EX", "2"], 0), "+OK\r\n");
    assert_eq!(run_at(&mut db, &["get", "k"], 1999), "$1\r\nv\r\n");
    assert_eq!(run_at(&mut db, &["get", "k"], 2000), "$-1\r\n");
}

#[test]
fn set_without_expiry_clears_it() {
    let mut db = Inner::new();
    run_at(&mut db, &["set", "k", "v", "ex", "1"], 0);
    assert_eq!(run_at(&mut db, &["set", "k", "w"], 500), "+OK\r\n");
    assert_eq!(run_at(&mut db, &["get", "k"], 5000), "$1\r\nw\r\n");
}

#[test]
fn expired_key_is_absent_to_del_and_conditions() {
    let mut db = Inner::new();
    run_at(&mut db, &["set", "a", "1", "px", "10"], 0);
    run_at(&mut db, &["set", "b", "2", "px", "10"], 0);
    assert_eq!(run_at(&mut db, &["del", "a"], 10), ":0\r\n");
    assert_eq!(run_at(&mut db, &["set", "b", "3", "xx"], 10), "$-1\r\n");
    assert_eq!(run_at(&mut db, &["set", "b", "4", "nx"], 10), "+OK\r\n");
    assert_eq!(run_at(&mut db, &["get", "b"], 10), "$1\r\n4\r\n");
}

#[test]
fn refused_set_keeps_the_expiry() {
    let mut db = Inner::new();
    run_at(&mut db, &["set", "k", "v", "px", "50"], 0);
    assert_eq!(run_at(&mut db, &["set", "k", "w", "nx"], 10), "$-1\r\n");
    assert_eq!(run_at(&mut db, &["get", "k"], 49), "$1\r\nv\r\n");
    assert_eq!(run_at(&mut db, &["get", "k"], 50), "$-1\r\n");
}
