use fake_redis_rs::config::parse_with;
use fake_redis_rs::parser;
use fake_redis_rs::protocol::{KeyType, Lock, Protocol, TTL};

fn words(ws: &[&str]) -> Vec<String> {
    ws.iter().map(|s| s.to_string()).collect()
}

#[test]
fn get_parses_key() {
    match parser::get::transform(words(&["get", "k"])) {
        Protocol::Get { typ, key } => {
            assert_eq!(typ, KeyType::String);
            assert_eq!(key, "k");
        }
        other => panic!("unexpected {:?}", other),
    }
}

#[test]
fn set_with_ex_and_nx() {
    match parser::set::transform(words(&["set", "k", "v", "ex", "10", "nx"])) {
        Protocol::StrSet { typ, key, value, ttl, lock } => {
            assert_eq!(typ, KeyType::String);
            assert_eq!(key, "k");
            assert_eq!(value, "v");
            assert_eq!(ttl, Some((TTL::EX, 10)));
            assert_eq!(lock, Some(Lock::NX));
        }
        other => panic!("unexpected {:?}", other),
    }
}

#[test]
fn get_wrong_arity_is_syntax_error() {
    match parser::get::transform(words(&["get"])) {
        Protocol::Error(e) => assert_eq!(e, "ERR syntax error"),
        other => panic!("unexpected {:?}", other),
    }
    match parser::get::transform(words(&["get", "a", "b"])) {
        Protocol::Error(e) => assert_eq!(e, "ERR syntax error"),
        other => panic!("unexpected {:?}", other),
    }
}

#[test]
fn set_plain() {
    match parser::set::transform(words(&["SET", "key", "value"])) {
        Protocol::StrSet { typ, key, value, ttl, lock } => {
            assert_eq!(typ, KeyType::String);
            assert_eq!(key, "key");
            assert_eq!(value, "value");
            assert_eq!(ttl, None);
            assert_eq!(lock, None);
        }
        other => panic!("unexpected {:?}", other),
    }
}

#[test]
fn set_too_few_arguments() {
    match parser::set::transform(words(&["set", "k"])) {
        Protocol::Error(e) => assert_eq!(e, "ERR wrong number of arguments for 'set' command"),
        other => panic!("unexpected {:?}", other),
    }
}

#[test]
fn set_px_with_xx() {
    match parser::set::transform(words(&["set", "k", "v", "PX", "+250", "xx"])) {
        Protocol::StrSet { ttl, lock, .. } => {
            assert_eq!(ttl, Some((TTL::PX, 250)));
            assert_eq!(lock, Some(Lock::XX));
        }
        other => panic!("unexpected {:?}", other),
    }
}

#[test]
fn set_expiry_without_condition() {
    // the condition is optional
    match parser::set::transform(words(&["SET", "k", "v", "EX", "10"])) {
        Protocol::StrSet { typ, key, value, ttl, lock } => {
            assert_eq!(typ, KeyType::String);
            assert_eq!(key, "k");
            assert_eq!(value, "v");
            assert_eq!(ttl, Some((TTL::EX, 10)));
            assert_eq!(lock, None);
        }
        other => panic!("unexpected {:?}", other),
    }
}

#[test]
fn set_value_spelled_like_a_condition() {
    // the key and the value are read by position, never as conditions
    match parser::set::transform(words(&["SET", "k", "nx", "XX"])) {
        Protocol::StrSet { key, value, ttl, lock, .. } => {
            assert_eq!(key, "k");
            assert_eq!(value, "nx");
            assert_eq!(ttl, None);
            assert_eq!(lock, Some(Lock::XX));
        }
        other => panic!("unexpected {:?}", other),
    }
    match parser::set::transform(words(&["set", "xx", "nx"])) {
        Protocol::StrSet { key, value, lock, .. } => {
            assert_eq!((key.as_str(), value.as_str()), ("xx", "nx"));
            assert_eq!(lock, None);
        }
        other => panic!("unexpected {:?}", other),
    }
}

#[test]
fn set_bad_unit_or_amount_is_syntax_error() {
    for args in [
        &["set", "k", "v", "ZZ", "10", "nx"][..],
        &["set", "k", "v", "ex", "ten", "nx"][..],
        &["set", "k", "v", "ex", "-1", "nx"][..],
        &["set", "k", "v", "nx", "xx"][..],
    ] {
        match parser::set::transform(words(args)) {
            Protocol::Error(e) => assert_eq!(e, "ERR syntax error"),
            other => panic!("unexpected {:?} for {:?}", other, args),
        }
    }
}

#[test]
fn set_condition_alone() {
    match parser::set::transform(words(&["set", "k", "v", "nx"])) {
        Protocol::StrSet { ttl, lock, .. } => {
            assert_eq!(ttl, None);
            assert_eq!(lock, Some(Lock::NX));
        }
        other => panic!("unexpected {:?}", other),
    }
}

#[test]
fn hset_hget_hdel_del_parse() {
    match parser::hset::transform(words(&["hset", "h", "f", "v"])) {
        Protocol::HSet { typ, key, field, value } => {
            assert_eq!(typ, KeyType::Hash);
            assert_eq!((key.as_str(), field.as_str(), value.as_str()), ("h", "f", "v"));
        }
        other => panic!("unexpected {:?}", other),
    }
    match parser::hget::transform(words(&["hget", "h", "f"])) {
        Protocol::HGet { typ, key, field } => {
            assert_eq!(typ, KeyType::Hash);
            assert_eq!((key.as_str(), field.as_str()), ("h", "f"));
        }
        other => panic!("unexpected {:?}", other),
    }
    match parser::hdel::transform(words(&["hdel", "h", "f", "g"])) {
        Protocol::HDel { typ, key, fields } => {
            assert_eq!(typ, KeyType::Hash);
            assert_eq!(key, "h");
            assert_eq!(fields, words(&["f", "g"]));
        }
        other => panic!("unexpected {:?}", other),
    }
    match parser::del::transform(words(&["del", "a", "b"])) {
        Protocol::Del { typ, keys } => {
            assert_eq!(typ, KeyType::String);
            assert_eq!(keys, words(&["a", "b"]));
        }
        other => panic!("unexpected {:?}", other),
    }
}

#[test]
fn arity_errors() {
    let cases: [(&[&str], fn(Vec<String>) -> Protocol, &str); 4] = [
        (&["hset", "h", "f"], parser::hset::transform, "ERR wrong number of arguments for 'hset' command"),
        (&["hget", "h"], parser::hget::transform, "ERR wrong number of arguments for 'hget' command"),
        (&["hdel", "h"], parser::hdel::transform, "ERR wrong number of arguments for 'hdel' command"),
        (&["del"], parser::del::transform, "ERR wrong number of arguments for 'del' command"),
    ];
    for (args, parse, expected) in cases.iter() {
        match parse(words(args)) {
            Protocol::Error(e) => assert_eq!(e, *expected),
            other => panic!("unexpected {:?}", other),
        }
    }
}

#[test]
fn command_parses() {
    assert!(matches!(parser::command::transform(words(&["command"])), Protocol::Command));
}

#[test]
fn entry_set_package() {
    let lines = words(&["*3", "$3", "set", "$3", "key", "$5", "value"]);
    let m = parser::entry(lines).expect("parsed");
    assert_eq!(m.cmd, "SET");
    assert_eq!(m.key, "key");
    match m.protocol {
        Protocol::StrSet { key, value, .. } => {
            assert_eq!(key, "key");
            assert_eq!(value, "value");
        }
        other => panic!("unexpected {:?}", other),
    }
}

#[test]
fn entry_command_package_has_empty_key() {
    let m = parser::entry(words(&["*1", "$7", "COMMAND"])).expect("parsed");
    assert_eq!(m.cmd, "COMMAND");
    assert_eq!(m.key, "");
    assert!(matches!(m.protocol, Protocol::Command));
}

#[test]
fn entry_unknown_or_short() {
    assert!(parser::entry(words(&["*1"])).is_err());
    assert!(parser::entry(words(&["*1", "$3"])).is_err());
    assert!(parser::entry(Vec::new()).is_err());
    assert!(parser::entry(words(&["*1", "$4", "PING"])).is_err());
}

#[test]
fn entry_upper_cases_the_name() {
    let m = parser::entry(words(&["*4", "$4", "hSeT", "$1", "h", "$1", "f", "$1", "v"])).expect("parsed");
    assert_eq!(m.cmd, "HSET");
    assert!(matches!(m.protocol, Protocol::HSet { .. }));
}

#[test]
fn parse_with_dispatches_by_name() {
    assert!(matches!(parse_with(&"GET".to_string(), words(&["get", "k"])), Some(Protocol::Get { .. })));
    assert!(parse_with(&"get".to_string(), words(&["get", "k"])).is_none());
    assert!(parse_with(&"INFO".to_string(), words(&["info"])).is_none());
}

#[test]
fn set_amounts_as_usize_reads_them() {
    let cases: [(&str, Option<usize>); 6] =
        [("12", Some(12)), ("+12", Some(12)), ("", None), ("+", None), ("-1", None), (" 1", None)];
    for (amount, expected) in cases.iter() {
        let p = parser::set::transform(words(&["set", "k", "v", "ex", amount, "nx"]));
        match (p, expected) {
            (Protocol::StrSet { ttl, .. }, Some(n)) => assert_eq!(ttl, Some((TTL::EX, *n))),
            (Protocol::Error(e), None) => assert_eq!(e, "ERR syntax error"),
            (other, _) => panic!("unexpected {:?} for {:?}", other, amount),
        }
    }
}
