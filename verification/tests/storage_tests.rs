use fake_redis_rs::storage::hash::THash;
use fake_redis_rs::storage::keyed::KeyedMap;
use fake_redis_rs::protocol::{Lock, TTL};
use fake_redis_rs::storage::string::{deadline, TString};

fn s(x: &str) -> String {
    x.to_string()
}

#[test]
fn tstring_set_get_remove() {
    let mut t = TString::new();
    assert_eq!(t.get(s("k")), Ok(s("$-1\r\n")));
    assert_eq!(t.set(s("k"), s("v1"), None, None, 0), Ok(s("+OK\r\n")));
    assert_eq!(t.get(s("k")), Ok(s("$2\r\nv1\r\n")));
    assert_eq!(t.set(s("k"), s("longer"), None, None, 0), Ok(s("+OK\r\n")));
    assert_eq!(t.get(s("k")), Ok(s("$6\r\nlonger\r\n")));
    assert!(t.remove("k"));
    assert!(!t.remove("k"));
    assert_eq!(t.get(s("k")), Ok(s("$-1\r\n")));
}

#[test]
fn tstring_set_conditions() {
    let mut t = TString::new();
    assert_eq!(t.set(s("k"), s("a"), None, Some(Lock::XX), 0), Ok(s("$-1\r\n")));
    assert_eq!(t.get(s("k")), Ok(s("$-1\r\n")));
    assert_eq!(t.set(s("k"), s("a"), Some((TTL::PX, 5)), Some(Lock::NX), 0), Ok(s("+OK\r\n")));
    assert_eq!(t.set(s("k"), s("b"), None, Some(Lock::NX), 0), Ok(s("$-1\r\n")));
    assert_eq!(t.get(s("k")), Ok(s("$1\r\na\r\n")));
    assert_eq!(t.set(s("k"), s("c"), None, Some(Lock::XX), 0), Ok(s("+OK\r\n")));
    assert_eq!(t.get(s("k")), Ok(s("$1\r\nc\r\n")));
}

#[test]
fn thash_set_counts_new_fields() {
    let mut h = THash::new();
    assert_eq!(h.set(s("h"), s("f"), s("1")), Ok(s(":1\r\n")));
    assert_eq!(h.set(s("h"), s("f"), s("2")), Ok(s(":0\r\n")));
    assert_eq!(h.set(s("h"), s("g"), s("3")), Ok(s(":1\r\n")));
    assert_eq!(h.get(s("h"), s("f")), Ok(s("$1\r\n2\r\n")));
    assert_eq!(h.get(s("h"), s("g")), Ok(s("$1\r\n3\r\n")));
    assert_eq!(h.get(s("h"), s("x")), Ok(s("$-1\r\n")));
    assert_eq!(h.get(s("nope"), s("f")), Ok(s("$-1\r\n")));
}

#[test]
fn thash_del_counts_and_drops_empty_keys() {
    let mut h = THash::new();
    h.set(s("h"), s("a"), s("1")).unwrap();
    h.set(s("h"), s("b"), s("2")).unwrap();
    assert_eq!(h.del(s("missing"), vec![s("a")]), Ok(s(":0\r\n")));
    assert_eq!(h.del(s("h"), vec![s("a"), s("a"), s("zz")]), Ok(s(":1\r\n")));
    assert_eq!(h.get(s("h"), s("a")), Ok(s("$-1\r\n")));
    assert_eq!(h.get(s("h"), s("b")), Ok(s("$1\r\n2\r\n")));
    assert_eq!(h.del(s("h"), vec![s("b")]), Ok(s(":1\r\n")));
    // the key went with its last field
    assert!(!h.remove("h"));
}

#[test]
fn thash_remove() {
    let mut h = THash::new();
    h.set(s("h"), s("a"), s("1")).unwrap();
    assert!(h.remove("h"));
    assert!(!h.remove("h"));
    assert_eq!(h.get(s("h"), s("a")), Ok(s("$-1\r\n")));
}

#[test]
fn tstring_clone_is_a_separate_copy() {
    let mut t = TString::new();
    t.set(s("a"), s("1"), None, None, 0).unwrap();
    t.set(s("b"), s("2"), None, None, 0).unwrap();
    let c = t.clone();
    t.set(s("a"), s("changed"), None, None, 0).unwrap();
    assert!(t.remove("b"));
    assert_eq!(c.get(s("a")), Ok(s("$1\r\n1\r\n")));
    assert_eq!(c.get(s("b")), Ok(s("$1\r\n2\r\n")));
    assert_eq!(t.get(s("b")), Ok(s("$-1\r\n")));
}

#[test]
fn thash_clone_is_a_separate_copy() {
    let mut h = THash::new();
    h.set(s("h"), s("f"), s("1")).unwrap();
    h.set(s("h"), s("g"), s("2")).unwrap();
    let c = h.clone();
    assert_eq!(h.del(s("h"), vec![s("f"), s("g")]), Ok(s(":2\r\n")));
    assert_eq!(c.get(s("h"), s("f")), Ok(s("$1\r\n1\r\n")));
    assert_eq!(c.get(s("h"), s("g")), Ok(s("$1\r\n2\r\n")));
    assert_eq!(h.get(s("h"), s("f")), Ok(s("$-1\r\n")));
}

#[test]
fn keyed_map_lists_its_keys() {
    let mut m: KeyedMap<u32> = KeyedMap::new();
    m.insert(s("a"), 1);
    m.insert(s("b"), 2);
    m.insert(s("a"), 3);
    assert_eq!(m.len(), 2);
    assert_eq!(m.get("a"), Some(&3));
    m.remove("a");
    m.remove("zz");
    assert_eq!(m.len(), 1);
    assert!(!m.contains_key("a"));
    let c = m.clone();
    m.insert(s("c"), 4);
    assert_eq!(c.len(), 1);
    assert_eq!(c.get("b"), Some(&2));
    assert_eq!(c.get("c"), None);
}

#[test]
fn tstring_deadline_of_an_expiry() {
    assert_eq!(deadline(None, 7), None);
    assert_eq!(deadline(Some((TTL::EX, 2)), 500), Some(2500));
    assert_eq!(deadline(Some((TTL::PX, 2)), 500), Some(502));
    assert_eq!(deadline(Some((TTL::PX, 1)), u64::MAX), None);
    assert_eq!(deadline(Some((TTL::EX, usize::MAX)), 0), None);
}
