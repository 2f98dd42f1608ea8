use kvcore::lists::Lists;
use kvcore::strings::Strings;
use kvcore::types::{EngineError, EngineRes};

fn b(s: &str) -> Vec<u8> {
    s.as_bytes().to_vec()
}

fn value(r: EngineRes) -> Option<Vec<u8>> {
    match r {
        EngineRes::StringRes(v) => Some(v),
        EngineRes::Nil => None,
        other => panic!("{:?}", other),
    }
}

fn uint(r: EngineRes) -> usize {
    match r {
        EngineRes::UIntRes(n) => n,
        other => panic!("{:?}", other),
    }
}

#[test]
fn string_set_get_and_overwrite() {
    let mut s = Strings::new();
    assert_eq!(value(s.get(&b("k"))), None);
    assert!(matches!(s.set(b("k"), b("v")), EngineRes::Success));
    assert_eq!(value(s.get(&b("k"))), Some(b("v")));
    s.set(b("k"), b("w"));
    assert_eq!(value(s.get(&b("k"))), Some(b("w")));
}

#[test]
fn string_delete_and_count_present() {
    let mut s = Strings::new();
    s.set(b("a"), b("1"));
    s.set(b("b"), b("2"));
    assert_eq!(uint(s.count_present(&vec![b("a"), b("a"), b("c")])), 2);
    assert_eq!(uint(s.del(&vec![b("a"), b("a"), b("c")])), 1);
    assert_eq!(value(s.get(&b("a"))), None);
    assert_eq!(value(s.get(&b("b"))), Some(b("2")));
}

#[test]
fn string_rename_moves_value() {
    let mut s = Strings::new();
    s.set(b("a"), b("1"));
    s.set(b("b"), b("2"));
    assert!(matches!(s.rename(&b("a"), b("b")), EngineRes::Success));
    assert_eq!(value(s.get(&b("a"))), None);
    assert_eq!(value(s.get(&b("b"))), Some(b("1")));
    assert!(matches!(
        s.rename(&b("missing"), b("x")),
        EngineRes::Error(EngineError::NoSuchKey)
    ));
    assert_eq!(value(s.get(&b("x"))), None);
    assert!(matches!(s.rename(&b("b"), b("b")), EngineRes::Success));
    assert_eq!(value(s.get(&b("b"))), Some(b("1")));
}

#[test]
fn list_push_pop_order() {
    let mut l = Lists::new();
    assert_eq!(uint(l.lpush(b("k"), vec![b("a"), b("b"), b("c")])), 3);
    assert_eq!(uint(l.llen(&b("k"))), 3);
    assert_eq!(value(l.lpop(&b("k"))), Some(b("c")));
    assert_eq!(uint(l.lpush(b("k"), vec![b("d")])), 3);
    assert_eq!(value(l.lpop(&b("k"))), Some(b("d")));
    assert_eq!(value(l.lpop(&b("k"))), Some(b("b")));
    assert_eq!(value(l.lpop(&b("k"))), Some(b("a")));
    assert_eq!(value(l.lpop(&b("k"))), None);
    assert_eq!(uint(l.llen(&b("k"))), 0);
}

#[test]
fn list_push_if_exists() {
    let mut l = Lists::new();
    assert_eq!(uint(l.lpushx(b("k"), b("a"))), 0);
    assert_eq!(uint(l.llen(&b("k"))), 0);
    assert_eq!(value(l.lpop(&b("k"))), None);
    l.lpush(b("k"), vec![b("a")]);
    assert_eq!(uint(l.lpushx(b("k"), b("b"))), 2);
    assert_eq!(value(l.lpop(&b("k"))), Some(b("b")));
}
