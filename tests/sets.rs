use kvcore::sets::Sets;
use kvcore::types::EngineRes;

fn b(s: &str) -> Vec<u8> {
    s.as_bytes().to_vec()
}

fn uint(r: EngineRes) -> usize {
    match r {
        EngineRes::UIntRes(n) => n,
        other => panic!("{:?}", other),
    }
}

fn sorted(r: EngineRes) -> Vec<Vec<u8>> {
    match r {
        EngineRes::MultiStringRes(mut v) => {
            v.sort();
            v
        }
        other => panic!("{:?}", other),
    }
}

fn sample() -> Sets {
    let mut s = Sets::new();
    s.sadd(b("x"), &vec![b("a"), b("b"), b("c")]);
    s.sadd(b("y"), &vec![b("b"), b("c"), b("d")]);
    s.sadd(b("z"), &vec![b("c"), b("e")]);
    s
}

#[test]
fn add_counts_new_members_only() {
    let mut s = Sets::new();
    assert_eq!(uint(s.sadd(b("k"), &vec![b("a"), b("b"), b("a")])), 2);
    assert_eq!(uint(s.sadd(b("k"), &vec![b("b"), b("c")])), 1);
    assert_eq!(uint(s.scard(&b("k"))), 3);
    assert_eq!(sorted(s.smembers(&b("k"))), vec![b("a"), b("b"), b("c")]);
    assert_eq!(uint(s.sismember(&b("k"), &b("a"))), 1);
    assert_eq!(uint(s.sismember(&b("k"), &b("q"))), 0);
    assert_eq!(uint(s.scard(&b("none"))), 0);
    assert_eq!(sorted(s.smembers(&b("none"))), Vec::<Vec<u8>>::new());
}

#[test]
fn remove_counts_present_members() {
    let mut s = Sets::new();
    s.sadd(b("k"), &vec![b("a"), b("b")]);
    assert_eq!(uint(s.srem(&b("k"), &vec![b("a"), b("a"), b("z")])), 1);
    assert_eq!(sorted(s.smembers(&b("k"))), vec![b("b")]);
    assert_eq!(uint(s.srem(&b("none"), &vec![b("a")])), 0);
}

#[test]
fn move_between_sets() {
    let mut s = sample();
    assert_eq!(uint(s.smove(&b("x"), b("w"), b("a"))), 1);
    assert_eq!(uint(s.sismember(&b("x"), &b("a"))), 0);
    assert_eq!(uint(s.sismember(&b("w"), &b("a"))), 1);
    assert_eq!(uint(s.smove(&b("x"), b("w"), b("a"))), 0);
    assert_eq!(uint(s.smove(&b("y"), b("y"), b("d"))), 1);
    assert_eq!(uint(s.sismember(&b("y"), &b("d"))), 1);
}

#[test]
fn set_algebra() {
    let s = sample();
    let keys = vec![b("x"), b("y"), b("z")];
    assert_eq!(sorted(s.sunion(&keys)), vec![b("a"), b("b"), b("c"), b("d"), b("e")]);
    assert_eq!(sorted(s.sinter(&keys)), vec![b("c")]);
    assert_eq!(sorted(s.sdiff(&keys)), vec![b("a")]);
    assert_eq!(sorted(s.sinter(&vec![b("x"), b("none")])), Vec::<Vec<u8>>::new());
    assert_eq!(sorted(s.sdiff(&vec![b("x"), b("none")])), vec![b("a"), b("b"), b("c")]);
}

#[test]
fn set_algebra_stored() {
    let mut s = sample();
    let keys = vec![b("x"), b("y")];
    assert_eq!(uint(s.sinterstore(&b("dst"), &keys)), 2);
    assert_eq!(sorted(s.smembers(&b("dst"))), vec![b("b"), b("c")]);
    assert_eq!(uint(s.sunionstore(&b("dst"), &keys)), 4);
    assert_eq!(sorted(s.smembers(&b("dst"))), vec![b("a"), b("b"), b("c"), b("d")]);
    assert_eq!(uint(s.sdiffstore(&b("dst"), &keys)), 1);
    assert_eq!(sorted(s.smembers(&b("dst"))), vec![b("a")]);
    assert_eq!(uint(s.sinterstore(&b("dst"), &vec![b("x"), b("z"), b("y")])), 1);
    assert_eq!(sorted(s.smembers(&b("dst"))), vec![b("c")]);
}

#[test]
fn pop_removes_chosen_members() {
    let mut s = Sets::new();
    s.sadd(b("k"), &vec![b("a"), b("b"), b("c")]);
    let one = match s.spop(&b("k"), None, 7) {
        EngineRes::StringRes(v) => v,
        other => panic!("{:?}", other),
    };
    assert!(one == b("a") || one == b("b") || one == b("c"));
    assert_eq!(uint(s.sismember(&b("k"), &one)), 0);
    assert_eq!(uint(s.scard(&b("k"))), 2);
    let two = sorted(s.spop(&b("k"), Some(5), 3));
    assert_eq!(two.len(), 2);
    assert!(!two.contains(&one));
    assert_eq!(uint(s.scard(&b("k"))), 0);
    assert!(matches!(s.spop(&b("k"), None, 0), EngineRes::Nil));
    assert!(matches!(s.spop(&b("none"), None, 0), EngineRes::Nil));
}

#[test]
fn random_members_stay() {
    let mut s = Sets::new();
    s.sadd(b("k"), &vec![b("a"), b("b"), b("c")]);
    match s.srandmember(&b("k"), None, 11) {
        EngineRes::StringRes(v) => assert!(v == b("a") || v == b("b") || v == b("c")),
        other => panic!("{:?}", other),
    }
    let distinct = sorted(s.srandmember(&b("k"), Some(2), 5));
    assert_eq!(distinct.len(), 2);
    assert_ne!(distinct[0], distinct[1]);
    assert_eq!(sorted(s.srandmember(&b("k"), Some(10), 5)), vec![b("a"), b("b"), b("c")]);
    let repeated = sorted(s.srandmember(&b("k"), Some(-5), 1));
    assert_eq!(repeated.len(), 5);
    assert_eq!(uint(s.scard(&b("k"))), 3);
    assert!(matches!(s.srandmember(&b("none"), None, 0), EngineRes::Nil));
    assert_eq!(sorted(s.srandmember(&b("none"), Some(-3), 0)), Vec::<Vec<u8>>::new());
}
