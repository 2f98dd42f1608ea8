use kvcore::hashes::{hash_interact, hash_read, HashOps, Hashes};
use kvcore::numeric::{decimal_bytes, parse_i64, parse_usize};
use kvcore::types::{EngineError, EngineRes};

fn b(s: &str) -> Vec<u8> {
    s.as_bytes().to_vec()
}

fn run(h: &mut Hashes, op: HashOps) -> EngineRes {
    hash_interact(op, h)
}

fn get(h: &mut Hashes, k: &str, f: &str) -> Option<Vec<u8>> {
    match run(h, HashOps::HGet(b(k), b(f))) {
        EngineRes::StringRes(v) => Some(v),
        EngineRes::Nil => None,
        other => panic!("{:?}", other),
    }
}

fn uint(r: EngineRes) -> usize {
    match r {
        EngineRes::UIntRes(n) => n,
        other => panic!("{:?}", other),
    }
}

fn strings(r: EngineRes) -> Vec<Vec<u8>> {
    match r {
        EngineRes::MultiStringRes(v) => v,
        other => panic!("{:?}", other),
    }
}

fn is_success(r: &EngineRes) -> bool {
    matches!(r, EngineRes::Success)
}

#[test]
fn set_then_get_returns_value() {
    let mut h = Hashes::new();
    assert!(is_success(&run(&mut h, HashOps::HSet(b("k"), b("f"), b("v")))));
    assert_eq!(get(&mut h, "k", "f"), Some(b("v")));
    assert!(is_success(&run(&mut h, HashOps::HSet(b("k"), b("f"), b("w")))));
    assert_eq!(get(&mut h, "k", "f"), Some(b("w")));
    assert_eq!(get(&mut h, "k", "g"), None);
    assert_eq!(get(&mut h, "other", "f"), None);
}

#[test]
fn delete_after_set_drops_count_by_one() {
    let mut h = Hashes::new();
    run(&mut h, HashOps::HSet(b("k"), b("a"), b("1")));
    run(&mut h, HashOps::HSet(b("k"), b("f"), b("v")));
    assert_eq!(uint(run(&mut h, HashOps::HLen(b("k")))), 2);
    assert_eq!(uint(run(&mut h, HashOps::HDel(b("k"), vec![b("f")]))), 1);
    assert_eq!(uint(run(&mut h, HashOps::HLen(b("k")))), 1);
    assert_eq!(get(&mut h, "k", "f"), None);
}

#[test]
fn delete_counts_each_field_once() {
    let mut h = Hashes::new();
    run(&mut h, HashOps::HSet(b("k"), b("f"), b("v")));
    assert_eq!(uint(run(&mut h, HashOps::HDel(b("k"), vec![b("f"), b("f"), b("x")]))), 1);
    assert_eq!(uint(run(&mut h, HashOps::HDel(b("absent"), vec![b("f")]))), 0);
    assert_eq!(uint(run(&mut h, HashOps::HLen(b("k")))), 0);
    assert_eq!(strings(run(&mut h, HashOps::HGetAll(b("k")))), Vec::<Vec<u8>>::new());
}

#[test]
fn increment_absent_then_again() {
    let mut h = Hashes::new();
    assert!(is_success(&run(&mut h, HashOps::HIncrBy(b("k"), b("c"), 5))));
    assert_eq!(get(&mut h, "k", "c"), Some(b("5")));
    assert!(is_success(&run(&mut h, HashOps::HIncrBy(b("k"), b("c"), -12))));
    assert_eq!(get(&mut h, "k", "c"), Some(b("-7")));
}

#[test]
fn increment_of_non_number_fails_and_keeps_value() {
    let mut h = Hashes::new();
    run(&mut h, HashOps::HSet(b("k"), b("f"), b("abc")));
    match run(&mut h, HashOps::HIncrBy(b("k"), b("f"), 1)) {
        EngineRes::Error(e) => {
            assert_eq!(e, EngineError::BadType);
            assert_eq!(e.message(), "Bad Type!");
        }
        other => panic!("{:?}", other),
    }
    assert_eq!(get(&mut h, "k", "f"), Some(b("abc")));
    run(&mut h, HashOps::HSet(b("k"), b("g"), vec![0xff, 0xfe]));
    assert!(matches!(
        run(&mut h, HashOps::HIncrBy(b("k"), b("g"), 1)),
        EngineRes::Error(EngineError::BadType)
    ));
    assert_eq!(get(&mut h, "k", "g"), Some(vec![0xff, 0xfe]));
}

#[test]
fn increment_past_the_range_fails_and_keeps_value() {
    let mut h = Hashes::new();
    run(&mut h, HashOps::HSet(b("k"), b("f"), b("9223372036854775807")));
    match run(&mut h, HashOps::HIncrBy(b("k"), b("f"), 1)) {
        EngineRes::Error(e) => {
            assert_eq!(e, EngineError::Overflow);
            assert_eq!(e.message(), "Overflow!");
        }
        other => panic!("{:?}", other),
    }
    assert_eq!(get(&mut h, "k", "f"), Some(b("9223372036854775807")));
}

#[test]
fn many_increments_are_not_lost() {
    let mut h = Hashes::new();
    for _ in 0..100 {
        assert!(is_success(&run(&mut h, HashOps::HIncrBy(b("k"), b("n"), 1))));
    }
    assert_eq!(get(&mut h, "k", "n"), Some(b("100")));
}

#[test]
fn set_if_absent_only_first_time() {
    let mut h = Hashes::new();
    assert_eq!(uint(run(&mut h, HashOps::HSetNX(b("k"), b("f"), b("first")))), 1);
    assert_eq!(uint(run(&mut h, HashOps::HSetNX(b("k"), b("f"), b("second")))), 0);
    assert_eq!(uint(run(&mut h, HashOps::HSetNX(b("k"), b("f"), b("third")))), 0);
    assert_eq!(get(&mut h, "k", "f"), Some(b("first")));
}

#[test]
fn get_all_on_absent_key_is_empty() {
    let mut h = Hashes::new();
    assert_eq!(strings(run(&mut h, HashOps::HGetAll(b("nope")))), Vec::<Vec<u8>>::new());
    assert_eq!(strings(run(&mut h, HashOps::HKeys(b("nope")))), Vec::<Vec<u8>>::new());
    assert_eq!(strings(run(&mut h, HashOps::HVals(b("nope")))), Vec::<Vec<u8>>::new());
    assert_eq!(uint(run(&mut h, HashOps::HLen(b("nope")))), 0);
}

#[test]
fn get_all_flattens_pairs() {
    let mut h = Hashes::new();
    run(&mut h, HashOps::HSet(b("k"), b("a"), b("1")));
    run(&mut h, HashOps::HSet(b("k"), b("b"), b("2")));
    let all = strings(run(&mut h, HashOps::HGetAll(b("k"))));
    assert_eq!(all.len(), 2 * uint(run(&mut h, HashOps::HLen(b("k")))));
    let mut pairs: Vec<(Vec<u8>, Vec<u8>)> =
        all.chunks(2).map(|c| (c[0].clone(), c[1].clone())).collect();
    pairs.sort();
    assert_eq!(pairs, vec![(b("a"), b("1")), (b("b"), b("2"))]);
    let mut keys = strings(run(&mut h, HashOps::HKeys(b("k"))));
    keys.sort();
    assert_eq!(keys, vec![b("a"), b("b")]);
    let mut vals = strings(run(&mut h, HashOps::HVals(b("k"))));
    vals.sort();
    assert_eq!(vals, vec![b("1"), b("2")]);
}

#[test]
fn multi_get_keeps_requested_order() {
    let mut h = Hashes::new();
    run(&mut h, HashOps::HSet(b("k"), b("f1"), b("v1")));
    match run(&mut h, HashOps::HMGet(b("k"), vec![b("f1"), b("f2")])) {
        EngineRes::Array(items) => assert_eq!(items, vec![Some(b("v1")), None]),
        other => panic!("{:?}", other),
    }
    match run(&mut h, HashOps::HMGet(b("absent"), vec![b("f1"), b("f2")])) {
        EngineRes::Array(items) => assert_eq!(items, vec![None, None]),
        other => panic!("{:?}", other),
    }
}

#[test]
fn multi_set_later_pairs_win() {
    let mut h = Hashes::new();
    let r = run(
        &mut h,
        HashOps::HMSet(b("k"), vec![(b("a"), b("1")), (b("b"), b("2")), (b("a"), b("3"))]),
    );
    assert!(is_success(&r));
    assert_eq!(get(&mut h, "k", "a"), Some(b("3")));
    assert_eq!(get(&mut h, "k", "b"), Some(b("2")));
    assert_eq!(uint(run(&mut h, HashOps::HLen(b("k")))), 2);
}

#[test]
fn exists_and_value_length() {
    let mut h = Hashes::new();
    run(&mut h, HashOps::HSet(b("k"), b("f"), b("hello")));
    assert_eq!(uint(run(&mut h, HashOps::HExists(b("k"), b("f")))), 1);
    assert_eq!(uint(run(&mut h, HashOps::HExists(b("k"), b("g")))), 0);
    assert_eq!(uint(run(&mut h, HashOps::HExists(b("x"), b("f")))), 0);
    assert_eq!(uint(run(&mut h, HashOps::HStrLen(b("k"), b("f")))), 5);
    assert_eq!(uint(run(&mut h, HashOps::HStrLen(b("k"), b("g")))), 0);
}

#[test]
fn read_path_matches_and_reports_read_only() {
    let mut h = Hashes::new();
    run(&mut h, HashOps::HSet(b("k"), b("f"), b("v")));
    let op = HashOps::HGet(b("k"), b("f"));
    assert!(op.is_read_only());
    match hash_read(&op, &h) {
        EngineRes::StringRes(v) => assert_eq!(v, b("v")),
        other => panic!("{:?}", other),
    }
    assert!(!HashOps::HSet(b("k"), b("f"), b("v")).is_read_only());
    assert!(!HashOps::HIncrBy(b("k"), b("f"), 1).is_read_only());
}

#[test]
fn decimal_text_round_trips() {
    assert_eq!(decimal_bytes(0), b("0"));
    assert_eq!(decimal_bytes(42), b("42"));
    assert_eq!(decimal_bytes(-7), b("-7"));
    assert_eq!(decimal_bytes(i64::MIN), b("-9223372036854775808"));
    assert_eq!(decimal_bytes(i64::MAX), b("9223372036854775807"));
    assert_eq!(parse_i64(b"-9223372036854775808"), Some(i64::MIN));
    assert_eq!(parse_i64(b"9223372036854775808"), None);
    assert_eq!(parse_i64(b"+15"), Some(15));
    assert_eq!(parse_i64(b"007"), Some(7));
    assert_eq!(parse_i64(b""), None);
    assert_eq!(parse_i64(b"-"), None);
    assert_eq!(parse_i64(b"1 "), None);
    assert_eq!(parse_usize(b"+3"), Some(3));
    assert_eq!(parse_usize(b"-0"), None);
    assert_eq!(parse_usize(b"18446744073709551616"), None);
}
