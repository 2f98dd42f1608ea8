use kvcore::hashes::HashOps;
use kvcore::ops::{translate, Ops, OpsError};
use kvcore::types::RedisValue;

fn bulk(s: &str) -> RedisValue {
    RedisValue::BulkString(s.as_bytes().to_vec())
}

fn simple(s: &str) -> RedisValue {
    RedisValue::SimpleString(s.as_bytes().to_vec())
}

fn array(items: Vec<RedisValue>) -> RedisValue {
    RedisValue::Array(items)
}

fn err_of(rv: RedisValue) -> OpsError {
    match translate(&rv) {
        Err(e) => e,
        Ok(op) => panic!("expected an error, got {:?}", op),
    }
}

fn ok_of(rv: RedisValue) -> Ops {
    match translate(&rv) {
        Ok(op) => op,
        Err(e) => panic!("expected a command, got {:?}", e),
    }
}

#[test]
fn hset_with_only_a_key_is_wrong_number_of_args() {
    assert_eq!(err_of(array(vec![bulk("HSET"), bulk("k")])), OpsError::WrongNumberOfArgs(3));
}

#[test]
fn empty_array_is_noop() {
    assert_eq!(err_of(array(vec![])), OpsError::Noop);
}

#[test]
fn bare_ping_and_keys_in_any_case() {
    assert!(matches!(ok_of(simple("PING")), Ops::Pong));
    assert!(matches!(ok_of(bulk("ping")), Ops::Pong));
    assert!(matches!(ok_of(simple("KeYs")), Ops::Keys));
}

#[test]
fn bare_string_with_other_name_is_unknown() {
    assert_eq!(err_of(simple("get")), OpsError::UnknownOp);
    assert_eq!(err_of(bulk("hello")), OpsError::UnknownOp);
}

#[test]
fn other_wire_shapes_are_unknown() {
    assert_eq!(err_of(RedisValue::Int(3)), OpsError::UnknownOp);
    assert_eq!(err_of(RedisValue::NullArray), OpsError::UnknownOp);
    assert_eq!(err_of(RedisValue::NullBulkString), OpsError::UnknownOp);
    assert_eq!(err_of(RedisValue::Error(b"x".to_vec())), OpsError::UnknownOp);
}

#[test]
fn head_that_is_not_a_string_is_invalid_type() {
    assert_eq!(err_of(array(vec![RedisValue::Int(1), bulk("k")])), OpsError::InvalidType);
}

#[test]
fn unknown_command_name() {
    assert_eq!(err_of(array(vec![bulk("frobnicate"), bulk("k")])), OpsError::UnknownOp);
}

#[test]
fn ping_in_array_ignores_arguments() {
    assert!(matches!(ok_of(array(vec![bulk("ping"), bulk("x")])), Ops::Pong));
}

#[test]
fn set_and_get() {
    match ok_of(array(vec![bulk("SET"), bulk("k"), bulk("v")])) {
        Ops::SetString(k, v) => {
            assert_eq!(k, b"k".to_vec());
            assert_eq!(v, b"v".to_vec());
        }
        other => panic!("{:?}", other),
    }
    assert_eq!(err_of(array(vec![bulk("set"), bulk("k")])), OpsError::WrongNumberOfArgs(2));
    match ok_of(array(vec![bulk("get"), simple("k")])) {
        Ops::Get(k) => assert_eq!(k, b"k".to_vec()),
        other => panic!("{:?}", other),
    }
    assert_eq!(
        err_of(array(vec![bulk("get"), bulk("a"), bulk("b")])),
        OpsError::WrongNumberOfArgs(1)
    );
    assert_eq!(err_of(array(vec![bulk("get"), RedisValue::Int(4)])), OpsError::InvalidType);
}

#[test]
fn variadic_commands_check_arity_then_types() {
    assert_eq!(err_of(array(vec![bulk("del")])), OpsError::NotEnoughArgs(1));
    assert_eq!(
        err_of(array(vec![bulk("del"), bulk("a"), RedisValue::Int(2)])),
        OpsError::InvalidType
    );
    match ok_of(array(vec![bulk("exists"), bulk("a"), bulk("b")])) {
        Ops::Exists(ks) => assert_eq!(ks, vec![b"a".to_vec(), b"b".to_vec()]),
        other => panic!("{:?}", other),
    }
    assert_eq!(err_of(array(vec![bulk("sdiff"), bulk("a")])), OpsError::NotEnoughArgs(2));
    assert_eq!(err_of(array(vec![bulk("sadd"), bulk("s")])), OpsError::NotEnoughArgs(2));
    match ok_of(array(vec![bulk("sadd"), bulk("s"), bulk("m1"), bulk("m2")])) {
        Ops::SAdd(k, ms) => {
            assert_eq!(k, b"s".to_vec());
            assert_eq!(ms, vec![b"m1".to_vec(), b"m2".to_vec()]);
        }
        other => panic!("{:?}", other),
    }
}

#[test]
fn counts_accept_integers_and_digit_strings() {
    match ok_of(array(vec![bulk("spop"), bulk("s"), RedisValue::Int(3)])) {
        Ops::SPop(k, c) => {
            assert_eq!(k, b"s".to_vec());
            assert_eq!(c, Some(3));
        }
        other => panic!("{:?}", other),
    }
    match ok_of(array(vec![bulk("spop"), bulk("s"), simple("+12")])) {
        Ops::SPop(_, c) => assert_eq!(c, Some(12)),
        other => panic!("{:?}", other),
    }
    match ok_of(array(vec![bulk("spop"), bulk("s")])) {
        Ops::SPop(_, c) => assert_eq!(c, None),
        other => panic!("{:?}", other),
    }
    assert_eq!(
        err_of(array(vec![bulk("spop"), bulk("s"), RedisValue::Int(-1)])),
        OpsError::InvalidType
    );
    assert_eq!(
        err_of(array(vec![bulk("spop"), bulk("s"), bulk("two")])),
        OpsError::InvalidType
    );
    match ok_of(array(vec![bulk("srandmember"), bulk("s"), bulk("-2")])) {
        Ops::SRandMembers(_, c) => assert_eq!(c, Some(-2)),
        other => panic!("{:?}", other),
    }
}

#[test]
fn linsert_reads_as_lpop() {
    match ok_of(array(vec![bulk("linsert"), bulk("l")])) {
        Ops::LPop(k) => assert_eq!(k, b"l".to_vec()),
        other => panic!("{:?}", other),
    }
}

#[test]
fn hash_commands() {
    match ok_of(array(vec![bulk("HSET"), bulk("k"), bulk("f"), bulk("v")])) {
        Ops::Hash(HashOps::HSet(k, f, v)) => {
            assert_eq!(k, b"k".to_vec());
            assert_eq!(f, b"f".to_vec());
            assert_eq!(v, b"v".to_vec());
        }
        other => panic!("{:?}", other),
    }
    match ok_of(array(vec![bulk("hincrby"), bulk("k"), bulk("f"), bulk("-7")])) {
        Ops::Hash(HashOps::HIncrBy(_, _, n)) => assert_eq!(n, -7),
        other => panic!("{:?}", other),
    }
    assert_eq!(
        err_of(array(vec![bulk("hincrby"), bulk("k"), bulk("f"), bulk("x1")])),
        OpsError::InvalidType
    );
    match ok_of(array(vec![bulk("hmget"), bulk("k"), bulk("a"), bulk("b")])) {
        Ops::Hash(HashOps::HMGet(_, fs)) => assert_eq!(fs, vec![b"a".to_vec(), b"b".to_vec()]),
        other => panic!("{:?}", other),
    }
    assert_eq!(err_of(array(vec![bulk("hgetall")])), OpsError::WrongNumberOfArgs(1));
}

#[test]
fn hmset_pairs_up_fields_and_values() {
    assert_eq!(
        err_of(array(vec![bulk("hmset"), bulk("k"), bulk("f")])),
        OpsError::NotEnoughArgs(3)
    );
    assert_eq!(
        err_of(array(vec![bulk("hmset"), bulk("k"), bulk("f"), bulk("v"), bulk("g")])),
        OpsError::SyntaxError
    );
    match ok_of(array(vec![
        bulk("hmset"),
        bulk("k"),
        bulk("f"),
        bulk("1"),
        bulk("g"),
        bulk("2"),
    ])) {
        Ops::Hash(HashOps::HMSet(k, ps)) => {
            assert_eq!(k, b"k".to_vec());
            assert_eq!(
                ps,
                vec![(b"f".to_vec(), b"1".to_vec()), (b"g".to_vec(), b"2".to_vec())]
            );
        }
        other => panic!("{:?}", other),
    }
}
