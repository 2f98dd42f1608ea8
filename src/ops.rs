//! Translation of wire values into typed commands.
use vstd::prelude::*;

use crate::assoc::copy_bytes;
use crate::hashes::{HashOps, HashOpsView};
use crate::numeric::{parse_i64, parse_i64_spec, parse_usize, parse_usize_spec};
use crate::types::{Key, RedisValue, Value};

verus! {

/// A count that cannot be negative.
pub type Count = usize;

/// A count that may be negative.
pub type ICount = i64;

/// A command, with its arguments checked and typed.
#[derive(Debug)]
pub enum Ops {
    // Key-value
    SetString(Key, Value),
    Get(Key),
    Del(Vec<Key>),
    Rename(Key, Key),
    // Sets
    SAdd(Key, Vec<Value>),
    SRem(Key, Vec<Value>),
    SMembers(Key),
    SIsMember(Key, Value),
    SCard(Key),
    SDiff(Vec<Key>),
    SUnion(Vec<Key>),
    SInter(Vec<Key>),
    SDiffStore(Key, Vec<Key>),
    SUnionStore(Key, Vec<Key>),
    SInterStore(Key, Vec<Key>),
    SPop(Key, Option<Count>),
    SMove(Key, Key, Value),
    SRandMembers(Key, Option<ICount>),
    // Lists
    LPush(Key, Vec<Value>),
    LPushX(Key, Value),
    LLen(Key),
    LPop(Key),
    // Misc
    Keys,
    Exists(Vec<Key>),
    Pong,
    // Hashes
    Hash(HashOps),
}

/// Why a wire value is not a command.
#[derive(Debug, Clone, Copy, PartialEq, Eq, Structural)]
pub enum OpsError {
    InvalidStart,
    /// An empty array: nothing to do.
    Noop,
    UnknownOp,
    /// Fewer arguments than the command needs at least.
    NotEnoughArgs(usize),
    /// Not the exact number of arguments the command takes.
    WrongNumberOfArgs(usize),
    /// An argument of the wrong wire shape.
    InvalidType,
    SyntaxError,
}

/// What an [`Ops`] holds, with byte strings as sequences.
pub enum OpsView {
    SetString(Seq<u8>, Seq<u8>),
    Get(Seq<u8>),
    Del(Seq<Seq<u8>>),
    Rename(Seq<u8>, Seq<u8>),
    SAdd(Seq<u8>, Seq<Seq<u8>>),
    SRem(Seq<u8>, Seq<Seq<u8>>),
    SMembers(Seq<u8>),
    SIsMember(Seq<u8>, Seq<u8>),
    SCard(Seq<u8>),
    SDiff(Seq<Seq<u8>>),
    SUnion(Seq<Seq<u8>>),
    SInter(Seq<Seq<u8>>),
    SDiffStore(Seq<u8>, Seq<Seq<u8>>),
    SUnionStore(Seq<u8>, Seq<Seq<u8>>),
    SInterStore(Seq<u8>, Seq<Seq<u8>>),
    SPop(Seq<u8>, Option<usize>),
    SMove(Seq<u8>, Seq<u8>, Seq<u8>),
    SRandMembers(Seq<u8>, Option<i64>),
    LPush(Seq<u8>, Seq<Seq<u8>>),
    LPushX(Seq<u8>, Seq<u8>),
    LLen(Seq<u8>),
    LPop(Seq<u8>),
    Keys,
    Exists(Seq<Seq<u8>>),
    Pong,
    Hash(HashOpsView),
}

impl View for Ops {
    type V = OpsView;

    open spec fn view(&self) -> OpsView {
        match self {
            Ops::SetString(a0, a1) => OpsView::SetString(a0@, a1@),
            Ops::Get(a0) => OpsView::Get(a0@),
            Ops::Del(a0) => OpsView::Del(a0@.map_values(|x: Vec<u8>| x@)),
            Ops::Rename(a0, a1) => OpsView::Rename(a0@, a1@),
            Ops::SAdd(a0, a1) => OpsView::SAdd(a0@, a1@.map_values(|x: Vec<u8>| x@)),
            Ops::SRem(a0, a1) => OpsView::SRem(a0@, a1@.map_values(|x: Vec<u8>| x@)),
            Ops::SMembers(a0) => OpsView::SMembers(a0@),
            Ops::SIsMember(a0, a1) => OpsView::SIsMember(a0@, a1@),
            Ops::SCard(a0) => OpsView::SCard(a0@),
            Ops::SDiff(a0) => OpsView::SDiff(a0@.map_values(|x: Vec<u8>| x@)),
            Ops::SUnion(a0) => OpsView::SUnion(a0@.map_values(|x: Vec<u8>| x@)),
            Ops::SInter(a0) => OpsView::SInter(a0@.map_values(|x: Vec<u8>| x@)),
            Ops::SDiffStore(a0, a1) => OpsView::SDiffStore(a0@, a1@.map_values(|x: Vec<u8>| x@)),
            Ops::SUnionStore(a0, a1) => OpsView::SUnionStore(a0@, a1@.map_values(|x: Vec<u8>| x@)),
            Ops::SInterStore(a0, a1) => OpsView::SInterStore(a0@, a1@.map_values(|x: Vec<u8>| x@)),
            Ops::SPop(a0, a1) => OpsView::SPop(a0@, *a1),
            Ops::SMove(a0, a1, a2) => OpsView::SMove(a0@, a1@, a2@),
            Ops::SRandMembers(a0, a1) => OpsView::SRandMembers(a0@, *a1),
            Ops::LPush(a0, a1) => OpsView::LPush(a0@, a1@.map_values(|x: Vec<u8>| x@)),
            Ops::LPushX(a0, a1) => OpsView::LPushX(a0@, a1@),
            Ops::LLen(a0) => OpsView::LLen(a0@),
            Ops::LPop(a0) => OpsView::LPop(a0@),
            Ops::Keys => OpsView::Keys,
            Ops::Exists(a0) => OpsView::Exists(a0@.map_values(|x: Vec<u8>| x@)),
            Ops::Pong => OpsView::Pong,
            Ops::Hash(a0) => OpsView::Hash(a0@),
        }
    }
}

/// A translation result, with the command as its view.
pub open spec fn result_view(r: Result<Ops, OpsError>) -> Result<OpsView, OpsError> {
    match r {
        Ok(op) => Ok(op@),
        Err(e) => Err(e),
    }
}

/// The name of a supported command.
#[derive(Debug, Clone, Copy, PartialEq, Eq, Structural)]
pub enum Command {
    /// `ping`
    Ping,
    /// `keys`
    Keys,
    /// `set`
    SetString,
    /// `get`
    Get,
    /// `del`
    Del,
    /// `rename`
    Rename,
    /// `exists`
    Exists,
    /// `sadd`
    SAdd,
    /// `srem`
    SRem,
    /// `smembers`
    SMembers,
    /// `scard`
    SCard,
    /// `sdiff`
    SDiff,
    /// `sunion`
    SUnion,
    /// `sinter`
    SInter,
    /// `sdiffstore`
    SDiffStore,
    /// `sunionstore`
    SUnionStore,
    /// `sinterstore`
    SInterStore,
    /// `spop`
    SPop,
    /// `sismember`
    SIsMember,
    /// `smove`
    SMove,
    /// `srandmember`
    SRandMember,
    /// `lpush`
    LPush,
    /// `lpushx`
    LPushX,
    /// `llen`
    LLen,
    /// `lpop`
    LPop,
    /// `linsert`
    LInsert,
    /// `hget`
    HGet,
    /// `hset`
    HSet,
    /// `hexists`
    HExists,
    /// `hgetall`
    HGetAll,
    /// `hmget`
    HMGet,
    /// `hkeys`
    HKeys,
    /// `hmset`
    HMSet,
    /// `hincrby`
    HIncrBy,
    /// `hlen`
    HLen,
    /// `hdel`
    HDel,
    /// `hvals`
    HVals,
    /// `hstrlen`
    HStrLen,
    /// `hsetnx`
    HSetNX,
}

/// A byte with ASCII capitals made small.
pub open spec fn ascii_lower(b: u8) -> u8 {
    if 65 <= b <= 90 {
        (b + 32) as u8
    } else {
        b
    }
}

/// A byte string with ASCII capitals made small.
pub open spec fn lower(s: Seq<u8>) -> Seq<u8> {
    s.map_values(|b: u8| ascii_lower(b))
}

/// The command that a lowered name denotes, if any.
pub open spec fn command_named(n: Seq<u8>) -> Option<Command> {
    if n == seq![112u8, 105, 110, 103] {
        // ping
        Some(Command::Ping)
    } else if n == seq![107u8, 101, 121, 115] {
        // keys
        Some(Command::Keys)
    } else if n == seq![115u8, 101, 116] {
        // set
        Some(Command::SetString)
    } else if n == seq![103u8, 101, 116] {
        // get
        Some(Command::Get)
    } else if n == seq![100u8, 101, 108] {
        // del
        Some(Command::Del)
    } else if n == seq![114u8, 101, 110, 97, 109, 101] {
        // rename
        Some(Command::Rename)
    } else if n == seq![101u8, 120, 105, 115, 116, 115] {
        // exists
        Some(Command::Exists)
    } else if n == seq![115u8, 97, 100, 100] {
        // sadd
        Some(Command::SAdd)
    } else if n == seq![115u8, 114, 101, 109] {
        // srem
        Some(Command::SRem)
    } else if n == seq![115u8, 109, 101, 109, 98, 101, 114, 115] {
        // smembers
        Some(Command::SMembers)
    } else if n == seq![115u8, 99, 97, 114, 100] {
        // scard
        Some(Command::SCard)
    } else if n == seq![115u8, 100, 105, 102, 102] {
        // sdiff
        Some(Command::SDiff)
    } else if n == seq![115u8, 117, 110, 105, 111, 110] {
        // sunion
        Some(Command::SUnion)
    } else if n == seq![115u8, 105, 110, 116, 101, 114] {
        // sinter
        Some(Command::SInter)
    } else if n == seq![115u8, 100, 105, 102, 102, 115, 116, 111, 114, 101] {
        // sdiffstore
        Some(Command::SDiffStore)
    } else if n == seq![115u8, 117, 110, 105, 111, 110, 115, 116, 111, 114, 101] {
        // sunionstore
        Some(Command::SUnionStore)
    } else if n == seq![115u8, 105, 110, 116, 101, 114, 115, 116, 111, 114, 101] {
        // sinterstore
        Some(Command::SInterStore)
    } else if n == seq![115u8, 112, 111, 112] {
        // spop
        Some(Command::SPop)
    } else if n == seq![115u8, 105, 115, 109, 101, 109, 98, 101, 114] {
        // sismember
        Some(Command::SIsMember)
    } else if n == seq![115u8, 109, 111, 118, 101] {
        // smove
        Some(Command::SMove)
    } else if n == seq![115u8, 114, 97, 110, 100, 109, 101, 109, 98, 101, 114] {
        // srandmember
        Some(Command::SRandMember)
    } else if n == seq![108u8, 112, 117, 115, 104] {
        // lpush
        Some(Command::LPush)
    } else if n == seq![108u8, 112, 117, 115, 104, 120] {
        // lpushx
        Some(Command::LPushX)
    } else if n == seq![108u8, 108, 101, 110] {
        // llen
        Some(Command::LLen)
    } else if n == seq![108u8, 112, 111, 112] {
        // lpop
        Some(Command::LPop)
    } else if n == seq![108u8, 105, 110, 115, 101, 114, 116] {
        // linsert
        Some(Command::LInsert)
    } else if n == seq![104u8, 103, 101, 116] {
        // hget
        Some(Command::HGet)
    } else if n == seq![104u8, 115, 101, 116] {
        // hset
        Some(Command::HSet)
    } else if n == seq![104u8, 101, 120, 105, 115, 116, 115] {
        // hexists
        Some(Command::HExists)
    } else if n == seq![104u8, 103, 101, 116, 97, 108, 108] {
        // hgetall
        Some(Command::HGetAll)
    } else if n == seq![104u8, 109, 103, 101, 116] {
        // hmget
        Some(Command::HMGet)
    } else if n == seq![104u8, 107, 101, 121, 115] {
        // hkeys
        Some(Command::HKeys)
    } else if n == seq![104u8, 109, 115, 101, 116] {
        // hmset
        Some(Command::HMSet)
    } else if n == seq![104u8, 105, 110, 99, 114, 98, 121] {
        // hincrby
        Some(Command::HIncrBy)
    } else if n == seq![104u8, 108, 101, 110] {
        // hlen
        Some(Command::HLen)
    } else if n == seq![104u8, 100, 101, 108] {
        // hdel
        Some(Command::HDel)
    } else if n == seq![104u8, 118, 97, 108, 115] {
        // hvals
        Some(Command::HVals)
    } else if n == seq![104u8, 115, 116, 114, 108, 101, 110] {
        // hstrlen
        Some(Command::HStrLen)
    } else if n == seq![104u8, 115, 101, 116, 110, 120] {
        // hsetnx
        Some(Command::HSetNX)
    } else {
        None
    }
}

fn same_name(head: &[u8], name: &[u8]) -> (r: bool)
    ensures
        r == (lower(head@) == name@),
{
    if head.len() != name.len() {
        return false;
    }
    let mut i: usize = 0;
    while i < head.len()
        invariant
            head@.len() == name@.len(),
            i <= head@.len(),
            forall|j: int| 0 <= j < i ==> ascii_lower(head@[j]) == name@[j],
        decreases head@.len() - i,
    {
        let b = head[i];
        let l = if b >= 65 && b <= 90 {
            b + 32
        } else {
            b
        };
        if l != name[i] {
            assert(lower(head@)[i as int] != name@[i as int]);
            return false;
        }
        i = i + 1;
    }
    assert(lower(head@) =~= name@);
    true
}

/// Looks up a command by name, ignoring ASCII case.
pub fn find_command(head: &[u8]) -> (r: Option<Command>)
    ensures
        r == command_named(lower(head@)),
{
    // ping
    if same_name(head, &[112u8, 105, 110, 103]) {
        return Some(Command::Ping);
    }
    // keys
    if same_name(head, &[107u8, 101, 121, 115]) {
        return Some(Command::Keys);
    }
    // set
    if same_name(head, &[115u8, 101, 116]) {
        return Some(Command::SetString);
    }
    // get
    if same_name(head, &[103u8, 101, 116]) {
        return Some(Command::Get);
    }
    // del
    if same_name(head, &[100u8, 101, 108]) {
        return Some(Command::Del);
    }
    // rename
    if same_name(head, &[114u8, 101, 110, 97, 109, 101]) {
        return Some(Command::Rename);
    }
    // exists
    if same_name(head, &[101u8, 120, 105, 115, 116, 115]) {
        return Some(Command::Exists);
    }
    // sadd
    if same_name(head, &[115u8, 97, 100, 100]) {
        return Some(Command::SAdd);
    }
    // srem
    if same_name(head, &[115u8, 114, 101, 109]) {
        return Some(Command::SRem);
    }
    // smembers
    if same_name(head, &[115u8, 109, 101, 109, 98, 101, 114, 115]) {
        return Some(Command::SMembers);
    }
    // scard
    if same_name(head, &[115u8, 99, 97, 114, 100]) {
        return Some(Command::SCard);
    }
    // sdiff
    if same_name(head, &[115u8, 100, 105, 102, 102]) {
        return Some(Command::SDiff);
    }
    // sunion
    if same_name(head, &[115u8, 117, 110, 105, 111, 110]) {
        return Some(Command::SUnion);
    }
    // sinter
    if same_name(head, &[115u8, 105, 110, 116, 101, 114]) {
        return Some(Command::SInter);
    }
    // sdiffstore
    if same_name(head, &[115u8, 100, 105, 102, 102, 115, 116, 111, 114, 101]) {
        return Some(Command::SDiffStore);
    }
    // sunionstore
    if same_name(head, &[115u8, 117, 110, 105, 111, 110, 115, 116, 111, 114, 101]) {
        return Some(Command::SUnionStore);
    }
    // sinterstore
    if same_name(head, &[115u8, 105, 110, 116, 101, 114, 115, 116, 111, 114, 101]) {
        return Some(Command::SInterStore);
    }
    // spop
    if same_name(head, &[115u8, 112, 111, 112]) {
        return Some(Command::SPop);
    }
    // sismember
    if same_name(head, &[115u8, 105, 115, 109, 101, 109, 98, 101, 114]) {
        return Some(Command::SIsMember);
    }
    // smove
    if same_name(head, &[115u8, 109, 111, 118, 101]) {
        return Some(Command::SMove);
    }
    // srandmember
    if same_name(head, &[115u8, 114, 97, 110, 100, 109, 101, 109, 98, 101, 114]) {
        return Some(Command::SRandMember);
    }
    // lpush
    if same_name(head, &[108u8, 112, 117, 115, 104]) {
        return Some(Command::LPush);
    }
    // lpushx
    if same_name(head, &[108u8, 112, 117, 115, 104, 120]) {
        return Some(Command::LPushX);
    }
    // llen
    if same_name(head, &[108u8, 108, 101, 110]) {
        return Some(Command::LLen);
    }
    // lpop
    if same_name(head, &[108u8, 112, 111, 112]) {
        return Some(Command::LPop);
    }
    // linsert
    if same_name(head, &[108u8, 105, 110, 115, 101, 114, 116]) {
        return Some(Command::LInsert);
    }
    // hget
    if same_name(head, &[104u8, 103, 101, 116]) {
        return Some(Command::HGet);
    }
    // hset
    if same_name(head, &[104u8, 115, 101, 116]) {
        return Some(Command::HSet);
    }
    // hexists
    if same_name(head, &[104u8, 101, 120, 105, 115, 116, 115]) {
        return Some(Command::HExists);
    }
    // hgetall
    if same_name(head, &[104u8, 103, 101, 116, 97, 108, 108]) {
        return Some(Command::HGetAll);
    }
    // hmget
    if same_name(head, &[104u8, 109, 103, 101, 116]) {
        return Some(Command::HMGet);
    }
    // hkeys
    if same_name(head, &[104u8, 107, 101, 121, 115]) {
        return Some(Command::HKeys);
    }
    // hmset
    if same_name(head, &[104u8, 109, 115, 101, 116]) {
        return Some(Command::HMSet);
    }
    // hincrby
    if same_name(head, &[104u8, 105, 110, 99, 114, 98, 121]) {
        return Some(Command::HIncrBy);
    }
    // hlen
    if same_name(head, &[104u8, 108, 101, 110]) {
        return Some(Command::HLen);
    }
    // hdel
    if same_name(head, &[104u8, 100, 101, 108]) {
        return Some(Command::HDel);
    }
    // hvals
    if same_name(head, &[104u8, 118, 97, 108, 115]) {
        return Some(Command::HVals);
    }
    // hstrlen
    if same_name(head, &[104u8, 115, 116, 114, 108, 101, 110]) {
        return Some(Command::HStrLen);
    }
    // hsetnx
    if same_name(head, &[104u8, 115, 101, 116, 110, 120]) {
        return Some(Command::HSetNX);
    }
    None
}

/// A simple or bulk string.
pub open spec fn is_str(v: RedisValue) -> bool {
    v is SimpleString || v is BulkString
}

/// The bytes of a simple or bulk string.
pub open spec fn str_bytes(v: RedisValue) -> Seq<u8> {
    match v {
        RedisValue::SimpleString(s) => s@,
        RedisValue::BulkString(s) => s@,
        _ => seq![],
    }
}

/// A wire value as a string argument.
pub open spec fn str_arg(v: RedisValue) -> Result<Seq<u8>, OpsError> {
    if is_str(v) {
        Ok(str_bytes(v))
    } else {
        Err(OpsError::InvalidType)
    }
}

/// Wire values as string arguments, all or none.
pub open spec fn strs_arg(t: Seq<RedisValue>) -> Result<Seq<Seq<u8>>, OpsError> {
    if forall|i: int| 0 <= i < t.len() ==> is_str(#[trigger] t[i]) {
        Ok(t.map_values(|v: RedisValue| str_bytes(v)))
    } else {
        Err(OpsError::InvalidType)
    }
}

/// A wire value as a count that cannot be negative: an integer, or a string
/// of base-10 digits.
pub open spec fn count_arg(v: RedisValue) -> Result<usize, OpsError> {
    match v {
        RedisValue::Int(e) => if 0 <= e <= usize::MAX {
            Ok(e as usize)
        } else {
            Err(OpsError::InvalidType)
        },
        RedisValue::SimpleString(s) => match parse_usize_spec(s@) {
            Some(n) => Ok(n),
            None => Err(OpsError::InvalidType),
        },
        RedisValue::BulkString(s) => match parse_usize_spec(s@) {
            Some(n) => Ok(n),
            None => Err(OpsError::InvalidType),
        },
        _ => Err(OpsError::InvalidType),
    }
}

/// A wire value as a signed count: an integer, or a string of base-10 digits
/// with an optional sign.
pub open spec fn icount_arg(v: RedisValue) -> Result<i64, OpsError> {
    match v {
        RedisValue::Int(e) => Ok(e),
        RedisValue::SimpleString(s) => match parse_i64_spec(s@) {
            Some(n) => Ok(n),
            None => Err(OpsError::InvalidType),
        },
        RedisValue::BulkString(s) => match parse_i64_spec(s@) {
            Some(n) => Ok(n),
            None => Err(OpsError::InvalidType),
        },
        _ => Err(OpsError::InvalidType),
    }
}

/// Exactly one argument, a key.
pub open spec fn one_spec(t: Seq<RedisValue>) -> Result<Seq<u8>, OpsError> {
    if t.len() != 1 {
        Err(OpsError::WrongNumberOfArgs(1))
    } else {
        str_arg(t[0])
    }
}

/// Exactly two string arguments.
pub open spec fn two_spec(t: Seq<RedisValue>) -> Result<(Seq<u8>, Seq<u8>), OpsError> {
    if t.len() != 2 {
        Err(OpsError::WrongNumberOfArgs(2))
    } else {
        match str_arg(t[0]) {
            Err(e) => Err(e),
            Ok(a) => match str_arg(t[1]) {
                Err(e) => Err(e),
                Ok(b) => Ok((a, b)),
            },
        }
    }
}

/// Exactly three string arguments.
pub open spec fn three_spec(t: Seq<RedisValue>) -> Result<(Seq<u8>, Seq<u8>, Seq<u8>), OpsError> {
    if t.len() != 3 {
        Err(OpsError::WrongNumberOfArgs(3))
    } else {
        match str_arg(t[0]) {
            Err(e) => Err(e),
            Ok(a) => match str_arg(t[1]) {
                Err(e) => Err(e),
                Ok(b) => match str_arg(t[2]) {
                    Err(e) => Err(e),
                    Ok(c) => Ok((a, b, c)),
                },
            },
        }
    }
}

/// At least `n` arguments, all strings.
pub open spec fn many_spec(t: Seq<RedisValue>, n: usize) -> Result<Seq<Seq<u8>>, OpsError> {
    if t.len() < n {
        Err(OpsError::NotEnoughArgs(n))
    } else {
        strs_arg(t)
    }
}

/// A key and one or more further strings.
pub open spec fn key_many_spec(t: Seq<RedisValue>) -> Result<(Seq<u8>, Seq<Seq<u8>>), OpsError> {
    if t.len() < 2 {
        Err(OpsError::NotEnoughArgs(2))
    } else {
        match str_arg(t[0]) {
            Err(e) => Err(e),
            Ok(k) => match strs_arg(t.drop_first()) {
                Err(e) => Err(e),
                Ok(vs) => Ok((k, vs)),
            },
        }
    }
}

/// A key and, optionally, a count that cannot be negative; further
/// arguments are not read.
pub open spec fn key_count_spec(t: Seq<RedisValue>) -> Result<(Seq<u8>, Option<usize>), OpsError> {
    if t.len() < 1 {
        Err(OpsError::NotEnoughArgs(1))
    } else {
        match str_arg(t[0]) {
            Err(e) => Err(e),
            Ok(k) => if t.len() < 2 {
                Ok((k, None))
            } else {
                match count_arg(t[1]) {
                    Err(e) => Err(e),
                    Ok(c) => Ok((k, Some(c))),
                }
            },
        }
    }
}

/// A key and, optionally, a signed count; further arguments are not read.
pub open spec fn key_icount_spec(t: Seq<RedisValue>) -> Result<(Seq<u8>, Option<i64>), OpsError> {
    if t.len() < 1 {
        Err(OpsError::NotEnoughArgs(1))
    } else {
        match str_arg(t[0]) {
            Err(e) => Err(e),
            Ok(k) => if t.len() < 2 {
                Ok((k, None))
            } else {
                match icount_arg(t[1]) {
                    Err(e) => Err(e),
                    Ok(c) => Ok((k, Some(c))),
                }
            },
        }
    }
}

/// Exactly a key, a field and a signed count.
pub open spec fn incr_spec(t: Seq<RedisValue>) -> Result<(Seq<u8>, Seq<u8>, i64), OpsError> {
    if t.len() != 3 {
        Err(OpsError::WrongNumberOfArgs(3))
    } else {
        match str_arg(t[0]) {
            Err(e) => Err(e),
            Ok(a) => match str_arg(t[1]) {
                Err(e) => Err(e),
                Ok(b) => match icount_arg(t[2]) {
                    Err(e) => Err(e),
                    Ok(c) => Ok((a, b, c)),
                },
            },
        }
    }
}

/// Strings taken two at a time.
pub open spec fn pair_up(vs: Seq<Seq<u8>>) -> Seq<(Seq<u8>, Seq<u8>)> {
    Seq::new(vs.len() / 2, |i: int| (vs[2 * i], vs[2 * i + 1]))
}

/// A key and one or more (field, value) pairs.
pub open spec fn pairs_spec(t: Seq<RedisValue>) -> Result<
    (Seq<u8>, Seq<(Seq<u8>, Seq<u8>)>),
    OpsError,
> {
    if t.len() < 3 {
        Err(OpsError::NotEnoughArgs(3))
    } else if (t.len() - 1) % 2 != 0 {
        Err(OpsError::SyntaxError)
    } else {
        match str_arg(t[0]) {
            Err(e) => Err(e),
            Ok(k) => match strs_arg(t.drop_first()) {
                Err(e) => Err(e),
                Ok(vs) => Ok((k, pair_up(vs))),
            },
        }
    }
}

/// The command that a bare string denotes: only those without arguments.
pub open spec fn string_spec(s: Seq<u8>) -> Result<OpsView, OpsError> {
    match command_named(lower(s)) {
        Some(Command::Ping) => Ok(OpsView::Pong),
        Some(Command::Keys) => Ok(OpsView::Keys),
        _ => Err(OpsError::UnknownOp),
    }
}

/// The command that an array denotes: a name, then the arguments.
pub open spec fn array_spec(a: Seq<RedisValue>) -> Result<OpsView, OpsError> {
    if a.len() == 0 {
        Err(OpsError::Noop)
    } else {
        match str_arg(a[0]) {
            Err(e) => Err(e),
            Ok(h) => match command_named(lower(h)) {
                None => Err(OpsError::UnknownOp),
                Some(c) => args_spec(c, a.drop_first()),
            },
        }
    }
}

/// The command that a wire value denotes.
pub open spec fn translate_spec(rv: RedisValue) -> Result<OpsView, OpsError> {
    match rv {
        RedisValue::SimpleString(s) => string_spec(s@),
        RedisValue::BulkString(s) => string_spec(s@),
        RedisValue::Array(vals) => array_spec(vals@),
        _ => Err(OpsError::UnknownOp),
    }
}

fn str_of(v: &RedisValue) -> (r: Result<Vec<u8>, OpsError>)
    ensures
        match r {
            Ok(s) => str_arg(*v) == Ok::<Seq<u8>, OpsError>(s@),
            Err(e) => str_arg(*v) == Err::<Seq<u8>, OpsError>(e),
        },
{
    match v {
        RedisValue::SimpleString(s) => Ok(copy_bytes(s)),
        RedisValue::BulkString(s) => Ok(copy_bytes(s)),
        _ => Err(OpsError::InvalidType),
    }
}

fn count_of(v: &RedisValue) -> (r: Result<usize, OpsError>)
    ensures
        r == count_arg(*v),
{
    match v {
        RedisValue::Int(e) => if *e >= 0 && (*e as u64) <= usize::MAX as u64 {
            Ok(*e as usize)
        } else {
            Err(OpsError::InvalidType)
        },
        RedisValue::SimpleString(s) => match parse_usize(s.as_slice()) {
            Some(n) => Ok(n),
            None => Err(OpsError::InvalidType),
        },
        RedisValue::BulkString(s) => match parse_usize(s.as_slice()) {
            Some(n) => Ok(n),
            None => Err(OpsError::InvalidType),
        },
        _ => Err(OpsError::InvalidType),
    }
}

fn icount_of(v: &RedisValue) -> (r: Result<i64, OpsError>)
    ensures
        r == icount_arg(*v),
{
    match v {
        RedisValue::Int(e) => Ok(*e),
        RedisValue::SimpleString(s) => match parse_i64(s.as_slice()) {
            Some(n) => Ok(n),
            None => Err(OpsError::InvalidType),
        },
        RedisValue::BulkString(s) => match parse_i64(s.as_slice()) {
            Some(n) => Ok(n),
            None => Err(OpsError::InvalidType),
        },
        _ => Err(OpsError::InvalidType),
    }
}

/// Whether the items of `v` from `start` on are all simple or bulk strings.
fn all_strings(v: &Vec<RedisValue>, start: usize) -> (r: bool)
    requires
        start <= v@.len(),
    ensures
        r == forall|i: int| start <= i < v@.len() ==> is_str(#[trigger] v@[i]),
{
    let mut i: usize = start;
    while i < v.len()
        invariant
            start <= i <= v@.len(),
            forall|j: int| start <= j < i ==> is_str(#[trigger] v@[j]),
        decreases v@.len() - i,
    {
        match &v[i] {
            RedisValue::SimpleString(_) => {},
            RedisValue::BulkString(_) => {},
            _ => {
                return false;
            },
        }
        i = i + 1;
    }
    true
}

/// The items of `v` from `start` on, as strings.
fn tails_as_strings(v: &Vec<RedisValue>, start: usize) -> (r: Result<Vec<Vec<u8>>, OpsError>)
    requires
        start <= v@.len(),
    ensures
        match r {
            Ok(vs) => strs_arg(v@.subrange(start as int, v@.len() as int)) == Ok::<
                Seq<Seq<u8>>,
                OpsError,
            >(vs@.map_values(|x: Vec<u8>| x@)),
            Err(e) => strs_arg(v@.subrange(start as int, v@.len() as int)) == Err::<
                Seq<Seq<u8>>,
                OpsError,
            >(e),
        },
{
    let ghost t = v@.subrange(start as int, v@.len() as int);
    if !all_strings(v, start) {
        proof {
            let j = choose|j: int| start <= j < v@.len() && !is_str(#[trigger] v@[j]);
            assert(t[j - start] == v@[j]);
        }
        return Err(OpsError::InvalidType);
    }
    assert forall|i: int| 0 <= i < t.len() implies is_str(#[trigger] t[i]) by {
        assert(t[i] == v@[i + start]);
    }
    let mut out: Vec<Vec<u8>> = Vec::new();
    let mut i: usize = start;
    while i < v.len()
        invariant
            start <= i <= v@.len(),
            t == v@.subrange(start as int, v@.len() as int),
            forall|j: int| start <= j < v@.len() ==> is_str(#[trigger] v@[j]),
            out@.len() == i - start,
            forall|j: int| 0 <= j < i - start ==> #[trigger] out@[j]@ == str_bytes(t[j]),
        decreases v@.len() - i,
    {
        let s = match &v[i] {
            RedisValue::SimpleString(s) => copy_bytes(s),
            RedisValue::BulkString(s) => copy_bytes(s),
            _ => Vec::new(),
        };
        assert(t[i - start] == v@[i as int]);
        out.push(s);
        i = i + 1;
    }
    assert(out@.map_values(|x: Vec<u8>| x@) =~= t.map_values(|x: RedisValue| str_bytes(x)));
    Ok(out)
}

/// Checks that there are exactly `size` arguments after the name.
fn verify_size(v: &Vec<RedisValue>, size: usize) -> (r: Result<(), OpsError>)
    requires
        v@.len() >= 1,
    ensures
        r == if v@.len() - 1 != size {
            Err::<(), OpsError>(OpsError::WrongNumberOfArgs(size))
        } else {
            Ok(())
        },
{
    if v.len() - 1 != size {
        return Err(OpsError::WrongNumberOfArgs(size));
    }
    Ok(())
}

/// Checks that there are at least `min_size` arguments after the name.
fn verify_size_lower(v: &Vec<RedisValue>, min_size: usize) -> (r: Result<(), OpsError>)
    requires
        v@.len() >= 1,
    ensures
        r == if v@.len() - 1 < min_size {
            Err::<(), OpsError>(OpsError::NotEnoughArgs(min_size))
        } else {
            Ok(())
        },
{
    if v.len() - 1 < min_size {
        return Err(OpsError::NotEnoughArgs(min_size));
    }
    Ok(())
}

fn one_key(a: &Vec<RedisValue>) -> (r: Result<Key, OpsError>)
    requires
        a@.len() >= 1,
    ensures
        match r {
            Ok(k) => one_spec(a@.drop_first()) == Ok::<Seq<u8>, OpsError>(k@),
            Err(e) => one_spec(a@.drop_first()) == Err::<Seq<u8>, OpsError>(e),
        },
{
    verify_size(a, 1)?;
    str_of(&a[1])
}

fn get_key_and_val(a: &Vec<RedisValue>) -> (r: Result<(Key, Value), OpsError>)
    requires
        a@.len() >= 1,
    ensures
        match r {
            Ok((k, v)) => two_spec(a@.drop_first()) == Ok::<(Seq<u8>, Seq<u8>), OpsError>(
                (k@, v@),
            ),
            Err(e) => two_spec(a@.drop_first()) == Err::<(Seq<u8>, Seq<u8>), OpsError>(e),
        },
{
    verify_size(a, 2)?;
    let k = str_of(&a[1])?;
    let v = str_of(&a[2])?;
    Ok((k, v))
}

fn three_strings(a: &Vec<RedisValue>) -> (r: Result<(Key, Key, Value), OpsError>)
    requires
        a@.len() >= 1,
    ensures
        match r {
            Ok((x, y, z)) => three_spec(a@.drop_first()) == Ok::<
                (Seq<u8>, Seq<u8>, Seq<u8>),
                OpsError,
            >((x@, y@, z@)),
            Err(e) => three_spec(a@.drop_first()) == Err::<(Seq<u8>, Seq<u8>, Seq<u8>), OpsError>(
                e,
            ),
        },
{
    verify_size(a, 3)?;
    let x = str_of(&a[1])?;
    let y = str_of(&a[2])?;
    let z = str_of(&a[3])?;
    Ok((x, y, z))
}

fn strings_at_least(a: &Vec<RedisValue>, n: usize) -> (r: Result<Vec<Key>, OpsError>)
    requires
        a@.len() >= 1,
    ensures
        match r {
            Ok(vs) => many_spec(a@.drop_first(), n) == Ok::<Seq<Seq<u8>>, OpsError>(
                vs@.map_values(|x: Vec<u8>| x@),
            ),
            Err(e) => many_spec(a@.drop_first(), n) == Err::<Seq<Seq<u8>>, OpsError>(e),
        },
{
    verify_size_lower(a, n)?;
    assert(a@.subrange(1, a@.len() as int) =~= a@.drop_first());
    tails_as_strings(a, 1)
}

fn get_key_and_tail(a: &Vec<RedisValue>) -> (r: Result<(Key, Vec<Value>), OpsError>)
    requires
        a@.len() >= 1,
    ensures
        match r {
            Ok((k, vs)) => key_many_spec(a@.drop_first()) == Ok::<
                (Seq<u8>, Seq<Seq<u8>>),
                OpsError,
            >((k@, vs@.map_values(|x: Vec<u8>| x@))),
            Err(e) => key_many_spec(a@.drop_first()) == Err::<(Seq<u8>, Seq<Seq<u8>>), OpsError>(
                e,
            ),
        },
{
    verify_size_lower(a, 2)?;
    let k = str_of(&a[1])?;
    assert(a@.subrange(2, a@.len() as int) =~= a@.drop_first().drop_first());
    let vs = tails_as_strings(a, 2)?;
    Ok((k, vs))
}

fn key_and_count(a: &Vec<RedisValue>) -> (r: Result<(Key, Option<Count>), OpsError>)
    requires
        a@.len() >= 1,
    ensures
        match r {
            Ok((k, c)) => key_count_spec(a@.drop_first()) == Ok::<
                (Seq<u8>, Option<usize>),
                OpsError,
            >((k@, c)),
            Err(e) => key_count_spec(a@.drop_first()) == Err::<(Seq<u8>, Option<usize>), OpsError>(
                e,
            ),
        },
{
    verify_size_lower(a, 1)?;
    let k = str_of(&a[1])?;
    if a.len() < 3 {
        return Ok((k, None));
    }
    let c = count_of(&a[2])?;
    Ok((k, Some(c)))
}

fn key_and_icount(a: &Vec<RedisValue>) -> (r: Result<(Key, Option<ICount>), OpsError>)
    requires
        a@.len() >= 1,
    ensures
        match r {
            Ok((k, c)) => key_icount_spec(a@.drop_first()) == Ok::<
                (Seq<u8>, Option<i64>),
                OpsError,
            >((k@, c)),
            Err(e) => key_icount_spec(a@.drop_first()) == Err::<(Seq<u8>, Option<i64>), OpsError>(
                e,
            ),
        },
{
    verify_size_lower(a, 1)?;
    let k = str_of(&a[1])?;
    if a.len() < 3 {
        return Ok((k, None));
    }
    let c = icount_of(&a[2])?;
    Ok((k, Some(c)))
}

fn key_field_increment(a: &Vec<RedisValue>) -> (r: Result<(Key, Key, ICount), OpsError>)
    requires
        a@.len() >= 1,
    ensures
        match r {
            Ok((k, f, n)) => incr_spec(a@.drop_first()) == Ok::<
                (Seq<u8>, Seq<u8>, i64),
                OpsError,
            >((k@, f@, n)),
            Err(e) => incr_spec(a@.drop_first()) == Err::<(Seq<u8>, Seq<u8>, i64), OpsError>(e),
        },
{
    verify_size(a, 3)?;
    let k = str_of(&a[1])?;
    let f = str_of(&a[2])?;
    let n = icount_of(&a[3])?;
    Ok((k, f, n))
}

fn key_and_pairs(a: &Vec<RedisValue>) -> (r: Result<(Key, Vec<(Key, Value)>), OpsError>)
    requires
        a@.len() >= 1,
    ensures
        match r {
            Ok((k, ps)) => pairs_spec(a@.drop_first()) == Ok::<
                (Seq<u8>, Seq<(Seq<u8>, Seq<u8>)>),
                OpsError,
            >((k@, crate::hashes::pairs_of(ps@))),
            Err(e) => pairs_spec(a@.drop_first()) == Err::<
                (Seq<u8>, Seq<(Seq<u8>, Seq<u8>)>),
                OpsError,
            >(e),
        },
{
    verify_size_lower(a, 3)?;
    if (a.len() - 2) % 2 != 0 {
        return Err(OpsError::SyntaxError);
    }
    let k = str_of(&a[1])?;
    assert(a@.subrange(2, a@.len() as int) =~= a@.drop_first().drop_first());
    let vs = tails_as_strings(a, 2)?;
    let ghost w = vs@.map_values(|x: Vec<u8>| x@);
    let n = vs.len();
    let half = n / 2;
    let mut ps: Vec<(Key, Value)> = Vec::new();
    let mut i: usize = 0;
    while i < half
        invariant
            n == vs@.len(),
            half == n / 2,
            w == vs@.map_values(|x: Vec<u8>| x@),
            i <= half,
            ps@.len() == i,
            forall|j: int|
                0 <= j < i ==> #[trigger] ps@[j].0@ == w[2 * j] && ps@[j].1@ == w[2 * j + 1],
        decreases half - i,
    {
        assert(2 * i + 1 < n) by (nonlinear_arith)
            requires
                i < half,
                half == n / 2,
        ;
        let f = copy_bytes(&vs[2 * i]);
        let v = copy_bytes(&vs[2 * i + 1]);
        ps.push((f, v));
        i = i + 1;
    }
    assert(crate::hashes::pairs_of(ps@) =~= pair_up(w));
    Ok((k, ps))
}

/// Recognises a bare string: only commands without arguments.
fn translate_string(start: &[u8]) -> (r: Result<Ops, OpsError>)
    ensures
        result_view(r) == string_spec(start@),
{
    match find_command(start) {
        Some(Command::Ping) => Ok(Ops::Pong),
        Some(Command::Keys) => Ok(Ops::Keys),
        _ => Err(OpsError::UnknownOp),
    }
}
/// The command of the given name with the arguments `t`.
pub open spec fn args_spec(c: Command, t: Seq<RedisValue>) -> Result<OpsView, OpsError> {
    match c {
        Command::Ping => Ok(OpsView::Pong),
        Command::Keys => Ok(OpsView::Keys),
        Command::SetString => match two_spec(t) {
            Ok((a, b)) => Ok(OpsView::SetString(a, b)),
            Err(e) => Err(e),
        },
        Command::Get => match one_spec(t) {
            Ok(k) => Ok(OpsView::Get(k)),
            Err(e) => Err(e),
        },
        Command::Del => match many_spec(t, 1) {
            Ok(ks) => Ok(OpsView::Del(ks)),
            Err(e) => Err(e),
        },
        Command::Rename => match two_spec(t) {
            Ok((a, b)) => Ok(OpsView::Rename(a, b)),
            Err(e) => Err(e),
        },
        Command::Exists => match many_spec(t, 1) {
            Ok(ks) => Ok(OpsView::Exists(ks)),
            Err(e) => Err(e),
        },
        Command::SAdd => match key_many_spec(t) {
            Ok((k, vs)) => Ok(OpsView::SAdd(k, vs)),
            Err(e) => Err(e),
        },
        Command::SRem => match key_many_spec(t) {
            Ok((k, vs)) => Ok(OpsView::SRem(k, vs)),
            Err(e) => Err(e),
        },
        Command::SMembers => match one_spec(t) {
            Ok(k) => Ok(OpsView::SMembers(k)),
            Err(e) => Err(e),
        },
        Command::SCard => match one_spec(t) {
            Ok(k) => Ok(OpsView::SCard(k)),
            Err(e) => Err(e),
        },
        Command::SDiff => match many_spec(t, 2) {
            Ok(ks) => Ok(OpsView::SDiff(ks)),
            Err(e) => Err(e),
        },
        Command::SUnion => match many_spec(t, 2) {
            Ok(ks) => Ok(OpsView::SUnion(ks)),
            Err(e) => Err(e),
        },
        Command::SInter => match many_spec(t, 2) {
            Ok(ks) => Ok(OpsView::SInter(ks)),
            Err(e) => Err(e),
        },
        Command::SDiffStore => match key_many_spec(t) {
            Ok((k, vs)) => Ok(OpsView::SDiffStore(k, vs)),
            Err(e) => Err(e),
        },
        Command::SUnionStore => match key_many_spec(t) {
            Ok((k, vs)) => Ok(OpsView::SUnionStore(k, vs)),
            Err(e) => Err(e),
        },
        Command::SInterStore => match key_many_spec(t) {
            Ok((k, vs)) => Ok(OpsView::SInterStore(k, vs)),
            Err(e) => Err(e),
        },
        Command::SPop => match key_count_spec(t) {
            Ok((k, c)) => Ok(OpsView::SPop(k, c)),
            Err(e) => Err(e),
        },
        Command::SIsMember => match two_spec(t) {
            Ok((a, b)) => Ok(OpsView::SIsMember(a, b)),
            Err(e) => Err(e),
        },
        Command::SMove => match three_spec(t) {
            Ok((a, b, c)) => Ok(OpsView::SMove(a, b, c)),
            Err(e) => Err(e),
        },
        Command::SRandMember => match key_icount_spec(t) {
            Ok((k, c)) => Ok(OpsView::SRandMembers(k, c)),
            Err(e) => Err(e),
        },
        Command::LPush => match key_many_spec(t) {
            Ok((k, vs)) => Ok(OpsView::LPush(k, vs)),
            Err(e) => Err(e),
        },
        Command::LPushX => match two_spec(t) {
            Ok((a, b)) => Ok(OpsView::LPushX(a, b)),
            Err(e) => Err(e),
        },
        Command::LLen => match one_spec(t) {
            Ok(k) => Ok(OpsView::LLen(k)),
            Err(e) => Err(e),
        },
        Command::LPop => match one_spec(t) {
            Ok(k) => Ok(OpsView::LPop(k)),
            Err(e) => Err(e),
        },
        Command::LInsert => match one_spec(t) {
            Ok(k) => Ok(OpsView::LPop(k)),
            Err(e) => Err(e),
        },
        Command::HGet => match two_spec(t) {
            Ok((a, b)) => Ok(OpsView::Hash(HashOpsView::HGet(a, b))),
            Err(e) => Err(e),
        },
        Command::HSet => match three_spec(t) {
            Ok((a, b, c)) => Ok(OpsView::Hash(HashOpsView::HSet(a, b, c))),
            Err(e) => Err(e),
        },
        Command::HExists => match two_spec(t) {
            Ok((a, b)) => Ok(OpsView::Hash(HashOpsView::HExists(a, b))),
            Err(e) => Err(e),
        },
        Command::HGetAll => match one_spec(t) {
            Ok(k) => Ok(OpsView::Hash(HashOpsView::HGetAll(k))),
            Err(e) => Err(e),
        },
        Command::HMGet => match key_many_spec(t) {
            Ok((k, vs)) => Ok(OpsView::Hash(HashOpsView::HMGet(k, vs))),
            Err(e) => Err(e),
        },
        Command::HKeys => match one_spec(t) {
            Ok(k) => Ok(OpsView::Hash(HashOpsView::HKeys(k))),
            Err(e) => Err(e),
        },
        Command::HMSet => match pairs_spec(t) {
            Ok((k, ps)) => Ok(OpsView::Hash(HashOpsView::HMSet(k, ps))),
            Err(e) => Err(e),
        },
        Command::HIncrBy => match incr_spec(t) {
            Ok((k, f, n)) => Ok(OpsView::Hash(HashOpsView::HIncrBy(k, f, n))),
            Err(e) => Err(e),
        },
        Command::HLen => match one_spec(t) {
            Ok(k) => Ok(OpsView::Hash(HashOpsView::HLen(k))),
            Err(e) => Err(e),
        },
        Command::HDel => match key_many_spec(t) {
            Ok((k, vs)) => Ok(OpsView::Hash(HashOpsView::HDel(k, vs))),
            Err(e) => Err(e),
        },
        Command::HVals => match one_spec(t) {
            Ok(k) => Ok(OpsView::Hash(HashOpsView::HVals(k))),
            Err(e) => Err(e),
        },
        Command::HStrLen => match two_spec(t) {
            Ok((a, b)) => Ok(OpsView::Hash(HashOpsView::HStrLen(a, b))),
            Err(e) => Err(e),
        },
        Command::HSetNX => match three_spec(t) {
            Ok((a, b, c)) => Ok(OpsView::Hash(HashOpsView::HSetNX(a, b, c))),
            Err(e) => Err(e),
        },
    }
}

/// Recognises an array: a command name, then its arguments. The name
/// `linsert` is read as `lpop`, with the same single key.
fn translate_array(array: &Vec<RedisValue>) -> (r: Result<Ops, OpsError>)
    ensures
        result_view(r) == array_spec(array@),
{
    if array.len() == 0 {
        return Err(OpsError::Noop);
    }
    let head = str_of(&array[0])?;
    let ghost t = array@.drop_first();
    let c = match find_command(head.as_slice()) {
        Some(c) => c,
        None => {
            return Err(OpsError::UnknownOp);
        },
    };
    match c {
        Command::Ping => Ok(Ops::Pong),
        Command::Keys => Ok(Ops::Keys),
        Command::SetString => {
            let (a, b) = get_key_and_val(array)?;
            Ok(Ops::SetString(a, b))
        },
        Command::Get => {
            let k = one_key(array)?;
            Ok(Ops::Get(k))
        },
        Command::Del => {
            let ks = strings_at_least(array, 1)?;
            Ok(Ops::Del(ks))
        },
        Command::Rename => {
            let (a, b) = get_key_and_val(array)?;
            Ok(Ops::Rename(a, b))
        },
        Command::Exists => {
            let ks = strings_at_least(array, 1)?;
            Ok(Ops::Exists(ks))
        },
        Command::SAdd => {
            let (k, vs) = get_key_and_tail(array)?;
            Ok(Ops::SAdd(k, vs))
        },
        Command::SRem => {
            let (k, vs) = get_key_and_tail(array)?;
            Ok(Ops::SRem(k, vs))
        },
        Command::SMembers => {
            let k = one_key(array)?;
            Ok(Ops::SMembers(k))
        },
        Command::SCard => {
            let k = one_key(array)?;
            Ok(Ops::SCard(k))
        },
        Command::SDiff => {
            let ks = strings_at_least(array, 2)?;
            Ok(Ops::SDiff(ks))
        },
        Command::SUnion => {
            let ks = strings_at_least(array, 2)?;
            Ok(Ops::SUnion(ks))
        },
        Command::SInter => {
            let ks = strings_at_least(array, 2)?;
            Ok(Ops::SInter(ks))
        },
        Command::SDiffStore => {
            let (k, vs) = get_key_and_tail(array)?;
            Ok(Ops::SDiffStore(k, vs))
        },
        Command::SUnionStore => {
            let (k, vs) = get_key_and_tail(array)?;
            Ok(Ops::SUnionStore(k, vs))
        },
        Command::SInterStore => {
            let (k, vs) = get_key_and_tail(array)?;
            Ok(Ops::SInterStore(k, vs))
        },
        Command::SPop => {
            let (k, c) = key_and_count(array)?;
            Ok(Ops::SPop(k, c))
        },
        Command::SIsMember => {
            let (a, b) = get_key_and_val(array)?;
            Ok(Ops::SIsMember(a, b))
        },
        Command::SMove => {
            let (a, b, c) = three_strings(array)?;
            Ok(Ops::SMove(a, b, c))
        },
        Command::SRandMember => {
            let (k, c) = key_and_icount(array)?;
            Ok(Ops::SRandMembers(k, c))
        },
        Command::LPush => {
            let (k, vs) = get_key_and_tail(array)?;
            Ok(Ops::LPush(k, vs))
        },
        Command::LPushX => {
            let (a, b) = get_key_and_val(array)?;
            Ok(Ops::LPushX(a, b))
        },
        Command::LLen => {
            let k = one_key(array)?;
            Ok(Ops::LLen(k))
        },
        Command::LPop => {
            let k = one_key(array)?;
            Ok(Ops::LPop(k))
        },
        Command::LInsert => {
            let k = one_key(array)?;
            Ok(Ops::LPop(k))
        },
        Command::HGet => {
            let (a, b) = get_key_and_val(array)?;
            Ok(Ops::Hash(HashOps::HGet(a, b)))
        },
        Command::HSet => {
            let (a, b, c) = three_strings(array)?;
            Ok(Ops::Hash(HashOps::HSet(a, b, c)))
        },
        Command::HExists => {
            let (a, b) = get_key_and_val(array)?;
            Ok(Ops::Hash(HashOps::HExists(a, b)))
        },
        Command::HGetAll => {
            let k = one_key(array)?;
            Ok(Ops::Hash(HashOps::HGetAll(k)))
        },
        Command::HMGet => {
            let (k, vs) = get_key_and_tail(array)?;
            Ok(Ops::Hash(HashOps::HMGet(k, vs)))
        },
        Command::HKeys => {
            let k = one_key(array)?;
            Ok(Ops::Hash(HashOps::HKeys(k)))
        },
        Command::HMSet => {
            let (k, ps) = key_and_pairs(array)?;
            Ok(Ops::Hash(HashOps::HMSet(k, ps)))
        },
        Command::HIncrBy => {
            let (k, f, n) = key_field_increment(array)?;
            Ok(Ops::Hash(HashOps::HIncrBy(k, f, n)))
        },
        Command::HLen => {
            let k = one_key(array)?;
            Ok(Ops::Hash(HashOps::HLen(k)))
        },
        Command::HDel => {
            let (k, vs) = get_key_and_tail(array)?;
            Ok(Ops::Hash(HashOps::HDel(k, vs)))
        },
        Command::HVals => {
            let k = one_key(array)?;
            Ok(Ops::Hash(HashOps::HVals(k)))
        },
        Command::HStrLen => {
            let (a, b) = get_key_and_val(array)?;
            Ok(Ops::Hash(HashOps::HStrLen(a, b)))
        },
        Command::HSetNX => {
            let (a, b, c) = three_strings(array)?;
            Ok(Ops::Hash(HashOps::HSetNX(a, b, c)))
        },
    }
}

/// Translates one wire value into a command.
pub fn translate(rv: &RedisValue) -> (r: Result<Ops, OpsError>)
    ensures
        result_view(r) == translate_spec(*rv),
{
    match rv {
        RedisValue::SimpleString(s_string) => translate_string(s_string.as_slice()),
        RedisValue::BulkString(s_string) => translate_string(s_string.as_slice()),
        RedisValue::Array(vals) => translate_array(vals),
        _ => Err(OpsError::UnknownOp),
    }
}

} // verus!
