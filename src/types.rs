//! Wire values and engine results shared by the translator and the engines.
use vstd::prelude::*;

verus! {

/// A stored value: an opaque byte sequence.
pub type Value = Vec<u8>;

/// A key into one of the containers: an opaque byte sequence.
pub type Key = Vec<u8>;

/// One parsed protocol element, as produced by the wire parser.
#[derive(Debug)]
pub enum RedisValue {
    SimpleString(Value),
    Error(Value),
    BulkString(Value),
    Int(i64),
    Array(Vec<RedisValue>),
    NullArray,
    NullBulkString,
}

/// The only failure an engine reports once a command was accepted.
#[derive(Debug, PartialEq, Eq, Clone, Copy)]
pub enum EngineError {
    /// An existing value does not hold a base-10 integer.
    BadType,
    /// The arithmetic result does not fit in a signed 64-bit integer.
    Overflow,
    /// The key that the command starts from is absent.
    NoSuchKey,
}

impl EngineError {
    /// The fixed message carried by the error reply.
    pub fn message(&self) -> (r: &'static str)
        ensures
            r@ == self.message_spec(),
    {
        match self {
            EngineError::BadType => "Bad Type!",
            EngineError::Overflow => "Overflow!",
            EngineError::NoSuchKey => "no such key",
        }
    }

    pub open spec fn message_spec(&self) -> Seq<char> {
        match self {
            EngineError::BadType => "Bad Type!"@,
            EngineError::Overflow => "Overflow!"@,
            EngineError::NoSuchKey => "no such key"@,
        }
    }
}

/// The outcome of executing one command, before it is written to the wire.
#[derive(Debug)]
pub enum EngineRes {
    /// Success without a payload.
    Success,
    /// Nothing is stored there.
    Nil,
    /// A single value.
    StringRes(Value),
    /// A flat list of values.
    MultiStringRes(Vec<Value>),
    /// One entry per requested item: its value, or nothing.
    Array(Vec<Option<Value>>),
    /// A count or a length.
    UIntRes(usize),
    /// The command was accepted but could not be completed.
    Error(EngineError),
}

/// What an [`EngineRes`] holds, with byte strings as sequences.
pub enum ResView {
    Success,
    Nil,
    Str(Seq<u8>),
    Strs(Seq<Seq<u8>>),
    Array(Seq<Option<Seq<u8>>>),
    UInt(nat),
    Error(EngineError),
}

pub open spec fn opt_view(o: Option<Value>) -> Option<Seq<u8>> {
    match o {
        Some(v) => Some(v@),
        None => None,
    }
}

impl View for EngineRes {
    type V = ResView;

    open spec fn view(&self) -> ResView {
        match self {
            EngineRes::Success => ResView::Success,
            EngineRes::Nil => ResView::Nil,
            EngineRes::StringRes(v) => ResView::Str(v@),
            EngineRes::MultiStringRes(vs) => ResView::Strs(vs@.map_values(|v: Value| v@)),
            EngineRes::Array(os) => ResView::Array(os@.map_values(|o: Option<Value>| opt_view(o))),
            EngineRes::UIntRes(n) => ResView::UInt(*n as nat),
            EngineRes::Error(e) => ResView::Error(*e),
        }
    }
}

} // verus!
