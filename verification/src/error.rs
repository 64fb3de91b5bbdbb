//! What can be wrong with the text of an event.

use vstd::prelude::*;
use vstd::string::*;

use crate::number::decimal;
use crate::number::push_decimal;
use crate::number::NumberError;

verus! {

/// What is wrong with a line of a trace.
#[derive(Debug, Clone, Copy, PartialEq, Eq, Structural)]
pub enum StraceParseSource {
    /// The timestamp has no decimal point.
    MissingDecimalPoint,
    /// A part of the timestamp is not a number.
    Number(NumberError),
}

impl StraceParseSource {
    /// What the error says.
    pub open spec fn spec_message(self) -> Seq<char> {
        match self {
            StraceParseSource::MissingDecimalPoint => "missing decimal point in timestamp"@,
            StraceParseSource::Number(e) => e.spec_message(),
        }
    }

    /// What the error says.
    pub fn message(&self) -> (r: String)
        ensures
            r@ == self.spec_message(),
    {
        match self {
            StraceParseSource::MissingDecimalPoint => {
                "missing decimal point in timestamp".to_owned()
            },
            StraceParseSource::Number(e) => e.message(),
        }
    }
}

/// Errors that can occur when parsing or normalising events.
#[derive(Debug, Clone, PartialEq, Eq)]
pub enum CauspanError {
    InvalidRpcId(u64),
    InvalidOperationId(u64),
    InvalidPid(u32),
    InvalidTid(u32),
    UnsupportedOperation(String),
    StraceParse { line: usize, source: StraceParseSource },
}

impl CauspanError {
    /// What the error says.
    pub open spec fn spec_message(self) -> Seq<char> {
        match self {
            CauspanError::InvalidRpcId(id) => "invalid RPC id: "@ + decimal(id as nat),
            CauspanError::InvalidOperationId(id) => "invalid operation id: "@ + decimal(id as nat),
            CauspanError::InvalidPid(pid) => "invalid PID: "@ + decimal(pid as nat),
            CauspanError::InvalidTid(tid) => "invalid TID: "@ + decimal(tid as nat),
            CauspanError::UnsupportedOperation(name) => "unsupported operation kind: "@ + name@,
            CauspanError::StraceParse { line, source } => "strace parsing error at line "@
                + decimal(line as nat) + ": "@ + source.spec_message(),
        }
    }

    /// What the error says.
    pub fn message(&self) -> (r: String)
        ensures
            r@ == self.spec_message(),
    {
        match self {
            CauspanError::InvalidRpcId(id) => {
                let mut out = "invalid RPC id: ".to_owned();
                push_decimal(&mut out, *id);
                out
            },
            CauspanError::InvalidOperationId(id) => {
                let mut out = "invalid operation id: ".to_owned();
                push_decimal(&mut out, *id);
                out
            },
            CauspanError::InvalidPid(pid) => {
                let mut out = "invalid PID: ".to_owned();
                push_decimal(&mut out, *pid as u64);
                out
            },
            CauspanError::InvalidTid(tid) => {
                let mut out = "invalid TID: ".to_owned();
                push_decimal(&mut out, *tid as u64);
                out
            },
            CauspanError::UnsupportedOperation(name) => {
                let mut out = "unsupported operation kind: ".to_owned();
                out.append(name.as_str());
                out
            },
            CauspanError::StraceParse { line, source } => {
                let mut out = "strace parsing error at line ".to_owned();
                push_decimal(&mut out, *line as u64);
                out.append(": ");
                out.append(source.message().as_str());
                out
            },
        }
    }
}

} // verus!
