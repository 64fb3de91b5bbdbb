//! What names and messages say.

use vstd::prelude::*;
use vstd::string::*;

use crate::error::CauspanError;
use crate::error::StraceParseSource;
use crate::evaluation::EvaluationError;
use crate::event::KernelEventType;
use crate::event::OperationKind;
use crate::experiment::spec_exit_text;
use crate::experiment::RunnerError;
use crate::number::decimal;
use crate::number::NumberError;

verus! {

/// Each kind of operation and each type of event has a name of its own.
pub proof fn law_names()
    ensures
        OperationKind::FileRead.spec_text() == "file_read"@,
        OperationKind::FileWrite.spec_text() == "file_write"@,
        OperationKind::NetworkConnect.spec_text() == "network_connect"@,
        OperationKind::ProcessSpawn.spec_text() == "process_spawn"@,
        KernelEventType::Openat.spec_text() == "openat"@,
        KernelEventType::Read.spec_text() == "read"@,
        KernelEventType::Write.spec_text() == "write"@,
        KernelEventType::Socket.spec_text() == "socket"@,
        KernelEventType::Connect.spec_text() == "connect"@,
        KernelEventType::Clone.spec_text() == "clone"@,
        KernelEventType::Fork.spec_text() == "fork"@,
        KernelEventType::Execve.spec_text() == "execve"@,
        KernelEventType::Unknown.spec_text() == "unknown"@,
{
}

/// An error names the id, the process, the thread or the kind that is wrong.
pub proof fn law_errors_name_their_cause(id: u64, n: u32, name: String)
    ensures
        CauspanError::InvalidRpcId(id).spec_message() == "invalid RPC id: "@ + decimal(id as nat),
        CauspanError::InvalidOperationId(id).spec_message() == "invalid operation id: "@ + decimal(
            id as nat,
        ),
        CauspanError::InvalidPid(n).spec_message() == "invalid PID: "@ + decimal(n as nat),
        CauspanError::InvalidTid(n).spec_message() == "invalid TID: "@ + decimal(n as nat),
        CauspanError::UnsupportedOperation(name).spec_message() == "unsupported operation kind: "@
            + name@,
{
}

/// An error in a trace names the line, and says what is wrong with it.
pub proof fn law_trace_errors(line: usize, e: NumberError)
    ensures
        (CauspanError::StraceParse {
            line,
            source: StraceParseSource::MissingDecimalPoint,
        }).spec_message() == "strace parsing error at line "@ + decimal(line as nat) + ": "@
            + "missing decimal point in timestamp"@,
        (CauspanError::StraceParse { line, source: StraceParseSource::Number(e) }).spec_message()
            == "strace parsing error at line "@ + decimal(line as nat) + ": "@ + e.spec_message(),
        NumberError::Empty.spec_message() == "cannot parse integer from empty string"@,
        NumberError::InvalidDigit.spec_message() == "invalid digit found in string"@,
        NumberError::PosOverflow.spec_message() == "number too large to fit in target type"@,
        NumberError::NegOverflow.spec_message() == "number too small to fit in target type"@,
{
}

/// An evaluation without events says which events are missing.
pub proof fn law_evaluation_errors()
    ensures
        EvaluationError::NoGroundTruth.spec_message() == "ground-truth file is empty"@,
        EvaluationError::NoKernelEvents.spec_message() == "kernel-events file is empty"@,
{
}

/// A failed command is named with the reason, and a missing field with its section.
pub proof fn law_runner_errors(a: String, b: String)
    ensures
        RunnerError::CommandFailed(a, b).spec_message() == "command '"@ + a@ + "' failed: "@ + b@,
        RunnerError::MissingField(a, b).spec_message() == "missing field '"@ + a@
            + "' in config section ["@ + b@ + "]"@,
{
}

/// An exit code is shown with its sign; that there is none is shown too.
pub proof fn law_exit_codes(n: i32)
    ensures
        spec_exit_text(None) == "exit code: None"@,
        n >= 0 ==> spec_exit_text(Some(n)) == "exit code: Some("@ + decimal(n as nat) + ")"@,
        n < 0 ==> spec_exit_text(Some(n)) == "exit code: Some("@ + (seq!['-'] + decimal(
            (-n) as nat,
        )) + ")"@,
{
}

} // verus!
