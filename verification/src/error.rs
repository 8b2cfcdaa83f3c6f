//! The library's error type and its text.

use vstd::prelude::*;

use crate::text;
use crate::text::{join, push_decimal, push_signed};

verus! {

/// The result of every fallible operation of the library.
pub type Result<T> = core::result::Result<T, Error>;

/// Why an operation failed.
#[derive(Debug, Eq, PartialEq)]
pub enum Error {
    FeatureDisabled,
    AlreadyInitialized,
    InvalidConfiguration(String),
    Protocol(String),
    Timeout { operation: &'static str },
    Completion {
        status: i32,
        opcode: u32,
        user_ctx: u64,
        sequence: Option<u64>,
        post_call: Option<u64>,
        post_index: Option<u32>,
        post_count: Option<u32>,
    },
    Io { operation: &'static str, message: String },
    InvalidDeviceName,
    FfiContract { operation: &'static str, detail: &'static str },
    StartupRollback { primary: Box<Error>, cleanup_failures: Vec<String> },
    Shutdown { failures: Vec<String> },
    NullHandle { operation: &'static str },
    Native { operation: &'static str, status: i32 },
}

/// An [`Error`] with its texts as character sequences.
pub enum ErrorView {
    FeatureDisabled,
    AlreadyInitialized,
    InvalidConfiguration(Seq<char>),
    Protocol(Seq<char>),
    Timeout { operation: Seq<char> },
    Completion {
        status: i32,
        opcode: u32,
        user_ctx: u64,
        sequence: Option<u64>,
        post_call: Option<u64>,
        post_index: Option<u32>,
        post_count: Option<u32>,
    },
    Io { operation: Seq<char>, message: Seq<char> },
    InvalidDeviceName,
    FfiContract { operation: Seq<char>, detail: Seq<char> },
    StartupRollback { primary: Box<ErrorView>, cleanup_failures: Seq<Seq<char>> },
    Shutdown { failures: Seq<Seq<char>> },
    NullHandle { operation: Seq<char> },
    Native { operation: Seq<char>, status: i32 },
}

/// The name of a completion status.
pub open spec fn status_name(status: int) -> Seq<char> {
    if status == 0 {
        "SUCCESS"@
    } else if status == 1 {
        "UNSUPPORTED_OPCODE_ERR"@
    } else if status == 2 {
        "LOC_LEN_ERR"@
    } else if status == 3 {
        "LOC_OPERATION_ERR"@
    } else if status == 4 {
        "LOC_ACCESS_ERR"@
    } else if status == 5 {
        "REM_RESP_LEN_ERR"@
    } else if status == 6 {
        "REM_UNSUPPORTED_REQ_ERR"@
    } else if status == 7 {
        "REM_OPERATION_ERR"@
    } else if status == 8 {
        "REM_ACCESS_ABORT_ERR"@
    } else if status == 9 {
        "ACK_TIMEOUT_ERR"@
    } else if status == 10 {
        "RNR_RETRY_CNT_EXC_ERR"@
    } else if status == 11 {
        "WR_FLUSH_ERR"@
    } else if status == 12 {
        "WR_SUSPEND_DONE"@
    } else if status == 13 {
        "WR_FLUSH_ERR_DONE"@
    } else if status == 14 {
        "WR_UNHANDLED"@
    } else if status == 15 {
        "LOC_DATA_POISON"@
    } else if status == 16 {
        "REM_DATA_POISON"@
    } else {
        "UNKNOWN"@
    }
}

/// `Some(n)` or `None`, as text.
pub open spec fn optional_number(value: Option<nat>) -> Seq<char> {
    match value {
        Some(value) => "Some("@ + text::decimal(value) + ")"@,
        None => "None"@,
    }
}

/// An optional counter as an optional natural number.
pub open spec fn optional_u64(value: Option<u64>) -> Option<nat> {
    match value {
        Some(value) => Some(value as nat),
        None => None,
    }
}

/// An optional index as an optional natural number.
pub open spec fn optional_u32(value: Option<u32>) -> Option<nat> {
    match value {
        Some(value) => Some(value as nat),
        None => None,
    }
}

impl ErrorView {
    /// The error's text.
    pub open spec fn text(self) -> Seq<char>
        decreases self,
    {
        match self {
            ErrorView::FeatureDisabled => "this build does not enable the `urma` feature"@,
            ErrorView::AlreadyInitialized => {
                "an URMA runtime already owns process-global liburma"@
            },
            ErrorView::InvalidConfiguration(detail) => "invalid configuration: "@ + detail,
            ErrorView::Protocol(detail) => "protocol error: "@ + detail,
            ErrorView::Timeout { operation } => "operation "@ + operation + " timed out"@,
            ErrorView::Completion {
                status,
                opcode,
                user_ctx,
                sequence,
                post_call,
                post_index,
                post_count,
            } => {
                "completion failed: status="@ + text::signed_decimal(status as int) + "("@
                    + status_name(status as int) + "), opcode="@ + text::decimal(
                    opcode as nat,
                ) + ", user_ctx="@ + text::decimal(user_ctx as nat) + ", sequence="@
                    + optional_number(optional_u64(sequence)) + ", post_call="@ + optional_number(
                    optional_u64(post_call),
                ) + ", post_index="@ + optional_number(optional_u32(post_index)) + ", post_count="@
                    + optional_number(optional_u32(post_count))
            },
            ErrorView::Io { operation, message } => {
                "I/O operation "@ + operation + " failed: "@ + message
            },
            ErrorView::InvalidDeviceName => "device name contains an interior NUL byte"@,
            ErrorView::FfiContract { operation, detail } => {
                "FFI contract violation during "@ + operation + ": "@ + detail
            },
            ErrorView::StartupRollback { primary, cleanup_failures } => {
                "startup failed: "@ + primary.text() + "; rollback failures: "@
                    + text::joined(cleanup_failures, "; "@)
            },
            ErrorView::Shutdown { failures } => {
                "shutdown failures: "@ + text::joined(failures, "; "@)
            },
            ErrorView::NullHandle { operation } => {
                "native operation "@ + operation + " succeeded without returning a handle"@
            },
            ErrorView::Native { operation, status } => {
                "liburma operation "@ + operation + " failed with status "@
                    + text::signed_decimal(status as int)
            },
        }
    }
}

fn completion_status_name(status: i32) -> (name: &'static str)
    ensures
        name@ == status_name(status as int),
{
    match status {
        0 => "SUCCESS",
        1 => "UNSUPPORTED_OPCODE_ERR",
        2 => "LOC_LEN_ERR",
        3 => "LOC_OPERATION_ERR",
        4 => "LOC_ACCESS_ERR",
        5 => "REM_RESP_LEN_ERR",
        6 => "REM_UNSUPPORTED_REQ_ERR",
        7 => "REM_OPERATION_ERR",
        8 => "REM_ACCESS_ABORT_ERR",
        9 => "ACK_TIMEOUT_ERR",
        10 => "RNR_RETRY_CNT_EXC_ERR",
        11 => "WR_FLUSH_ERR",
        12 => "WR_SUSPEND_DONE",
        13 => "WR_FLUSH_ERR_DONE",
        14 => "WR_UNHANDLED",
        15 => "LOC_DATA_POISON",
        16 => "REM_DATA_POISON",
        _ => "UNKNOWN",
    }
}

pub(crate) fn push_optional(out: &mut String, value: Option<u64>)
    ensures
        final(out)@ == old(out)@ + optional_number(optional_u64(value)),
{
    match value {
        Some(value) => {
            let ghost before = out@;
            out.append("Some(");
            push_decimal(out, value);
            out.append(")");
            assert(out@ =~= before + ("Some("@ + text::decimal(value as nat) + ")"@));
        },
        None => {
            out.append("None");
        },
    }
}

fn widen(value: Option<u32>) -> (wide: Option<u64>)
    ensures
        optional_u64(wide) == optional_u32(value),
{
    match value {
        Some(value) => Some(value as u64),
        None => None,
    }
}

impl Error {
    /// The error with its texts as character sequences.
    pub open spec fn view(&self) -> ErrorView
        decreases self,
    {
        match self {
            Error::FeatureDisabled => ErrorView::FeatureDisabled,
            Error::AlreadyInitialized => ErrorView::AlreadyInitialized,
            Error::InvalidConfiguration(detail) => ErrorView::InvalidConfiguration(detail@),
            Error::Protocol(detail) => ErrorView::Protocol(detail@),
            Error::Timeout { operation } => ErrorView::Timeout { operation: operation@ },
            Error::Completion {
                status,
                opcode,
                user_ctx,
                sequence,
                post_call,
                post_index,
                post_count,
            } => ErrorView::Completion {
                status: *status,
                opcode: *opcode,
                user_ctx: *user_ctx,
                sequence: *sequence,
                post_call: *post_call,
                post_index: *post_index,
                post_count: *post_count,
            },
            Error::Io { operation, message } => ErrorView::Io {
                operation: operation@,
                message: message@,
            },
            Error::InvalidDeviceName => ErrorView::InvalidDeviceName,
            Error::FfiContract { operation, detail } => ErrorView::FfiContract {
                operation: operation@,
                detail: detail@,
            },
            Error::StartupRollback { primary, cleanup_failures } => ErrorView::StartupRollback {
                primary: Box::new(primary.view()),
                cleanup_failures: text::views(cleanup_failures@),
            },
            Error::Shutdown { failures } => ErrorView::Shutdown {
                failures: text::views(failures@),
            },
            Error::NullHandle { operation } => ErrorView::NullHandle { operation: operation@ },
            Error::Native { operation, status } => ErrorView::Native {
                operation: operation@,
                status: *status,
            },
        }
    }

    /// The error's text.
    pub fn to_string(&self) -> (text: String)
        ensures
            text@ == self@.text(),
        decreases self,
    {
        let mut text = String::new();
        match self {
            Error::FeatureDisabled => {
                text.append("this build does not enable the `urma` feature");
            },
            Error::AlreadyInitialized => {
                text.append("an URMA runtime already owns process-global liburma");
            },
            Error::InvalidConfiguration(detail) => {
                text.append("invalid configuration: ");
                text.append(detail.as_str());
            },
            Error::Protocol(detail) => {
                text.append("protocol error: ");
                text.append(detail.as_str());
            },
            Error::Timeout { operation } => {
                text.append("operation ");
                text.append(operation);
                text.append(" timed out");
            },
            Error::Completion {
                status,
                opcode,
                user_ctx,
                sequence,
                post_call,
                post_index,
                post_count,
            } => {
                text.append("completion failed: status=");
                push_signed(&mut text, *status);
                text.append("(");
                text.append(completion_status_name(*status));
                text.append("), opcode=");
                push_decimal(&mut text, *opcode as u64);
                text.append(", user_ctx=");
                push_decimal(&mut text, *user_ctx);
                text.append(", sequence=");
                push_optional(&mut text, *sequence);
                text.append(", post_call=");
                push_optional(&mut text, *post_call);
                text.append(", post_index=");
                push_optional(&mut text, widen(*post_index));
                text.append(", post_count=");
                push_optional(&mut text, widen(*post_count));
            },
            Error::Io { operation, message } => {
                text.append("I/O operation ");
                text.append(operation);
                text.append(" failed: ");
                text.append(message.as_str());
            },
            Error::InvalidDeviceName => {
                text.append("device name contains an interior NUL byte");
            },
            Error::FfiContract { operation, detail } => {
                text.append("FFI contract violation during ");
                text.append(operation);
                text.append(": ");
                text.append(detail);
            },
            Error::StartupRollback { primary, cleanup_failures } => {
                text.append("startup failed: ");
                text.append(primary.to_string().as_str());
                text.append("; rollback failures: ");
                text.append(join(cleanup_failures, "; ").as_str());
            },
            Error::Shutdown { failures } => {
                text.append("shutdown failures: ");
                text.append(join(failures, "; ").as_str());
            },
            Error::NullHandle { operation } => {
                text.append("native operation ");
                text.append(operation);
                text.append(" succeeded without returning a handle");
            },
            Error::Native { operation, status } => {
                text.append("liburma operation ");
                text.append(operation);
                text.append(" failed with status ");
                push_signed(&mut text, *status);
            },
        }
        text
    }
}

/// A protocol error with the given text.
pub(crate) fn protocol(detail: &str) -> (error: Error)
    ensures
        error@ == ErrorView::Protocol(detail@),
{
    Error::Protocol(detail.to_owned())
}

/// A configuration error with the given text.
pub(crate) fn invalid(detail: &str) -> (error: Error)
    ensures
        error@ == ErrorView::InvalidConfiguration(detail@),
{
    Error::InvalidConfiguration(detail.to_owned())
}

} // verus!
