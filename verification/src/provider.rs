//! What the native provider hands to the library, and takes from it.

use vstd::prelude::*;

use crate::error::{Error, ErrorView};

verus! {

/// Why a call into the native provider failed.
#[derive(Clone, Copy, Debug, Eq, PartialEq)]
pub enum FfiError {
    Contract(&'static str),
    NullHandle,
    Status(i32),
}

impl FfiError {
    /// The library error for a failed native operation.
    pub open spec fn mapped(self, operation: Seq<char>) -> ErrorView {
        match self {
            FfiError::Contract(detail) => ErrorView::FfiContract { operation, detail: detail@ },
            FfiError::NullHandle => ErrorView::NullHandle { operation },
            FfiError::Status(status) => ErrorView::Native { operation, status },
        }
    }
}

/// The library error for a failed native operation.
pub fn map_ffi_error(operation: &'static str, error: FfiError) -> (mapped: Error)
    ensures
        mapped@ == error.mapped(operation@),
{
    match error {
        FfiError::Contract(detail) => Error::FfiContract { operation, detail },
        FfiError::NullHandle => Error::NullHandle { operation },
        FfiError::Status(status) => Error::Native { operation, status },
    }
}

/// One work request as the provider takes it.
#[derive(Clone, Copy, Debug, Eq, PartialEq, Structural)]
pub struct WrDescriptor {
    pub offset: u64,
    pub length: u32,
    pub user_ctx: u64,
    pub complete_enable: bool,
}

/// What the provider said of a batch of work requests: how many of them, from the first on, it
/// accepted, and its status.
#[derive(Clone, Copy, Debug, Eq, PartialEq, Structural)]
pub struct PostBatch {
    pub posted: usize,
    pub status: i32,
}

/// One completion as the provider reports it.
#[derive(Clone, Copy, Debug, Eq, PartialEq, Structural)]
pub struct CompletionRecord {
    pub status: i32,
    pub opcode: u32,
    pub user_ctx: u64,
    pub completion_len: u32,
    pub is_recv: bool,
    pub is_jetty: bool,
    pub user_ctx_valid: bool,
}

/// Which completion queues an event names.
#[derive(Clone, Copy, Debug, Eq, PartialEq, Structural)]
pub struct JfcEventReady {
    pub send: bool,
    pub recv: bool,
}

} // verus!
