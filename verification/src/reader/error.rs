//! The reader-side error taxonomy: connect-time failures (opening or mapping
//! a shared-memory object, each carrying the raw OS error code) and the
//! protocol-level failure of needing a next segment the writer has not
//! published yet.

use vstd::prelude::*;

verus! {

/// A failure to establish a reader-side connection, with the OS error code.
#[derive(Clone, Copy, Debug, PartialEq, Eq, Structural)]
pub enum ReaderConnectError {
    ShmOpenError(i32),
    MmapError(i32),
}

/// Any failure a reader operation can surface.
#[derive(Clone, Copy, Debug, PartialEq, Eq, Structural)]
pub enum ReaderError {
    ReaderConnectError(ReaderConnectError),
    FailedToGetNextQueue,
}

impl From<ReaderConnectError> for ReaderError {
    fn from(err: ReaderConnectError) -> (r: Self) {
        ReaderError::ReaderConnectError(err)
    }
}

impl vstd::std_specs::convert::FromSpecImpl<ReaderConnectError> for ReaderError {
    open spec fn obeys_from_spec() -> bool {
        true
    }

    open spec fn from_spec(err: ReaderConnectError) -> Self {
        ReaderError::ReaderConnectError(err)
    }
}

} // verus!
