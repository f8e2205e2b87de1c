//! The writer-side error taxonomy: connect-time failures (opening, sizing or
//! mapping a shared-memory object) and disconnect-time failures (unmapping
//! or unlinking one).  Each variant carries the raw OS error code.

use vstd::prelude::*;

verus! {

/// A failure to establish a writer-side connection, with the OS error code.
#[derive(Clone, Copy, Debug, PartialEq, Eq, Structural)]
pub enum WriterConnectError {
    ShmOpenError(i32),
    FtruncateError(i32),
    MmapError(i32),
}

/// A failure to tear a writer-side connection down, with the OS error code.
#[derive(Clone, Copy, Debug, PartialEq, Eq, Structural)]
pub enum WriterDisconnectError {
    MunMapError(i32),
    ShmUnlinkError(i32),
}

/// Any failure a writer operation can surface.
#[derive(Clone, Copy, Debug, PartialEq, Eq, Structural)]
pub enum WriterError {
    ConnectError(WriterConnectError),
    DisconnectError(WriterDisconnectError),
}

impl From<WriterConnectError> for WriterError {
    fn from(err: WriterConnectError) -> (r: Self) {
        WriterError::ConnectError(err)
    }
}

impl vstd::std_specs::convert::FromSpecImpl<WriterConnectError> for WriterError {
    open spec fn obeys_from_spec() -> bool {
        true
    }

    open spec fn from_spec(err: WriterConnectError) -> Self {
        WriterError::ConnectError(err)
    }
}

impl From<WriterDisconnectError> for WriterError {
    fn from(err: WriterDisconnectError) -> (r: Self) {
        WriterError::DisconnectError(err)
    }
}

impl vstd::std_specs::convert::FromSpecImpl<WriterDisconnectError> for WriterError {
    open spec fn obeys_from_spec() -> bool {
        true
    }

    open spec fn from_spec(err: WriterDisconnectError) -> Self {
        WriterError::DisconnectError(err)
    }
}

} // verus!
