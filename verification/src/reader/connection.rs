//! One reader-side connection: a handle on a named shared-memory object some
//! writer created.  A reader only maps a view; it never resizes the object
//! and never unlinks its name.

use vstd::prelude::*;

use crate::connection_type::ConnectionType;
use crate::reader::error::ReaderConnectError;
use crate::shm::{valid_name, SharedMem, EINVAL, ENOENT};

verus! {

/// The reading side's handle on one named shared-memory object.
#[derive(Debug)]
pub struct ReaderConnection {
    pub connection_type: ConnectionType,
    pub handle: usize,
}

impl ReaderConnection {
    /// The object name this connection was made for.
    pub open spec fn name(self) -> Seq<u8> {
        self.connection_type.id@
    }

    /// The handle addresses an object of the namespace.
    pub open spec fn wf(self, shm: SharedMem) -> bool {
        self.handle < shm.objects@.len()
    }

    /// Opens and maps the object linked under the name of
    /// `connection_type`, as `shm_open` without `O_CREAT` does: nothing is
    /// created, so this fails with `ENOENT` exactly when no writer has
    /// created the object yet, and with `EINVAL` exactly on an invalid name.
    pub fn new(connection_type: ConnectionType, shm: &SharedMem) -> (r: Result<
        ReaderConnection,
        ReaderConnectError,
    >)
        ensures
            r is Ok <==> (valid_name(connection_type.id@) && shm.lookup(
                connection_type.id@,
            ) is Some),
            match r {
                Ok(c) => {
                    &&& c.connection_type == connection_type
                    &&& c.wf(*shm)
                    &&& shm.lookup(connection_type.id@) == Some(c.handle as int)
                },
                Err(e) => (!valid_name(connection_type.id@) && e
                    == ReaderConnectError::ShmOpenError(EINVAL)) || (valid_name(connection_type.id@)
                    && shm.lookup(connection_type.id@) is None && e
                    == ReaderConnectError::ShmOpenError(ENOENT)),
            },
    {
        match shm.open_existing(&connection_type.id) {
            Ok(handle) => Ok(ReaderConnection { connection_type, handle }),
            Err(code) => Err(ReaderConnectError::ShmOpenError(code)),
        }
    }

    /// The resolved object name.
    pub fn id(&self) -> (r: &Vec<u8>)
        ensures
            r@ == self.name(),
    {
        self.connection_type.id()
    }
}

} // verus!
