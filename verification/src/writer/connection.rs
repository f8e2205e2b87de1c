//! One writer-side connection: ownership of a named shared-memory object end
//! to end — creating and sizing it, holding a handle on its segment, and
//! later unmapping it and unlinking its name.

use vstd::prelude::*;

use crate::connection_type::ConnectionType;
use crate::shm::{valid_name, SharedMem, EINVAL};
use crate::writer::error::{WriterConnectError, WriterDisconnectError};

verus! {

/// The creating side's handle on one named shared-memory object.
/// `connected` models holding a live mapping, as a non-null mapped address
/// does in a real deployment.
#[derive(Debug)]
pub struct WriterConnection {
    pub connection_type: ConnectionType,
    pub handle: usize,
    pub connected: bool,
}

impl WriterConnection {
    /// The object name this connection was made for.
    pub open spec fn name(self) -> Seq<u8> {
        self.connection_type.id@
    }

    /// The handle addresses an object of the namespace.
    pub open spec fn wf(self, shm: SharedMem) -> bool {
        self.handle < shm.objects@.len()
    }

    /// Creates the object named by `connection_type`, sized to `queue_size`
    /// bytes and zero-filled, and maps it; an object already linked under the
    /// name is reopened instead, as `shm_open` with `O_CREAT` reopens.  Fails
    /// exactly on an invalid name.
    pub fn new(connection_type: ConnectionType, queue_size: usize, shm: &mut SharedMem) -> (r:
        Result<WriterConnection, WriterConnectError>)
        requires
            old(shm).wf(),
        ensures
            final(shm).wf(),
            r is Err <==> !valid_name(connection_type.id@),
            match r {
                Ok(c) => {
                    &&& c.connection_type == connection_type
                    &&& c.connected
                    &&& c.wf(*final(shm))
                    &&& final(shm).lookup(connection_type.id@) == Some(c.handle as int)
                    &&& match old(shm).lookup(connection_type.id@) {
                        Some(h0) => c.handle as int == h0 && *final(shm) == *old(shm),
                        None => {
                            &&& c.handle as int == old(shm).objects@.len()
                            &&& final(shm).objects@.len() == old(shm).objects@.len() + 1
                            &&& forall|k: int|
                                0 <= k < old(shm).objects@.len() ==> final(shm).objects@[k] == old(
                                    shm,
                                ).objects@[k]
                            &&& final(shm).objects@[c.handle as int].name@ == connection_type.id@
                            &&& final(shm).objects@[c.handle as int].linked
                            &&& final(shm).objects@[c.handle as int].queue.start == 0
                            &&& final(shm).objects@[c.handle as int].queue.end == 0
                            &&& !final(shm).objects@[c.handle as int].queue.done_reading
                            &&& !final(shm).objects@[c.handle as int].queue.done_writing
                            &&& final(shm).objects@[c.handle as int].queue.capacity() == queue_size
                            &&& forall|n2: Seq<u8>|
                                n2 != connection_type.id@ ==> #[trigger] final(shm).lookup(n2)
                                    == old(shm).lookup(n2)
                        },
                    }
                },
                Err(e) => e == WriterConnectError::ShmOpenError(EINVAL) && *final(shm) == *old(shm),
            },
    {
        match shm.open_or_create(&connection_type.id, queue_size) {
            Ok(handle) => Ok(WriterConnection { connection_type, handle, connected: true }),
            Err(code) => Err(WriterConnectError::ShmOpenError(code)),
        }
    }

    /// The resolved object name.
    pub fn id(&self) -> (r: &Vec<u8>)
        ensures
            r@ == self.name(),
    {
        self.connection_type.id()
    }

    /// Whether this connection's segment may be reclaimed: it is still
    /// mapped, and its reader has finished with it.
    pub fn is_stale(&self, shm: &SharedMem) -> (r: bool)
        requires
            self.wf(*shm),
        ensures
            r == (self.connected && shm.objects@[self.handle as int].queue.done_reading),
    {
        self.connected && shm.objects[self.handle].queue.done_reading
    }

    /// Idempotent teardown: unmaps the segment and, as its creator, unlinks
    /// the object's name so the storage can go once every mapping is gone.
    /// A second call finds the sentinel state and does nothing.
    pub fn disconnect(&mut self, shm: &mut SharedMem) -> (r: Result<(), WriterDisconnectError>)
        requires
            old(self).wf(*old(shm)),
            old(shm).wf(),
        ensures
            final(shm).wf(),
            r is Ok,
            final(self).connection_type == old(self).connection_type,
            final(self).handle == old(self).handle,
            !final(self).connected,
            !old(self).connected ==> *final(shm) == *old(shm),
            old(self).connected ==> ({
                let h = old(self).handle as int;
                let s1 = *old(shm);
                let s2 = *final(shm);
                &&& s2.objects@.len() == s1.objects@.len()
                &&& forall|k: int|
                    0 <= k < s1.objects@.len() && k != h ==> s2.objects@[k] == s1.objects@[k]
                &&& s2.objects@[h].name == s1.objects@[h].name
                &&& s2.objects@[h].queue == s1.objects@[h].queue
                &&& !s2.objects@[h].linked
                &&& forall|n2: Seq<u8>|
                    n2 != s1.objects@[h].name@ ==> #[trigger] s2.lookup(n2) == s1.lookup(n2)
                &&& (s1.objects@[h].linked ==> s2.lookup(s1.objects@[h].name@) is None)
            }),
    {
        if !self.connected {
            return Ok(());
        }
        self.connected = false;
        shm.unlink_at(self.handle);
        Ok(())
    }
}

} // verus!
