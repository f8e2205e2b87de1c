//! The reader of one stream: opens the root segment read-side, discovers
//! worker segments by popping their published names from it, and drains each
//! worker segment in turn, completing the handshake on every segment it
//! exhausts.

mod connection;
mod error;

pub use connection::ReaderConnection;
pub use error::{ReaderConnectError, ReaderError};

use vstd::prelude::*;

use crate::connection_type::{root_name, ConnectionType};
use crate::queue::{frame_ok, frame_payload, next_frame, pop_rel, Queue};
use crate::shm::{valid_name, SharedMem, EINVAL, ENOENT};

verus! {

use vstd::string::StringSliceAdditionalSpecFns;

/// The returned payload of a pop, as a ghost sequence.
pub open spec fn opt_bytes(r: Option<Vec<u8>>) -> Option<Seq<u8>> {
    match r {
        Some(m) => Some(m@),
        None => None,
    }
}

/// The reading side of one stream.
#[derive(Debug)]
pub struct Reader {
    pub root_connection: ReaderConnection,
    pub current_connection: ReaderConnection,
}

/// What one fetch of the next published name did to the root segment and
/// what it yielded: the root segment was popped once, everything
/// else in the namespace stayed as it was, and on success the new connection
/// is the object the popped name is linked under — never the root itself.
pub open spec fn fetch_rel(
    root_handle: int,
    s1: SharedMem,
    s2: SharedMem,
    r: Result<ReaderConnection, ReaderError>,
) -> bool {
    let rq1 = s1.objects@[root_handle].queue;
    let rq2 = s2.objects@[root_handle].queue;
    &&& s2.objects@.len() == s1.objects@.len()
    &&& forall|k: int|
        0 <= k < s1.objects@.len() && k != root_handle ==> s2.objects@[k] == s1.objects@[k]
    &&& forall|n2: Seq<u8>| #[trigger] s2.lookup(n2) == s1.lookup(n2)
    &&& s2.objects@[root_handle].name == s1.objects@[root_handle].name
    &&& s2.objects@[root_handle].linked == s1.objects@[root_handle].linked
    &&& match r {
        Ok(c) => {
            &&& frame_ok(rq1.data@, rq1.start as int)
            &&& pop_rel(rq1, rq2, Some(frame_payload(rq1.data@, rq1.start as int)))
            &&& c.name() == frame_payload(rq1.data@, rq1.start as int)
            &&& s1.lookup(c.name()) == Some(c.handle as int)
            &&& c.handle < s1.objects@.len()
            &&& c.handle != root_handle
        },
        Err(ReaderError::FailedToGetNextQueue) => {
            ||| (!frame_ok(rq1.data@, rq1.start as int) && pop_rel(rq1, rq2, None))
            ||| (frame_ok(rq1.data@, rq1.start as int) && pop_rel(
                rq1,
                rq2,
                Some(frame_payload(rq1.data@, rq1.start as int)),
            ) && s1.lookup(frame_payload(rq1.data@, rq1.start as int)) == Some(root_handle))
        },
        Err(ReaderError::ReaderConnectError(e)) => {
            let nm = frame_payload(rq1.data@, rq1.start as int);
            &&& frame_ok(rq1.data@, rq1.start as int)
            &&& pop_rel(rq1, rq2, Some(nm))
            &&& ((valid_name(nm) && s1.lookup(nm) is None && e == ReaderConnectError::ShmOpenError(
                ENOENT,
            )) || (!valid_name(nm) && e == ReaderConnectError::ShmOpenError(EINVAL)))
        },
    }
}

impl Reader {
    pub open spec fn root_handle(self) -> int {
        self.root_connection.handle as int
    }

    pub open spec fn current_handle(self) -> int {
        self.current_connection.handle as int
    }

    pub open spec fn root_queue(self, shm: SharedMem) -> Queue {
        shm.objects@[self.root_handle()].queue
    }

    pub open spec fn current_queue(self, shm: SharedMem) -> Queue {
        shm.objects@[self.current_handle()].queue
    }

    /// Both connections address objects of the namespace, and the current
    /// segment is never the root segment itself.
    pub open spec fn wf(self, shm: SharedMem) -> bool {
        &&& shm.wf()
        &&& self.root_connection.handle < shm.objects@.len()
        &&& self.current_connection.handle < shm.objects@.len()
        &&& self.current_connection.handle != self.root_connection.handle
    }

    /// The current segment cannot yield a frame now: either the reader has
    /// already finished with it, or no complete frame waits at its read
    /// cursor.  Then the reader must advance to the next published segment.
    pub open spec fn should_advance(self, shm: SharedMem) -> bool {
        self.current_queue(shm).done_reading || !frame_ok(
            self.current_queue(shm).data@,
            self.current_queue(shm).start as int,
        )
    }

    /// Pops the next published worker name from the root segment and opens
    /// the object linked under it.
    fn fetch_new_queue_connection(root_connection: &ReaderConnection, shm: &mut SharedMem) -> (r:
        Result<ReaderConnection, ReaderError>)
        requires
            old(shm).wf(),
            root_connection.handle < old(shm).objects@.len(),
        ensures
            final(shm).wf(),
            fetch_rel(root_connection.handle as int, *old(shm), *final(shm), r),
    {
        match shm.pop_at(root_connection.handle) {
            Some(queue_name) => {
                let connection_type = ConnectionType::exact(queue_name.as_slice());
                match ReaderConnection::new(connection_type, shm) {
                    Ok(c) => {
                        if c.handle == root_connection.handle {
                            // A published name can only be a worker segment;
                            // the root's own name here means a broken stream.
                            Err(ReaderError::FailedToGetNextQueue)
                        } else {
                            Ok(c)
                        }
                    },
                    Err(e) => Err(ReaderError::ReaderConnectError(e)),
                }
            },
            None => Err(ReaderError::FailedToGetNextQueue),
        }
    }

    /// Opens the stream for reading: opens the root segment, which some
    /// writer must already have created, and the first published worker
    /// segment.  Fails with `ShmOpenError(ENOENT)` when no writer has
    /// created the root object yet, and with `FailedToGetNextQueue` when the
    /// root segment holds no published name yet.
    pub fn new(prefix: &str, shm: &mut SharedMem) -> (r: Result<Reader, ReaderError>)
        requires
            old(shm).wf(),
        ensures
            final(shm).wf(),
            match old(shm).lookup(root_name(prefix.spec_bytes())) {
                None => {
                    &&& r == Err::<Reader, ReaderError>(
                        ReaderError::ReaderConnectError(ReaderConnectError::ShmOpenError(ENOENT)),
                    )
                    &&& *final(shm) == *old(shm)
                },
                Some(rh) => {
                    &&& match r {
                        Ok(rd) => {
                            &&& rd.wf(*final(shm))
                            &&& rd.root_connection.name() == root_name(prefix.spec_bytes())
                            &&& rd.root_handle() == rh
                            &&& fetch_rel(rh, *old(shm), *final(shm), Ok(rd.current_connection))
                        },
                        Err(e) => fetch_rel(rh, *old(shm), *final(shm), Err(e)),
                    }
                },
            },
    {
        let root_type = ConnectionType::root(prefix);
        proof {
            crate::connection_type::lemma_name_shapes(prefix.spec_bytes(), 0);
        }
        let root_connection = match ReaderConnection::new(root_type, shm) {
            Ok(c) => c,
            Err(e) => {
                return Err(ReaderError::ReaderConnectError(e));
            },
        };
        let current_connection = match Self::fetch_new_queue_connection(&root_connection, shm) {
            Ok(c) => c,
            Err(e) => {
                return Err(e);
            },
        };
        Ok(Reader { root_connection, current_connection })
    }

    /// Pops the next message of the stream.  A current segment that can
    /// yield nothing any more is first replaced by the next published
    /// segment; `FailedToGetNextQueue` then means the writer has not rotated
    /// yet — retry later.  `Ok(None)` is no error: the current segment is
    /// simply empty right now.
    pub fn ipc_pop(&mut self, shm: &mut SharedMem) -> (r: Result<Option<Vec<u8>>, ReaderError>)
        requires
            old(self).wf(*old(shm)),
        ensures
            final(self).wf(*final(shm)),
            final(self).root_connection == old(self).root_connection,
            final(shm).objects@.len() == old(shm).objects@.len(),
            forall|n2: Seq<u8>| #[trigger] final(shm).lookup(n2) == old(shm).lookup(n2),
            !old(self).should_advance(*old(shm)) ==> {
                &&& *final(self) == *old(self)
                &&& match r {
                    Ok(v) => pop_rel(
                        old(self).current_queue(*old(shm)),
                        final(self).current_queue(*final(shm)),
                        opt_bytes(v),
                    ) && v is Some,
                    Err(_) => false,
                }
                &&& ({
                    let s2 = *final(shm);
                    forall|k: int|
                        0 <= k < old(shm).objects@.len() && k != old(self).current_handle()
                            ==> s2.objects@[k] == old(shm).objects@[k]
                })
            },
            old(self).should_advance(*old(shm)) ==> {
                &&& match r {
                    Ok(v) => ({
                        let rq1 = old(self).root_queue(*old(shm));
                        let nm = frame_payload(rq1.data@, rq1.start as int);
                        let ch = final(self).current_handle();
                        &&& frame_ok(rq1.data@, rq1.start as int)
                        &&& final(self).current_connection.name() == nm
                        &&& old(shm).lookup(nm) == Some(ch)
                        &&& ch != old(self).root_handle()
                        &&& ch < old(shm).objects@.len()
                        &&& pop_rel(rq1, final(self).root_queue(*final(shm)), Some(nm))
                        &&& pop_rel(
                            old(shm).objects@[ch].queue,
                            final(self).current_queue(*final(shm)),
                            opt_bytes(v),
                        )
                        &&& forall|k: int|
                            0 <= k < old(shm).objects@.len() && k != old(self).root_handle() && k
                                != ch ==> final(shm).objects@[k] == old(shm).objects@[k]
                    }),
                    Err(e) => {
                        &&& *final(self) == *old(self)
                        &&& fetch_rel(old(self).root_handle(), *old(shm), *final(shm), Err(e))
                    },
                }
            },
    {
        let current_done = shm.done_reading_at(self.current_connection.handle);
        let can = shm.can_pop_at(self.current_connection.handle);
        if current_done || !can {
            // This segment is over: advance to the next published one.
            let ghost s0 = *shm;
            let fetched = match Self::fetch_new_queue_connection(&self.root_connection, shm) {
                Ok(c) => c,
                Err(e) => {
                    return Err(e);
                },
            };
            self.current_connection = fetched;
            let ghost s1 = *shm;
            let popped = shm.pop_at(self.current_connection.handle);
            proof {
                let ch = self.current_handle();
                assert(s1.objects@[ch] == s0.objects@[ch]);
            }
            Ok(popped)
        } else {
            let popped = shm.pop_at(self.current_connection.handle);
            Ok(popped)
        }
    }
}

} // verus!
