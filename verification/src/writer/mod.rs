//! The writer of one stream: owns the root connection and the ordered worker
//! connections, appends messages to the newest worker segment, rotates to a
//! fresh segment on overflow — publishing its name through the root segment
//! — and reclaims worker segments their reader has drained.

mod connection;
mod error;

pub use connection::WriterConnection;
pub use error::{WriterConnectError, WriterDisconnectError, WriterError};

use vstd::prelude::*;

use crate::connection_type::{
    lemma_name_shapes, lemma_root_name_ne_worker, lemma_worker_name_injective, root_name,
    worker_name, ConnectionType,
};
use crate::queue::{frames, lemma_drained_no_frame, Queue};
use crate::shm::{lemma_lookup_props, SharedMem};

verus! {

use vstd::string::StringSliceAdditionalSpecFns;

/// The fixed capacity of every root segment, in bytes.
pub const ROOT_QUEUE_SIZE: usize = 1000;

/// The longest accepted stream prefix.  Worker names carry 9 bytes of frame
/// (`/`, `-worker-`) and at most 20 index digits around the prefix, and the
/// platform bounds a shared-memory object name at 255 bytes.
pub const MAX_PREFIX_LEN: usize = 226;

/// The writing side of one stream.
#[derive(Debug)]
pub struct Writer {
    pub root_connection: WriterConnection,
    pub connections: Vec<WriterConnection>,
    pub prefix: Vec<u8>,
    pub queue_size: usize,
}

impl Writer {
    pub open spec fn root_handle(self) -> int {
        self.root_connection.handle as int
    }

    /// The newest worker connection: the one taking appends.
    pub open spec fn current(self) -> WriterConnection {
        self.connections@.last()
    }

    pub open spec fn current_handle(self) -> int {
        self.current().handle as int
    }

    pub open spec fn root_queue(self, shm: SharedMem) -> Queue {
        shm.objects@[self.root_handle()].queue
    }

    pub open spec fn current_queue(self, shm: SharedMem) -> Queue {
        shm.objects@[self.current_handle()].queue
    }

    /// `message` still fits in the newest worker segment.
    pub open spec fn can_push_current(self, shm: SharedMem, message: Seq<u8>) -> bool {
        self.current_queue(shm).capacity() - self.current_queue(shm).end >= message.len() + 1
    }

    /// The root segment can still take the name of the next worker segment.
    pub open spec fn root_has_room(self, shm: SharedMem) -> bool {
        self.root_queue(shm).capacity() - self.root_queue(shm).end >= worker_name(
            self.prefix@,
            self.connections@.len() as nat,
        ).len() + 1
    }

    /// Worker connection `i` may be reclaimed: still mapped, and its reader
    /// has finished with it.
    pub open spec fn stale(self, shm: SharedMem, i: int) -> bool {
        self.connections@[i].connected
            && shm.objects@[self.connections@[i].handle as int].queue.done_reading
    }

    /// Well-formedness against the namespace, except for demanding a worker
    /// connection: the root connection is mapped, correctly named, linked
    /// and of the fixed root capacity; every worker connection is named
    /// after its position, addresses a distinct object of the worker
    /// capacity, and is linked exactly while it is mapped; and no name of a
    /// worker yet to come is taken.
    pub open spec fn base_wf(self, shm: SharedMem) -> bool {
        &&& shm.wf()
        &&& self.prefix@.len() <= MAX_PREFIX_LEN
        &&& 2 <= self.queue_size
        &&& self.root_connection.connected
        &&& self.root_connection.handle < shm.objects@.len()
        &&& self.root_connection.name() == root_name(self.prefix@)
        &&& shm.objects@[self.root_handle()].queue.capacity() == ROOT_QUEUE_SIZE
        &&& shm.lookup(root_name(self.prefix@)) == Some(self.root_handle())
        &&& forall|i: int|
            0 <= i < self.connections@.len() ==> {
                let c = (#[trigger] self.connections@[i]);
                &&& c.handle < shm.objects@.len()
                &&& c.handle != self.root_connection.handle
                &&& c.name() == worker_name(self.prefix@, i as nat)
                &&& shm.objects@[c.handle as int].name@ == worker_name(self.prefix@, i as nat)
                &&& shm.objects@[c.handle as int].queue.capacity() == self.queue_size
                &&& (c.connected ==> shm.lookup(worker_name(self.prefix@, i as nat)) == Some(
                    c.handle as int,
                ))
                &&& (!c.connected ==> shm.lookup(worker_name(self.prefix@, i as nat)) is None)
            }
        &&& forall|i: int, j: int|
            0 <= i < j < self.connections@.len() ==> (#[trigger] self.connections@[i]).handle != (
            #[trigger] self.connections@[j]).handle
        &&& forall|j: nat|
            self.connections@.len() <= j ==> (#[trigger] shm.lookup(
                worker_name(self.prefix@, j),
            )) is None
    }

    /// Full well-formedness: a worker connection to append to exists.
    pub open spec fn wf(self, shm: SharedMem) -> bool {
        &&& self.base_wf(shm)
        &&& self.connections@.len() >= 1
    }

    /// Opens the stream for writing: creates the root segment, then
    /// provisions worker segment 0 and publishes its name through the root.
    ///
    /// The stream's prefix must be fresh: no object derived from it may be
    /// linked in the namespace yet.  A leftover root or worker object of an
    /// earlier run would be reopened with its stale contents, which no
    /// contract here could make sense of.
    pub fn new(prefix: &str, queue_size: usize, shm: &mut SharedMem) -> (r: Result<
        Writer,
        WriterError,
    >)
        requires
            old(shm).wf(),
            prefix.spec_bytes().len() <= MAX_PREFIX_LEN,
            2 <= queue_size,
            old(shm).lookup(root_name(prefix.spec_bytes())) is None,
            forall|j: nat|
                (#[trigger] old(shm).lookup(worker_name(prefix.spec_bytes(), j))) is None,
        ensures
            final(shm).wf(),
            r is Ok,
            match r {
                Ok(w) => {
                    &&& w.wf(*final(shm))
                    &&& w.prefix@ == prefix.spec_bytes()
                    &&& w.queue_size == queue_size
                    &&& w.connections@.len() == 1
                    &&& w.current().connected
                    &&& ({
                        let q = w.current_queue(*final(shm));
                        &&& q.start == 0
                        &&& q.end == 0
                        &&& !q.done_reading
                        &&& !q.done_writing
                    })
                    &&& ({
                        let rq = w.root_queue(*final(shm));
                        &&& rq.start == 0
                        &&& !rq.done_reading
                        &&& !rq.done_writing
                        &&& frames(rq.data@, rq.start as int) == seq![
                            worker_name(prefix.spec_bytes(), 0),
                        ]
                    })
                },
                Err(_) => false,
            },
    {
        let root_type = ConnectionType::root(prefix);
        proof {
            lemma_name_shapes(prefix.spec_bytes(), 0);
        }
        let root_connection = match WriterConnection::new(root_type, ROOT_QUEUE_SIZE, shm) {
            Ok(c) => c,
            Err(e) => {
                proof {
                    assert(false);
                }
                return Err(WriterError::ConnectError(e));
            },
        };
        let mut prefix_bytes: Vec<u8> = Vec::new();
        prefix_bytes.extend_from_slice(prefix.as_bytes());
        proof {
            assert(prefix_bytes@ =~= prefix.spec_bytes());
        }
        let mut writer = Writer {
            root_connection,
            connections: Vec::new(),
            prefix: prefix_bytes,
            queue_size,
        };
        proof {
            let p = prefix.spec_bytes();
            assert forall|j: nat| (#[trigger] shm.lookup(worker_name(p, j))) is None by {
                lemma_root_name_ne_worker(p, j);
            }
            assert(writer.base_wf(*shm));
            assert(writer.root_has_room(*shm));
        }
        let ghost pre_provision = *shm;
        writer.provision_new_queue_connection(shm)?;
        proof {
            let p = prefix.spec_bytes();
            let rq = writer.root_queue(*shm);
            let r1 = pre_provision.objects@[writer.root_handle()].queue;
            lemma_drained_no_frame(r1.data@, 0, 0);
            assert(frames(r1.data@, 0) == Seq::<Seq<u8>>::empty());
            assert(frames(rq.data@, rq.start as int) =~= seq![worker_name(p, 0)]);
        }
        Ok(writer)
    }

    /// Reclaims every worker segment whose reader has finished with it:
    /// unmaps it and unlinks its name.  Segments already reclaimed are
    /// skipped, so calling this again is harmless.
    pub fn cleanup(&mut self, shm: &mut SharedMem) -> (r: Result<(), WriterError>)
        requires
            old(self).base_wf(*old(shm)),
        ensures
            r is Ok,
            final(self).base_wf(*final(shm)),
            final(self).root_connection == old(self).root_connection,
            final(self).prefix == old(self).prefix,
            final(self).queue_size == old(self).queue_size,
            final(self).connections@.len() == old(self).connections@.len(),
            forall|k: int|
                0 <= k < old(self).connections@.len() ==> {
                    let c1 = (#[trigger] old(self).connections@[k]);
                    let c2 = final(self).connections@[k];
                    &&& c2.connection_type == c1.connection_type
                    &&& c2.handle == c1.handle
                    &&& c2.connected == (c1.connected && !old(self).stale(*old(shm), k))
                },
            final(shm).objects@.len() == old(shm).objects@.len(),
            final(shm).objects@[old(self).root_handle()] == old(shm).objects@[old(
                self,
            ).root_handle()],
            forall|k: int|
                0 <= k < old(self).connections@.len() ==> {
                    let h = (#[trigger] old(self).connections@[k]).handle as int;
                    &&& final(shm).objects@[h].queue == old(shm).objects@[h].queue
                    &&& final(shm).objects@[h].name == old(shm).objects@[h].name
                },
    {
        let ghost w0 = *old(self);
        let ghost s0 = *old(shm);
        let n = self.connections.len();
        let mut i: usize = 0;
        while i < n
            invariant
                i <= n,
                n == w0.connections@.len(),
                self.base_wf(*shm),
                self.root_connection == w0.root_connection,
                self.prefix == w0.prefix,
                self.queue_size == w0.queue_size,
                self.connections@.len() == n,
                forall|k: int|
                    0 <= k < n ==> {
                        let c1 = (#[trigger] w0.connections@[k]);
                        let c2 = self.connections@[k];
                        &&& c2.connection_type == c1.connection_type
                        &&& c2.handle == c1.handle
                    },
                forall|k: int|
                    i <= k < n ==> (#[trigger] self.connections@[k]).connected
                        == w0.connections@[k].connected,
                forall|k: int|
                    0 <= k < i ==> (#[trigger] self.connections@[k]).connected == (
                    w0.connections@[k].connected && !w0.stale(s0, k)),
                shm.objects@.len() == s0.objects@.len(),
                shm.objects@[w0.root_handle()] == s0.objects@[w0.root_handle()],
                forall|k: int|
                    0 <= k < n ==> {
                        let h = (#[trigger] w0.connections@[k]).handle as int;
                        &&& shm.objects@[h].queue == s0.objects@[h].queue
                        &&& shm.objects@[h].name == s0.objects@[h].name
                    },
            decreases n - i,
        {
            let is_stale = self.connections[i].is_stale(shm);
            if is_stale {
                let ghost s_pre = *shm;
                match self.connections[i].disconnect(shm) {
                    Ok(()) => {},
                    Err(e) => {
                        proof {
                            assert(false);
                        }
                        return Err(WriterError::DisconnectError(e));
                    },
                }
                proof {
                    let p = self.prefix@;
                    let h = self.connections@[i as int].handle as int;
                    assert(s_pre.lookup(worker_name(p, i as nat)) == Some(h));
                    lemma_lookup_props(s_pre.objects@, worker_name(p, i as nat), 0);
                    assert(s_pre.objects@[h].name@ == worker_name(p, i as nat));
                    lemma_root_name_ne_worker(p, i as nat);
                    assert forall|j: nat| n <= j implies (#[trigger] shm.lookup(
                        worker_name(p, j),
                    )) is None by {
                        if worker_name(p, j) == worker_name(p, i as nat) {
                            lemma_worker_name_injective(p, j, i as nat);
                        }
                    }
                    assert forall|k: int| 0 <= k < n && k != i implies #[trigger] shm.lookup(
                        worker_name(p, k as nat),
                    ) == s_pre.lookup(worker_name(p, k as nat)) by {
                        if worker_name(p, k as nat) == worker_name(p, i as nat) {
                            lemma_worker_name_injective(p, k as nat, i as nat);
                        }
                    }
                    assert(self.base_wf(*shm));
                }
            }
            i += 1;
        }
        Ok(())
    }

    /// Reclaims drained segments, creates the next worker segment, and
    /// publishes its name through the root segment.
    pub(crate) fn provision_new_queue_connection(&mut self, shm: &mut SharedMem) -> (r: Result<
        (),
        WriterError,
    >)
        requires
            old(self).base_wf(*old(shm)),
            old(self).root_has_room(*old(shm)),
        ensures
            r is Ok,
            final(self).wf(*final(shm)),
            final(self).root_connection == old(self).root_connection,
            final(self).prefix == old(self).prefix,
            final(self).queue_size == old(self).queue_size,
            final(self).connections@.len() == old(self).connections@.len() + 1,
            forall|k: int|
                0 <= k < old(self).connections@.len() ==> {
                    let c1 = (#[trigger] old(self).connections@[k]);
                    let c2 = final(self).connections@[k];
                    &&& c2.connection_type == c1.connection_type
                    &&& c2.handle == c1.handle
                    &&& c2.connected == (c1.connected && !old(self).stale(*old(shm), k))
                },
            final(self).current() == final(self).connections@[old(self).connections@.len() as int],
            final(self).current().name() == worker_name(
                old(self).prefix@,
                old(self).connections@.len() as nat,
            ),
            final(self).current().connected,
            final(self).current_handle() == old(shm).objects@.len(),
            final(shm).objects@.len() == old(shm).objects@.len() + 1,
            ({
                let q = final(self).current_queue(*final(shm));
                &&& q.start == 0
                &&& q.end == 0
                &&& !q.done_reading
                &&& !q.done_writing
                &&& q.capacity() == old(self).queue_size
                &&& frames(q.data@, 0) == Seq::<Seq<u8>>::empty()
            }),
            ({
                let r1 = old(self).root_queue(*old(shm));
                let r2 = final(self).root_queue(*final(shm));
                &&& r2.start == r1.start
                &&& r2.done_reading == r1.done_reading
                &&& r2.done_writing == r1.done_writing
                &&& r2.capacity() == r1.capacity()
                &&& r2.end == r1.end + worker_name(
                    old(self).prefix@,
                    old(self).connections@.len() as nat,
                ).len() + 1
                &&& frames(r2.data@, r2.start as int) == frames(r1.data@, r1.start as int).push(
                    worker_name(old(self).prefix@, old(self).connections@.len() as nat),
                )
            }),
            forall|k: int|
                0 <= k < old(self).connections@.len() ==> {
                    let h = (#[trigger] old(self).connections@[k]).handle as int;
                    &&& final(shm).objects@[h].queue == old(shm).objects@[h].queue
                    &&& final(shm).objects@[h].name == old(shm).objects@[h].name
                },
    {
        match self.cleanup(shm) {
            Ok(()) => {},
            Err(e) => {
                proof {
                    assert(false);
                }
                return Err(e);
            },
        }
        let index = self.connections.len();
        let connection_type = ConnectionType::worker_bytes(index, self.prefix.as_slice());
        proof {
            lemma_name_shapes(self.prefix@, index as nat);
        }
        let ghost s1 = *shm;
        let connection = match WriterConnection::new(connection_type, self.queue_size, shm) {
            Ok(c) => c,
            Err(e) => {
                proof {
                    assert(false);
                }
                return Err(WriterError::ConnectError(e));
            },
        };
        proof {
            let p = self.prefix@;
            // The name was free, so a fresh object was appended.
            assert(s1.lookup(worker_name(p, index as nat)) is None);
            assert(connection.handle as int == s1.objects@.len());
            let q = shm.objects@[connection.handle as int].queue;
            lemma_drained_no_frame(q.data@, 0, 0);
        }
        self.connections.push(connection);
        proof {
            let p = self.prefix@;
            lemma_root_name_ne_worker(p, index as nat);
            assert forall|j: nat| self.connections@.len() <= j implies (#[trigger] shm.lookup(
                worker_name(p, j),
            )) is None by {
                if worker_name(p, j) == worker_name(p, index as nat) {
                    lemma_worker_name_injective(p, j, index as nat);
                }
            }
            assert forall|k: int| 0 <= k < index implies #[trigger] shm.lookup(
                worker_name(p, k as nat),
            ) == s1.lookup(worker_name(p, k as nat)) by {
                if worker_name(p, k as nat) == worker_name(p, index as nat) {
                    lemma_worker_name_injective(p, k as nat, index as nat);
                }
            }
            assert(self.wf(*shm));
        }
        // Publish the new segment's name into the root segment, so a reader
        // can discover where the stream continues.
        let last = self.connections.len() - 1;
        let name_len = self.connections[last].connection_type.id.len();
        proof {
            lemma_name_shapes(self.prefix@, index as nat);
            assert(1 <= name_len <= 255);
        }
        shm.push_at(self.root_connection.handle, self.connections[last].connection_type.id.as_slice());
        proof {
            assert(self.wf(*shm));
        }
        Ok(())
    }

    /// Appends `message` to the stream: into the newest worker segment, or —
    /// when it no longer fits there — into a freshly provisioned segment,
    /// after marking the full segment finished and publishing the new
    /// segment's name through the root segment.
    ///
    /// As with [`Queue::push`], the capacity arithmetic is the caller's
    /// gate: a payload must be `1..=255` bytes and fit a fresh segment, and
    /// when this push is about to rotate, the root segment must still have
    /// room for one published name.
    pub fn ipc_push(&mut self, shm: &mut SharedMem, message: &[u8]) -> (r: Result<
        (),
        WriterError,
    >)
        requires
            old(self).wf(*old(shm)),
            old(self).current().connected,
            1 <= message@.len() <= 255,
            message@.len() + 1 <= old(self).queue_size,
            !old(self).can_push_current(*old(shm), message@) ==> old(self).root_has_room(
                *old(shm),
            ),
        ensures
            r is Ok,
            final(self).wf(*final(shm)),
            final(self).current().connected,
            final(self).root_connection == old(self).root_connection,
            final(self).prefix == old(self).prefix,
            final(self).queue_size == old(self).queue_size,
            old(self).can_push_current(*old(shm), message@) ==> {
                &&& final(self).connections == old(self).connections
                &&& final(shm).objects@.len() == old(shm).objects@.len()
                &&& forall|m: int|
                    0 <= m < old(shm).objects@.len() && m != old(self).current_handle()
                        ==> final(shm).objects@[m] == old(shm).objects@[m]
                &&& ({
                    let q1 = old(self).current_queue(*old(shm));
                    let q2 = final(self).current_queue(*final(shm));
                    &&& q2.start == q1.start
                    &&& q2.end == q1.end + message@.len() + 1
                    &&& q2.done_reading == q1.done_reading
                    &&& q2.done_writing == q1.done_writing
                    &&& frames(q2.data@, q1.start as int) == frames(
                        q1.data@,
                        q1.start as int,
                    ).push(message@)
                    &&& frames(q2.data@, 0) == frames(q1.data@, 0).push(message@)
                })
            },
            !old(self).can_push_current(*old(shm), message@) ==> {
                &&& final(self).connections@.len() == old(self).connections@.len() + 1
                &&& final(self).current().name() == worker_name(
                    old(self).prefix@,
                    old(self).connections@.len() as nat,
                )
                &&& final(shm).objects@.len() == old(shm).objects@.len() + 1
                &&& ({
                    let q = final(self).current_queue(*final(shm));
                    &&& q.start == 0
                    &&& q.end == message@.len() + 1
                    &&& !q.done_reading
                    &&& !q.done_writing
                    &&& frames(q.data@, 0) == seq![message@]
                })
                &&& ({
                    let q1 = old(self).current_queue(*old(shm));
                    let q2 = final(shm).objects@[old(self).current_handle()].queue;
                    &&& q2.data == q1.data
                    &&& q2.start == q1.start
                    &&& q2.end == q1.end
                    &&& q2.done_writing
                })
                &&& ({
                    let r1 = old(self).root_queue(*old(shm));
                    let r2 = final(self).root_queue(*final(shm));
                    &&& r2.start == r1.start
                    &&& frames(r2.data@, r2.start as int) == frames(r1.data@, r1.start as int).push(
                        worker_name(old(self).prefix@, old(self).connections@.len() as nat),
                    )
                })
            },
    {
        let last = self.connections.len() - 1;
        let current_handle = self.connections[last].handle;
        let fits = shm.can_push_at(current_handle, message);
        if !fits {
            match self.provision_new_queue_connection(shm) {
                Ok(()) => {},
                Err(e) => {
                    proof {
                        assert(false);
                    }
                    return Err(e);
                },
            }
            // The full segment takes no more appends: mark it finished so
            // the reader can complete the handshake once it has drained it.
            shm.set_done_writing_at(current_handle);
            proof {
                assert(self.wf(*shm));
            }
            let new_last = self.connections.len() - 1;
            let new_handle = self.connections[new_last].handle;
            shm.push_at(new_handle, message);
            proof {
                assert(self.wf(*shm));
                assert(frames(
                    final(self).current_queue(*shm).data@,
                    0,
                ) =~= seq![message@]);
            }
        } else {
            shm.push_at(current_handle, message);
            proof {
                assert(self.wf(*shm));
            }
        }
        Ok(())
    }

    /// Tears the whole stream down, as on the owner's release: disconnects
    /// the root connection and every worker connection unconditionally,
    /// whether or not the reader has finished draining.
    pub fn teardown(self, shm: &mut SharedMem) -> (r: Result<(), WriterError>)
        requires
            self.base_wf(*old(shm)),
        ensures
            r is Ok,
            final(shm).wf(),
            final(shm).lookup(root_name(self.prefix@)) is None,
            forall|j: nat|
                (#[trigger] final(shm).lookup(worker_name(self.prefix@, j))) is None,
    {
        let ghost p = self.prefix@;
        let Writer { mut root_connection, mut connections, .. } = self;
        let ghost w0_connections = connections@;
        let ghost s0 = *old(shm);
        proof {
            lemma_lookup_props(shm.objects@, root_name(p), 0);
        }
        match root_connection.disconnect(shm) {
            Ok(()) => {},
            Err(e) => {
                proof {
                    assert(false);
                }
                return Err(WriterError::DisconnectError(e));
            },
        }
        proof {
            assert forall|j: nat| #[trigger] shm.lookup(worker_name(p, j)) == s0.lookup(
                worker_name(p, j),
            ) by {
                lemma_root_name_ne_worker(p, j);
            }
        }
        let n = connections.len();
        let mut i: usize = 0;
        while i < n
            invariant
                i <= n,
                n == w0_connections.len(),
                connections@.len() == n,
                shm.wf(),
                shm.lookup(root_name(p)) is None,
                forall|k: int|
                    0 <= k < n ==> (#[trigger] connections@[k]).handle < shm.objects@.len(),
                forall|k: int|
                    0 <= k < n ==> (#[trigger] connections@[k]).connection_type
                        == w0_connections[k].connection_type,
                forall|k: int|
                    0 <= k < n ==> (#[trigger] connections@[k]).name() == worker_name(p, k as nat),
                forall|k: int|
                    0 <= k < n ==> ((#[trigger] connections@[k]).connected ==> shm.lookup(
                        worker_name(p, k as nat),
                    ) == Some(connections@[k].handle as int)),
                forall|k: int|
                    0 <= k < n ==> (!(#[trigger] connections@[k]).connected ==> shm.lookup(
                        worker_name(p, k as nat),
                    ) is None),
                forall|k: int| 0 <= k < i ==> !(#[trigger] connections@[k]).connected,
                forall|j: nat|
                    n <= j ==> (#[trigger] shm.lookup(worker_name(p, j))) is None,
                forall|k: int|
                    0 <= k < n ==> shm.objects@[(#[trigger] connections@[k]).handle as int].name@
                        == worker_name(p, k as nat),
            decreases n - i,
        {
            let ghost s_pre = *shm;
            let ghost c_pre = connections@[i as int];
            match connections[i].disconnect(shm) {
                Ok(()) => {},
                Err(e) => {
                    proof {
                        assert(false);
                    }
                    return Err(WriterError::DisconnectError(e));
                },
            }
            proof {
                let hi = c_pre.handle as int;
                if c_pre.connected {
                    lemma_lookup_props(s_pre.objects@, worker_name(p, i as nat), 0);
                }
                assert(shm.lookup(worker_name(p, i as nat)) is None);
                assert forall|k: int| 0 <= k < n && k != i implies #[trigger] shm.lookup(
                    worker_name(p, k as nat),
                ) == s_pre.lookup(worker_name(p, k as nat)) by {
                    if worker_name(p, k as nat) == worker_name(p, i as nat) {
                        lemma_worker_name_injective(p, k as nat, i as nat);
                    }
                }
                assert forall|j: nat| n <= j implies (#[trigger] shm.lookup(
                    worker_name(p, j),
                )) is None by {
                    if worker_name(p, j) == worker_name(p, i as nat) {
                        lemma_worker_name_injective(p, j, i as nat);
                    }
                }
                assert(shm.lookup(root_name(p)) is None) by {
                    lemma_root_name_ne_worker(p, i as nat);
                }
            }
            i += 1;
        }
        proof {
            assert forall|j: nat| (#[trigger] shm.lookup(worker_name(p, j))) is None by {
                if j < n {
                    assert(!connections@[j as int].connected);
                }
            }
        }
        Ok(())
    }
}

} // verus!
