//! An explicit model of the shared-memory object namespace: the named,
//! fixed-capacity objects that writers create, readers open, and creators
//! unlink.  A [`SharedMem`] value stands for the namespace one stream's
//! processes share; connections address objects in it by handle (index), as
//! processes address mapped objects by address.
//!
//! Unlinking only detaches an object's name: the object itself — and with it
//! every handle already held on it — stays usable, as a POSIX shared-memory
//! object stays mapped after `shm_unlink`.

use vstd::prelude::*;

use crate::queue::Queue;

verus! {

/// The OS error code for a name that is not present.
pub const ENOENT: i32 = 2;

/// The OS error code for an invalid object name.
pub const EINVAL: i32 = 22;

/// One named shared-memory object and the segment living in it.
#[derive(Debug)]
pub struct ShmObject {
    pub name: Vec<u8>,
    pub queue: Queue,
    pub linked: bool,
}

/// The namespace of shared-memory objects a stream's processes share.
#[derive(Debug)]
pub struct SharedMem {
    pub objects: Vec<ShmObject>,
}

/// The index of the first object at or past `i` that is linked under `name`.
pub open spec fn lookup_from(objs: Seq<ShmObject>, name: Seq<u8>, i: int) -> Option<int>
    decreases objs.len() - i,
{
    if i < 0 || i >= objs.len() {
        None
    } else if objs[i].linked && objs[i].name@ == name {
        Some(i)
    } else {
        lookup_from(objs, name, i + 1)
    }
}

/// A name a shared-memory object may carry: nonempty and starting with the
/// path separator.
pub open spec fn valid_name(name: Seq<u8>) -> bool {
    name.len() >= 1 && name[0] == 47u8
}

pub proof fn lemma_lookup_props(objs: Seq<ShmObject>, name: Seq<u8>, i: int)
    requires
        0 <= i,
    ensures
        match lookup_from(objs, name, i) {
            Some(h) => i <= h < objs.len() && objs[h].linked && objs[h].name@ == name,
            None => forall|k: int|
                i <= k < objs.len() ==> !((#[trigger] objs[k]).linked && objs[k].name@ == name),
        },
    decreases objs.len() - i,
{
    if 0 <= i < objs.len() && !(objs[i].linked && objs[i].name@ == name) {
        lemma_lookup_props(objs, name, i + 1);
    }
}

/// Lookup only reads names and link flags, so it is blind to any change that
/// keeps both — such as segment reads and writes.
pub proof fn lemma_lookup_congruence(
    objs1: Seq<ShmObject>,
    objs2: Seq<ShmObject>,
    name: Seq<u8>,
    i: int,
)
    requires
        objs1.len() == objs2.len(),
        forall|k: int|
            0 <= k < objs1.len() ==> (#[trigger] objs2[k]).name@ == objs1[k].name@ && objs2[k].linked
                == objs1[k].linked,
    ensures
        lookup_from(objs2, name, i) == lookup_from(objs1, name, i),
    decreases objs1.len() - i,
{
    if 0 <= i < objs1.len() {
        lemma_lookup_congruence(objs1, objs2, name, i + 1);
    }
}

/// Appending an object leaves every lookup alone except the one for the new
/// object's own name, which at worst now finds the appended object.
pub proof fn lemma_lookup_push(objs: Seq<ShmObject>, o: ShmObject, name: Seq<u8>, i: int)
    requires
        0 <= i,
    ensures
        lookup_from(objs.push(o), name, i) == (if lookup_from(objs, name, i) is Some {
            lookup_from(objs, name, i)
        } else if o.linked && o.name@ == name && i <= objs.len() {
            Some(objs.len() as int)
        } else {
            None
        }),
    decreases objs.len() + 1 - i,
{
    if i <= objs.len() {
        lemma_lookup_push(objs, o, name, i + 1);
    }
}

impl SharedMem {
    /// Every segment in the namespace is well formed, and no two objects are
    /// linked under one name.
    pub open spec fn wf(self) -> bool {
        &&& forall|i: int|
            0 <= i < self.objects@.len() ==> (#[trigger] self.objects@[i]).queue.wf()
        &&& forall|i: int, j: int|
            0 <= i < j < self.objects@.len() && self.objects@[i].linked
                && self.objects@[j].linked ==> (#[trigger] self.objects@[i]).name@ != (
            #[trigger] self.objects@[j]).name@
    }

    /// The handle of the object linked under `name`, if any.
    pub open spec fn lookup(self, name: Seq<u8>) -> Option<int> {
        lookup_from(self.objects@, name, 0)
    }

    /// An empty namespace, as before any process of a stream has started.
    pub fn new() -> (shm: SharedMem)
        ensures
            shm.wf(),
            shm.objects@.len() == 0,
            forall|name: Seq<u8>| #[trigger] shm.lookup(name) is None,
    {
        SharedMem { objects: Vec::new() }
    }

    /// Looks the name up in the namespace, as `shm_open` without `O_CREAT`
    /// does, and returns a handle on the object linked under it.
    pub fn find(&self, name: &Vec<u8>) -> (r: Option<usize>)
        ensures
            match r {
                Some(h) => self.lookup(name@) == Some(h as int) && h < self.objects@.len(),
                None => self.lookup(name@) is None,
            },
    {
        let mut i: usize = 0;
        while i < self.objects.len()
            invariant
                i <= self.objects@.len(),
                lookup_from(self.objects@, name@, 0) == lookup_from(self.objects@, name@, i as int),
            decreases self.objects@.len() - i,
        {
            let linked = self.objects[i].linked;
            if linked && names_equal(&self.objects[i].name, name) {
                return Some(i);
            }
            i += 1;
        }
        None
    }
}

/// Unlinking detaches exactly one name: lookups of every other name pass the
/// unlinked slot exactly as before, and the detached name — unique among
/// linked objects — is found nowhere any more.
pub proof fn lemma_lookup_unlink(
    objs1: Seq<ShmObject>,
    objs2: Seq<ShmObject>,
    h: int,
    name: Seq<u8>,
    i: int,
)
    requires
        0 <= h < objs1.len(),
        objs2.len() == objs1.len(),
        objs2[h].name@ == objs1[h].name@,
        !objs2[h].linked,
        forall|k: int|
            0 <= k < objs1.len() && k != h ==> (#[trigger] objs2[k]).name@ == objs1[k].name@
                && objs2[k].linked == objs1[k].linked,
        0 <= i,
    ensures
        name != objs1[h].name@ ==> lookup_from(objs2, name, i) == lookup_from(objs1, name, i),
        (name == objs1[h].name@ && forall|k: int|
            0 <= k < objs1.len() && k != h ==> !((#[trigger] objs1[k]).linked && objs1[k].name@
                == name)) ==> lookup_from(objs2, name, i) is None,
    decreases objs1.len() - i,
{
    if i < objs1.len() {
        lemma_lookup_unlink(objs1, objs2, h, name, i + 1);
    }
}

impl SharedMem {
    /// Creates a fresh zero-filled object of `capacity` bytes linked under
    /// `name`, or hands back the object already linked under it, as `shm_open`
    /// with `O_CREAT` followed by `ftruncate` does for a creator.  Fails with
    /// `EINVAL` exactly on an invalid name.
    pub fn open_or_create(&mut self, name: &Vec<u8>, capacity: usize) -> (r: Result<usize, i32>)
        requires
            old(self).wf(),
        ensures
            final(self).wf(),
            match r {
                Ok(h) => {
                    &&& valid_name(name@)
                    &&& h < final(self).objects@.len()
                    &&& final(self).lookup(name@) == Some(h as int)
                    &&& match old(self).lookup(name@) {
                        Some(h0) => h as int == h0 && *final(self) == *old(self),
                        None => {
                            &&& h as int == old(self).objects@.len()
                            &&& final(self).objects@.len() == old(self).objects@.len() + 1
                            &&& forall|k: int|
                                0 <= k < old(self).objects@.len() ==> final(self).objects@[k]
                                    == old(self).objects@[k]
                            &&& final(self).objects@[h as int].name@ == name@
                            &&& final(self).objects@[h as int].linked
                            &&& final(self).objects@[h as int].queue.wf()
                            &&& final(self).objects@[h as int].queue.start == 0
                            &&& final(self).objects@[h as int].queue.end == 0
                            &&& !final(self).objects@[h as int].queue.done_reading
                            &&& !final(self).objects@[h as int].queue.done_writing
                            &&& final(self).objects@[h as int].queue.capacity() == capacity
                            &&& forall|n2: Seq<u8>|
                                n2 != name@ ==> #[trigger] final(self).lookup(n2) == old(
                                    self,
                                ).lookup(n2)
                        },
                    }
                },
                Err(e) => !valid_name(name@) && e == EINVAL && *final(self) == *old(self),
            },
            r is Err <==> !valid_name(name@),
    {
        if name.len() == 0 {
            return Err(EINVAL);
        }
        let head = name[0];
        if head != 47u8 {
            return Err(EINVAL);
        }
        match self.find(name) {
            Some(h) => {
                proof {
                    lemma_lookup_props(self.objects@, name@, 0);
                }
                Ok(h)
            },
            None => {
                let h = self.objects.len();
                let queue = Queue::new(capacity);
                let mut stored: Vec<u8> = Vec::new();
                stored.extend_from_slice(name.as_slice());
                let ghost prev = self.objects@;
                self.objects.push(ShmObject { name: stored, queue, linked: true });
                proof {
                    let now = self.objects@;
                    assert(now[h as int].name@ =~= name@);
                    lemma_lookup_props(prev, name@, 0);
                    lemma_lookup_push(prev, now[h as int], name@, 0);
                    assert forall|n2: Seq<u8>| n2 != name@ implies #[trigger] self.lookup(n2)
                        == old(self).lookup(n2) by {
                        lemma_lookup_push(prev, now[h as int], n2, 0);
                    }
                }
                Ok(h)
            },
        }
    }

    /// Opens the object linked under `name` without creating anything, as
    /// `shm_open` without `O_CREAT` does.  Fails with `EINVAL` exactly on an
    /// invalid name and with `ENOENT` exactly when no object is linked under
    /// a valid one.
    pub fn open_existing(&self, name: &Vec<u8>) -> (r: Result<usize, i32>)
        ensures
            match r {
                Ok(h) => self.lookup(name@) == Some(h as int) && h < self.objects@.len(),
                Err(e) => (!valid_name(name@) && e == EINVAL) || (valid_name(name@) && self.lookup(
                    name@,
                ) is None && e == ENOENT),
            },
            r is Ok <==> (valid_name(name@) && self.lookup(name@) is Some),
    {
        if name.len() == 0 {
            return Err(EINVAL);
        }
        let head = name[0];
        if head != 47u8 {
            return Err(EINVAL);
        }
        match self.find(name) {
            Some(h) => Ok(h),
            None => Err(ENOENT),
        }
    }

    /// Detaches the name of object `h` from the namespace, as `shm_unlink`
    /// does: no open or create finds the name any more, while the object and
    /// every handle already held on it stay usable.
    pub fn unlink_at(&mut self, h: usize)
        requires
            old(self).wf(),
            h < old(self).objects@.len(),
        ensures
            final(self).wf(),
            final(self).objects@.len() == old(self).objects@.len(),
            forall|k: int|
                0 <= k < old(self).objects@.len() && k != h ==> final(self).objects@[k] == old(
                    self,
                ).objects@[k],
            final(self).objects@[h as int].name == old(self).objects@[h as int].name,
            final(self).objects@[h as int].queue == old(self).objects@[h as int].queue,
            !final(self).objects@[h as int].linked,
            forall|n2: Seq<u8>|
                n2 != old(self).objects@[h as int].name@ ==> #[trigger] final(self).lookup(n2)
                    == old(self).lookup(n2),
            old(self).objects@[h as int].linked ==> final(self).lookup(
                old(self).objects@[h as int].name@,
            ) is None,
    {
        let slot = &mut self.objects[h];
        slot.linked = false;
        proof {
            let prev = old(self).objects@;
            let now = self.objects@;
            let hname = prev[h as int].name@;
            assert forall|n2: Seq<u8>| n2 != hname implies #[trigger] self.lookup(n2) == old(
                self,
            ).lookup(n2) by {
                lemma_lookup_unlink(prev, now, h as int, n2, 0);
            }
            if prev[h as int].linked {
                // `h` was the one object linked under its name, so that name
                // is now found nowhere.
                assert(forall|k: int|
                    0 <= k < prev.len() && k != h ==> !((#[trigger] prev[k]).linked
                        && prev[k].name@ == hname));
                lemma_lookup_unlink(prev, now, h as int, hname, 0);
            }
        }
    }
    /// Two namespace states with the same objects under the same names and
    /// link flags — only segment contents may differ.
    pub open spec fn same_namespace(self, other: SharedMem) -> bool {
        &&& other.objects@.len() == self.objects@.len()
        &&& forall|k: int|
            0 <= k < self.objects@.len() ==> (#[trigger] other.objects@[k]).name
                == self.objects@[k].name && other.objects@[k].linked == self.objects@[k].linked
    }

    /// Whether a frame carrying `message` still fits in the segment of
    /// object `h`.
    pub fn can_push_at(&self, h: usize, message: &[u8]) -> (r: bool)
        requires
            self.wf(),
            h < self.objects@.len(),
        ensures
            r == (self.objects@[h as int].queue.capacity() - self.objects@[h as int].queue.end
                >= message@.len() + 1),
    {
        let q = &self.objects[h].queue;
        let left = q.data.len() - q.end;
        left > message.len()
    }

    /// Whether an unread frame is waiting in the segment of object `h`.
    pub fn can_pop_at(&self, h: usize) -> (r: bool)
        requires
            self.wf(),
            h < self.objects@.len(),
        ensures
            r == crate::queue::frame_ok(
                self.objects@[h as int].queue.data@,
                self.objects@[h as int].queue.start as int,
            ),
            r == (self.objects@[h as int].queue.start < self.objects@[h as int].queue.end),
    {
        self.objects[h].queue.can_pop()
    }

    /// The reader-side completion flag of the segment of object `h`.
    pub fn done_reading_at(&self, h: usize) -> (r: bool)
        requires
            h < self.objects@.len(),
        ensures
            r == self.objects@[h as int].queue.done_reading,
    {
        self.objects[h].queue.done_reading
    }

    /// Appends one frame to the segment of object `h`; see [`Queue::push`].
    /// Nothing else in the namespace changes.
    pub fn push_at(&mut self, h: usize, message: &[u8])
        requires
            old(self).wf(),
            h < old(self).objects@.len(),
            1 <= message@.len() <= 255,
            old(self).objects@[h as int].queue.end + message@.len() + 1 <= old(
                self,
            ).objects@[h as int].queue.capacity(),
        ensures
            final(self).wf(),
            old(self).same_namespace(*final(self)),
            forall|k: int|
                0 <= k < old(self).objects@.len() && k != h ==> final(self).objects@[k] == old(
                    self,
                ).objects@[k],
            forall|n2: Seq<u8>| #[trigger] final(self).lookup(n2) == old(self).lookup(n2),
            ({
                let q1 = old(self).objects@[h as int].queue;
                let q2 = final(self).objects@[h as int].queue;
                &&& q2.wf()
                &&& q2.start == q1.start
                &&& q2.end == q1.end + message@.len() + 1
                &&& q2.done_reading == q1.done_reading
                &&& q2.done_writing == q1.done_writing
                &&& q2.capacity() == q1.capacity()
                &&& crate::queue::frames(q2.data@, q1.start as int) == crate::queue::frames(
                    q1.data@,
                    q1.start as int,
                ).push(message@)
                &&& crate::queue::frames(q2.data@, 0) == crate::queue::frames(q1.data@, 0).push(
                    message@,
                )
            }),
    {
        let q = &mut self.objects[h].queue;
        q.push(message);
        proof {
            assert forall|n2: Seq<u8>| #[trigger] self.lookup(n2) == old(self).lookup(n2) by {
                lemma_lookup_congruence(old(self).objects@, self.objects@, n2, 0);
            }
        }
    }

    /// Pops one frame from the segment of object `h`, with the handshake on
    /// an exhausted finished segment; see [`Queue::pop`].  Nothing else in
    /// the namespace changes.
    pub fn pop_at(&mut self, h: usize) -> (r: Option<Vec<u8>>)
        requires
            old(self).wf(),
            h < old(self).objects@.len(),
        ensures
            final(self).wf(),
            old(self).same_namespace(*final(self)),
            forall|k: int|
                0 <= k < old(self).objects@.len() && k != h ==> final(self).objects@[k] == old(
                    self,
                ).objects@[k],
            forall|n2: Seq<u8>| #[trigger] final(self).lookup(n2) == old(self).lookup(n2),
            ({
                let q1 = old(self).objects@[h as int].queue;
                let q2 = final(self).objects@[h as int].queue;
                &&& q2.wf()
                &&& q2.data == q1.data
                &&& q2.end == q1.end
                &&& q2.done_writing == q1.done_writing
                &&& match r {
                    Some(m) => {
                        &&& crate::queue::frame_ok(q1.data@, q1.start as int)
                        &&& m@ == crate::queue::frame_payload(q1.data@, q1.start as int)
                        &&& m@ == crate::queue::frames(q1.data@, q1.start as int)[0]
                        &&& q2.start == crate::queue::next_frame(q1.data@, q1.start as int)
                        &&& crate::queue::frames(q2.data@, q2.start as int) == crate::queue::frames(
                            q1.data@,
                            q1.start as int,
                        ).drop_first()
                        &&& q2.done_reading == q1.done_reading
                    },
                    None => {
                        &&& !crate::queue::frame_ok(q1.data@, q1.start as int)
                        &&& q2.start == q1.start
                        &&& q2.done_reading == (q1.done_reading || q1.done_writing)
                    },
                }
            }),
    {
        let q = &mut self.objects[h].queue;
        let r = q.pop();
        proof {
            assert forall|n2: Seq<u8>| #[trigger] self.lookup(n2) == old(self).lookup(n2) by {
                lemma_lookup_congruence(old(self).objects@, self.objects@, n2, 0);
            }
        }
        r
    }

    /// Raises the writer's completion flag on the segment of object `h`.
    /// Nothing else in the namespace changes.
    pub fn set_done_writing_at(&mut self, h: usize)
        requires
            old(self).wf(),
            h < old(self).objects@.len(),
        ensures
            final(self).wf(),
            old(self).same_namespace(*final(self)),
            forall|k: int|
                0 <= k < old(self).objects@.len() && k != h ==> final(self).objects@[k] == old(
                    self,
                ).objects@[k],
            forall|n2: Seq<u8>| #[trigger] final(self).lookup(n2) == old(self).lookup(n2),
            ({
                let q1 = old(self).objects@[h as int].queue;
                let q2 = final(self).objects@[h as int].queue;
                &&& q2.data == q1.data
                &&& q2.start == q1.start
                &&& q2.end == q1.end
                &&& q2.done_reading == q1.done_reading
                &&& q2.done_writing
            }),
    {
        let q = &mut self.objects[h].queue;
        q.set_done_writing();
        proof {
            assert forall|n2: Seq<u8>| #[trigger] self.lookup(n2) == old(self).lookup(n2) by {
                lemma_lookup_congruence(old(self).objects@, self.objects@, n2, 0);
            }
        }
    }

    /// Raises the reader's completion flag on the segment of object `h`, as
    /// a reader-side process does out-of-band.  Nothing else in the
    /// namespace changes.
    pub fn set_done_reading_at(&mut self, h: usize)
        requires
            old(self).wf(),
            h < old(self).objects@.len(),
        ensures
            final(self).wf(),
            old(self).same_namespace(*final(self)),
            forall|k: int|
                0 <= k < old(self).objects@.len() && k != h ==> final(self).objects@[k] == old(
                    self,
                ).objects@[k],
            forall|n2: Seq<u8>| #[trigger] final(self).lookup(n2) == old(self).lookup(n2),
            ({
                let q1 = old(self).objects@[h as int].queue;
                let q2 = final(self).objects@[h as int].queue;
                &&& q2.data == q1.data
                &&& q2.start == q1.start
                &&& q2.end == q1.end
                &&& q2.done_writing == q1.done_writing
                &&& q2.done_reading
            }),
    {
        let q = &mut self.objects[h].queue;
        q.set_done_reading();
        proof {
            assert forall|n2: Seq<u8>| #[trigger] self.lookup(n2) == old(self).lookup(n2) by {
                lemma_lookup_congruence(old(self).objects@, self.objects@, n2, 0);
            }
        }
    }

    /// Enumerates the frames of the segment of object `h` from offset 0; see
    /// [`Queue::messages`].
    pub fn messages_at(&self, h: usize) -> (r: Vec<Vec<u8>>)
        requires
            h < self.objects@.len(),
        ensures
            r@.len() == crate::queue::frames(self.objects@[h as int].queue.data@, 0).len(),
            forall|k: int|
                0 <= k < r@.len() ==> r@[k]@ == crate::queue::frames(
                    self.objects@[h as int].queue.data@,
                    0,
                )[k],
    {
        self.objects[h].queue.messages()
    }
}

/// Byte-for-byte comparison of two object names.
fn names_equal(a: &Vec<u8>, b: &Vec<u8>) -> (r: bool)
    ensures
        r == (a@ == b@),
{
    if a.len() != b.len() {
        return false;
    }
    let mut i: usize = 0;
    while i < a.len()
        invariant
            i <= a@.len(),
            a@.len() == b@.len(),
            forall|k: int| 0 <= k < i ==> a@[k] == b@[k],
        decreases a@.len() - i,
    {
        if a[i] != b[i] {
            return false;
        }
        i += 1;
    }
    proof {
        assert(a@ =~= b@);
    }
    true
}

} // verus!
