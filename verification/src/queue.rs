//! The framed segment log: a fixed-capacity byte region holding back-to-back
//! length-prefixed messages, a read cursor, a write cursor, and the two
//! handshake flags that coordinate the writer and the reader of one segment.

use vstd::prelude::*;

verus! {

/// True iff a complete frame starts at offset `at` of `data`: the length byte
/// is present and nonzero, and the payload it announces fits in the region.
pub open spec fn frame_ok(data: Seq<u8>, at: int) -> bool {
    &&& 0 <= at < data.len()
    &&& data[at] != 0
    &&& at + 1 + data[at] <= data.len()
}

/// The payload of the frame starting at `at`.
pub open spec fn frame_payload(data: Seq<u8>, at: int) -> Seq<u8> {
    data.subrange(at + 1, at + 1 + data[at])
}

/// The offset just past the frame starting at `at`.
pub open spec fn next_frame(data: Seq<u8>, at: int) -> int {
    at + 1 + data[at]
}

/// The payloads of the frames laid out back-to-back from `at`, up to the
/// first offset where no complete frame starts.
pub open spec fn frames(data: Seq<u8>, at: int) -> Seq<Seq<u8>>
    decreases data.len() - at,
{
    if !frame_ok(data, at) {
        Seq::empty()
    } else {
        seq![frame_payload(data, at)] + frames(data, next_frame(data, at))
    }
}

/// The offset at which the chain of frames starting at `at` stops.
pub open spec fn frames_end(data: Seq<u8>, at: int) -> int
    decreases data.len() - at,
{
    if !frame_ok(data, at) {
        at
    } else {
        frames_end(data, next_frame(data, at))
    }
}

/// True iff offset `to` can be reached from offset `from` by stepping over
/// whole frames, i.e. `to` is a boundary of the chain starting at `from`.
pub open spec fn is_boundary(data: Seq<u8>, from: int, to: int) -> bool
    decreases to - from,
{
    if from == to {
        true
    } else if !frame_ok(data, from) {
        false
    } else if next_frame(data, from) > to {
        false
    } else {
        is_boundary(data, next_frame(data, from), to)
    }
}

/// `data` after a frame carrying `message` has been written at offset `end`.
pub open spec fn pushed_data(data: Seq<u8>, end: int, message: Seq<u8>) -> Seq<u8> {
    data.subrange(0, end) + seq![message.len() as u8] + message + data.subrange(
        end + 1 + message.len(),
        data.len() as int,
    )
}

/// Well-formedness of a raw segment image with cursors `start` and `end`:
/// the cursors are ordered and in bounds, everything at or past the write
/// cursor is still zero, the chain of frames readable from `start` stops
/// exactly at `end`, and `start` itself is a frame boundary of the chain laid
/// out from offset 0.
pub open spec fn seg_wf(data: Seq<u8>, start: int, end: int) -> bool {
    &&& 0 <= start <= end <= data.len()
    &&& forall|i: int| end <= i < data.len() ==> data[i] == 0
    &&& frames_end(data, start) == end
    &&& is_boundary(data, 0, start)
}

pub proof fn lemma_frames_end_ge(data: Seq<u8>, at: int)
    ensures
        frames_end(data, at) >= at,
    decreases data.len() - at,
{
    if frame_ok(data, at) {
        lemma_frames_end_ge(data, next_frame(data, at));
    }
}

pub proof fn lemma_boundary_le(data: Seq<u8>, from: int, to: int)
    requires
        is_boundary(data, from, to),
    ensures
        from <= to,
    decreases to - from,
{
    if from != to {
        lemma_boundary_le(data, next_frame(data, from), to);
    }
}

pub proof fn lemma_boundary_frames_end(data: Seq<u8>, from: int, to: int)
    requires
        is_boundary(data, from, to),
    ensures
        frames_end(data, from) == frames_end(data, to),
    decreases to - from,
{
    if from != to {
        lemma_boundary_frames_end(data, next_frame(data, from), to);
    }
}

pub proof fn lemma_boundary_trans(data: Seq<u8>, a: int, b: int, c: int)
    requires
        is_boundary(data, a, b),
        is_boundary(data, b, c),
    ensures
        is_boundary(data, a, c),
    decreases b - a,
{
    if a != b {
        lemma_boundary_le(data, b, c);
        lemma_boundary_trans(data, next_frame(data, a), b, c);
    }
}

/// If `d2` agrees with `d1` on every byte below `stop`, the stopping offset of
/// the chain of `d1` from `at`, then the chain of `d2` from `at` is the chain
/// of `d1` followed by whatever chain `d2` carries from `stop` on.
pub proof fn lemma_frames_extend(d1: Seq<u8>, d2: Seq<u8>, at: int, stop: int)
    requires
        d1.len() == d2.len(),
        0 <= at,
        frames_end(d1, at) == stop,
        forall|i: int| 0 <= i < stop ==> d1[i] == d2[i],
    ensures
        frames(d2, at) == frames(d1, at) + frames(d2, stop),
        frames_end(d2, at) == frames_end(d2, stop),
        is_boundary(d2, at, stop),
    decreases d1.len() - at,
{
    lemma_frames_end_ge(d1, at);
    if !frame_ok(d1, at) {
        assert(stop == at);
        assert(frames(d1, at) =~= Seq::<Seq<u8>>::empty());
        assert(frames(d2, at) =~= frames(d1, at) + frames(d2, stop));
    } else {
        let nf = next_frame(d1, at);
        lemma_frames_end_ge(d1, nf);
        assert(frames_end(d1, nf) == stop);
        assert(at < nf <= stop);
        assert(d2[at] == d1[at]);
        assert(frame_ok(d2, at));
        assert(next_frame(d2, at) == nf);
        assert(frame_payload(d2, at) =~= frame_payload(d1, at)) by {
            assert forall|k: int| 0 <= k < d1[at] implies frame_payload(d1, at)[k] == frame_payload(
                d2,
                at,
            )[k] by {
                assert(frame_payload(d1, at)[k] == d1[at + 1 + k]);
                assert(frame_payload(d2, at)[k] == d2[at + 1 + k]);
            }
        }
        lemma_frames_extend(d1, d2, nf, stop);
        assert(frames(d2, at) =~= frames(d1, at) + frames(d2, stop));
    }
}

/// Stepping over whole frames reads only length bytes below `to`, so a byte
/// region that agrees below `to` has the same frame boundaries up to `to`.
pub proof fn lemma_boundary_agree(d1: Seq<u8>, d2: Seq<u8>, from: int, to: int)
    requires
        d1.len() == d2.len(),
        0 <= from,
        is_boundary(d1, from, to),
        forall|i: int| 0 <= i < to ==> d1[i] == d2[i],
    ensures
        is_boundary(d2, from, to),
    decreases to - from,
{
    if from != to {
        assert(d2[from] == d1[from]);
        lemma_boundary_agree(d1, d2, next_frame(d1, from), to);
    }
}

/// Writing one frame at the write cursor of a well-formed segment image keeps
/// it well formed, advances the write cursor past the frame, and appends
/// exactly the written payload to the frame chain, both as read from the read
/// cursor and as enumerated from offset 0.
pub proof fn lemma_push_data(d: Seq<u8>, start: int, end: int, m: Seq<u8>)
    requires
        seg_wf(d, start, end),
        1 <= m.len() <= 255,
        end + m.len() + 1 <= d.len(),
    ensures
        pushed_data(d, end, m).len() == d.len(),
        seg_wf(pushed_data(d, end, m), start, end + 1 + m.len()),
        frames(pushed_data(d, end, m), start) == frames(d, start).push(m),
        frames(pushed_data(d, end, m), 0) == frames(d, 0).push(m),
{
    let d2 = pushed_data(d, end, m);
    let ne = end + 1 + m.len();
    assert(d2.len() == d.len());
    assert forall|i: int| 0 <= i < end implies d2[i] == d[i] by {
        assert(d2[i] == d.subrange(0, end)[i]);
    }
    assert(d2[end] == m.len() as u8);
    assert forall|k: int| 0 <= k < m.len() implies d2[end + 1 + k] == m[k] by {
        assert(d2[end + 1 + k] == m[k - 0]);
    }
    assert forall|i: int| ne <= i < d.len() implies d2[i] == d[i] by {
        assert(d2[i] == d.subrange(ne, d.len() as int)[i - ne]);
    }
    assert(frame_ok(d2, end));
    assert(next_frame(d2, end) == ne);
    assert(frame_payload(d2, end) =~= m);
    assert(!frame_ok(d2, ne));
    assert(frames(d2, end) == seq![frame_payload(d2, end)] + frames(d2, ne));
    assert(frames(d2, end) =~= seq![m]);
    assert(frames_end(d2, end) == frames_end(d2, ne));
    assert(frames_end(d2, ne) == ne);
    lemma_frames_extend(d, d2, start, end);
    assert(frames(d2, start) == frames(d, start) + seq![m]);
    assert(frames(d2, start) =~= frames(d, start).push(m));
    lemma_boundary_frames_end(d, 0, start);
    lemma_frames_extend(d, d2, 0, end);
    assert(frames(d2, 0) == frames(d, 0) + seq![m]);
    assert(frames(d2, 0) =~= frames(d, 0).push(m));
    lemma_boundary_agree(d, d2, 0, start);
}

/// One fixed-capacity append-only framed message buffer.
///
/// `start` is the read cursor (owned by the reader side), `end` the write
/// cursor (owned by the writer side); both only move forward.  A zero length
/// byte marks unwritten space, so the region at and past the write cursor is
/// all zero and a payload's encoded length must lie in `1..=255`.
#[derive(Debug)]
pub struct Queue {
    pub data: Vec<u8>,
    pub start: usize,
    pub end: usize,
    pub done_reading: bool,
    pub done_writing: bool,
}

impl Queue {
    /// Well-formedness of the segment: see [`seg_wf`].
    pub open spec fn wf(self) -> bool {
        seg_wf(self.data@, self.start as int, self.end as int)
    }

    /// The fixed byte capacity of the segment.
    pub open spec fn capacity(self) -> int {
        self.data@.len() as int
    }

    /// A fresh zero-filled segment, as the OS hands one out after sizing a
    /// newly created shared-memory object.
    pub fn new(capacity: usize) -> (q: Queue)
        ensures
            q.wf(),
            q.capacity() == capacity,
            q.start == 0,
            q.end == 0,
            !q.done_reading,
            !q.done_writing,
            frames(q.data@, 0) == Seq::<Seq<u8>>::empty(),
    {
        let mut data: Vec<u8> = Vec::new();
        let mut i: usize = 0;
        while i < capacity
            invariant
                i <= capacity,
                data@.len() == i,
                forall|j: int| 0 <= j < i ==> data@[j] == 0,
            decreases capacity - i,
        {
            data.push(0);
            i += 1;
        }
        Queue { data, start: 0, end: 0, done_reading: false, done_writing: false }
    }

    /// Whether a frame carrying `message` still fits: true iff the free space
    /// past the write cursor holds the payload plus its one-byte length
    /// prefix.
    pub fn can_push(&mut self, message: &[u8]) -> (r: bool)
        requires
            old(self).wf(),
        ensures
            *final(self) == *old(self),
            r == (old(self).capacity() - old(self).end >= message@.len() + 1),
    {
        let left = self.data.len() - self.end;
        left > message.len()
    }

    /// Appends one frame at the write cursor: the payload length as a single
    /// byte, then the payload, and advances the cursor past it.  The caller
    /// must have checked `can_push`; the frame becomes the new last element of
    /// the segment's frame chain.
    pub fn push(&mut self, message: &[u8])
        requires
            old(self).wf(),
            1 <= message@.len() <= 255,
            old(self).end + message@.len() + 1 <= old(self).capacity(),
        ensures
            final(self).wf(),
            final(self).start == old(self).start,
            final(self).end == old(self).end + message@.len() + 1,
            final(self).done_reading == old(self).done_reading,
            final(self).done_writing == old(self).done_writing,
            final(self).capacity() == old(self).capacity(),
            final(self).data@ == pushed_data(old(self).data@, old(self).end as int, message@),
            frames(final(self).data@, old(self).start as int) == frames(
                old(self).data@,
                old(self).start as int,
            ).push(message@),
            frames(final(self).data@, 0) == frames(old(self).data@, 0).push(message@),
    {
        let len: usize = message.len();
        proof {
            assert(self.data@.len() == self.data.len());
        }
        self.data.set(self.end, len as u8);
        let base = self.end + 1;
        let mut j: usize = 0;
        while j < len
            invariant
                len == message@.len(),
                base == old(self).end + 1,
                j <= len,
                base + len <= self.data@.len(),
                self.data@.len() <= usize::MAX,
                self.data@.len() == old(self).data@.len(),
                self.start == old(self).start,
                self.end == old(self).end,
                self.done_reading == old(self).done_reading,
                self.done_writing == old(self).done_writing,
                forall|i: int| 0 <= i < old(self).end ==> self.data@[i] == old(self).data@[i],
                self.data@[old(self).end as int] == len as u8,
                forall|k: int| 0 <= k < j ==> self.data@[base + k] == message@[k],
                forall|i: int|
                    base + j <= i < self.data@.len() ==> self.data@[i] == old(self).data@[i],
            decreases len - j,
        {
            self.data.set(base + j, message[j]);
            j += 1;
        }
        self.end = self.end + len + 1;
        proof {
            let d1 = old(self).data@;
            let e = old(self).end as int;
            assert(self.data@ =~= pushed_data(d1, e, message@));
            lemma_push_data(d1, old(self).start as int, e, message@);
        }
    }

    /// Whether an unread frame is waiting at the read cursor.  Under the
    /// segment invariant this is exactly "the read cursor is behind the write
    /// cursor".
    pub fn can_pop(&self) -> (r: bool)
        requires
            self.wf(),
        ensures
            r == frame_ok(self.data@, self.start as int),
            r == (self.start < self.end),
    {
        proof {
            if frame_ok(self.data@, self.start as int) {
                lemma_frames_end_ge(self.data@, next_frame(self.data@, self.start as int));
            }
        }
        if self.start >= self.data.len() {
            false
        } else {
            self.data[self.start] != 0
        }
    }

    /// Decodes the frame starting at offset `at`, if a complete one is there:
    /// a nonzero length byte whose announced payload fits in the region.
    pub fn message_at(&self, at: usize) -> (r: Option<Vec<u8>>)
        ensures
            match r {
                Some(m) => frame_ok(self.data@, at as int) && m@ == frame_payload(
                    self.data@,
                    at as int,
                ),
                None => !frame_ok(self.data@, at as int),
            },
    {
        if at >= self.data.len() {
            return None;
        }
        let length = self.data[at];
        if length == 0 {
            return None;
        }
        if (length as usize) > self.data.len() - 1 - at {
            return None;
        }
        let mut out: Vec<u8> = Vec::new();
        let mut j: usize = 0;
        proof {
            assert(self.data@.len() == self.data.len());
        }
        while j < length as usize
            invariant
                out@.len() == j,
                j <= length,
                at + 1 + length <= self.data@.len(),
                self.data@.len() <= usize::MAX,
                self.data@[at as int] == length,
                length > 0,
                forall|k: int| 0 <= k < j ==> out@[k] == self.data@[at + 1 + k],
            decreases length - j,
        {
            out.push(self.data[at + 1 + j]);
            j += 1;
        }
        proof {
            assert(out@ =~= frame_payload(self.data@, at as int));
        }
        Some(out)
    }

    /// Decodes every frame laid out from offset 0, in order, until the first
    /// offset where no complete frame starts.  Diagnostic enumeration; the
    /// read cursor is not consulted and not moved.
    pub fn messages(&self) -> (r: Vec<Vec<u8>>)
        ensures
            r@.len() == frames(self.data@, 0).len(),
            forall|k: int| 0 <= k < r@.len() ==> r@[k]@ == frames(self.data@, 0)[k],
    {
        let mut out: Vec<Vec<u8>> = Vec::new();
        let mut i: usize = 0;
        let mut going: bool = true;
        proof {
            assert(self.data@.len() == self.data.len());
        }
        while going
            invariant
                i <= self.data@.len(),
                self.data@.len() <= usize::MAX,
                going ==> out@.len() + frames(self.data@, i as int).len() == frames(
                    self.data@,
                    0,
                ).len(),
                going ==> forall|k: int|
                    0 <= k < frames(self.data@, i as int).len() ==> frames(self.data@, i as int)[k]
                        == frames(self.data@, 0)[out@.len() + k],
                !going ==> out@.len() == frames(self.data@, 0).len(),
                forall|k: int| 0 <= k < out@.len() ==> out@[k]@ == frames(self.data@, 0)[k],
            decreases self.data@.len() - i + (if going {
                1int
            } else {
                0int
            }),
        {
            match self.message_at(i) {
                Some(message) => {
                    let l = message.len();
                    let ghost d = self.data@;
                    let ghost at = i as int;
                    let ghost nf = next_frame(d, at);
                    let ghost prev_len = out@.len() as int;
                    proof {
                        assert(frames(d, at) == seq![frame_payload(d, at)] + frames(d, nf));
                        assert(frames(d, at)[0] == frame_payload(d, at));
                        assert forall|k: int| 0 <= k < frames(d, nf).len() implies frames(d, nf)[k]
                            == frames(d, 0)[prev_len + 1 + k] by {
                            assert(frames(d, at)[k + 1] == frames(d, nf)[k]);
                        }
                    }
                    out.push(message);
                    i = i + l + 1;
                }
                None => {
                    going = false;
                }
            }
        }
        out
    }

    /// Removes the frame at the read cursor, if one is there, and returns its
    /// payload.  With no frame present: when the writer has already marked the
    /// segment finished, completes the handshake by raising `done_reading`;
    /// otherwise leaves every flag alone (the writer may still append, the
    /// caller must retry).
    pub fn pop(&mut self) -> (r: Option<Vec<u8>>)
        requires
            old(self).wf(),
        ensures
            final(self).wf(),
            final(self).data == old(self).data,
            final(self).end == old(self).end,
            final(self).done_writing == old(self).done_writing,
            match r {
                Some(m) => {
                    &&& frame_ok(old(self).data@, old(self).start as int)
                    &&& m@ == frame_payload(old(self).data@, old(self).start as int)
                    &&& m@ == frames(old(self).data@, old(self).start as int)[0]
                    &&& final(self).start == next_frame(old(self).data@, old(self).start as int)
                    &&& frames(final(self).data@, final(self).start as int) == frames(
                        old(self).data@,
                        old(self).start as int,
                    ).drop_first()
                    &&& final(self).done_reading == old(self).done_reading
                },
                None => {
                    &&& !frame_ok(old(self).data@, old(self).start as int)
                    &&& frames(old(self).data@, old(self).start as int) == Seq::<Seq<u8>>::empty()
                    &&& final(self).start == old(self).start
                    &&& final(self).done_reading == (old(self).done_reading
                        || old(self).done_writing)
                },
            },
    {
        match self.message_at(self.start) {
            Some(message) => {
                proof {
                    let d = self.data@;
                    let st = self.start as int;
                    let nf = next_frame(d, st);
                    assert(d.len() == self.data.len());
                    assert(frames(d, st) == seq![frame_payload(d, st)] + frames(d, nf));
                    assert(frames(d, st)[0] == frame_payload(d, st));
                    assert(frames(d, nf) =~= frames(d, st).drop_first());
                    assert(frames_end(d, st) == frames_end(d, nf));
                    assert(is_boundary(d, nf, nf));
                    assert(is_boundary(d, st, nf));
                    lemma_boundary_trans(d, 0, st, nf);
                }
                self.start = self.start + message.len() + 1;
                Some(message)
            },
            None => {
                proof {
                    assert(frames(self.data@, self.start as int) =~= Seq::<Seq<u8>>::empty());
                }
                if self.done_writing {
                    self.done_reading = true;
                }
                None
            },
        }
    }

    /// Raises the writer's completion flag: the writer will append no more
    /// frames to this segment.
    pub fn set_done_writing(&mut self)
        ensures
            final(self).data == old(self).data,
            final(self).start == old(self).start,
            final(self).end == old(self).end,
            final(self).done_reading == old(self).done_reading,
            final(self).done_writing,
            old(self).wf() ==> final(self).wf(),
    {
        self.done_writing = true;
    }

    /// Raises the reader's completion flag, as the reader does out-of-band
    /// once it has drained a finished segment.
    pub fn set_done_reading(&mut self)
        ensures
            final(self).data == old(self).data,
            final(self).start == old(self).start,
            final(self).end == old(self).end,
            final(self).done_writing == old(self).done_writing,
            final(self).done_reading,
            old(self).wf() ==> final(self).wf(),
    {
        self.done_reading = true;
    }
}

/// How one pop relates the segment it ran on (`q1` before, `q2` after) to
/// what it returned: exactly the contract of [`Queue::pop`], with the
/// returned payload as a ghost sequence.
pub open spec fn pop_rel(q1: Queue, q2: Queue, r: Option<Seq<u8>>) -> bool {
    &&& q2.data == q1.data
    &&& q2.end == q1.end
    &&& q2.done_writing == q1.done_writing
    &&& match r {
        Some(m) => {
            &&& frame_ok(q1.data@, q1.start as int)
            &&& m == frame_payload(q1.data@, q1.start as int)
            &&& q2.start == next_frame(q1.data@, q1.start as int)
            &&& q2.done_reading == q1.done_reading
        },
        None => {
            &&& !frame_ok(q1.data@, q1.start as int)
            &&& q2.start == q1.start
            &&& q2.done_reading == (q1.done_reading || q1.done_writing)
        },
    }
}

/// In a well-formed segment with nothing left unread there is no frame at the
/// read cursor.
pub proof fn lemma_drained_no_frame(d: Seq<u8>, start: int, end: int)
    requires
        seg_wf(d, start, end),
        start == end,
    ensures
        !frame_ok(d, start),
        frames(d, start) == Seq::<Seq<u8>>::empty(),
{
    if frame_ok(d, start) {
        lemma_frames_end_ge(d, next_frame(d, start));
    }
    assert(frames(d, start) =~= Seq::<Seq<u8>>::empty());
}

/// Round trip: pushing a message into a well-formed segment with nothing left
/// unread makes exactly that message the frame waiting at the read cursor, so
/// the following pop returns its very bytes.
pub proof fn lemma_push_pop_round_trip(d: Seq<u8>, start: int, end: int, m: Seq<u8>)
    requires
        seg_wf(d, start, end),
        start == end,
        1 <= m.len() <= 255,
        end + m.len() + 1 <= d.len(),
    ensures
        frame_ok(pushed_data(d, end, m), start),
        frame_payload(pushed_data(d, end, m), start) == m,
        frames(pushed_data(d, end, m), start) == seq![m],
{
    let d2 = pushed_data(d, end, m);
    lemma_push_data(d, start, end, m);
    lemma_drained_no_frame(d, start, end);
    assert(frames(d2, start) =~= seq![m]);
    assert(frames(d2, start)[0] == frame_payload(d2, start));
}

/// The segment image after the payloads of `msgs` have been pushed in order,
/// each at the write cursor left by the one before.
pub open spec fn pushed_all(d: Seq<u8>, end: int, msgs: Seq<Seq<u8>>) -> Seq<u8>
    decreases msgs.len(),
{
    if msgs.len() == 0 {
        d
    } else {
        pushed_all(pushed_data(d, end, msgs[0]), end + 1 + msgs[0].len(), msgs.drop_first())
    }
}

/// Frame count: pushing `msgs.len()` messages of one size `s` into a
/// well-formed segment appends exactly those messages to the chain enumerated
/// from offset 0 — so into a fresh segment of capacity `c`, `n` pushes of
/// size `s` yield a frame count of exactly `n` whenever `n * (s + 1) <= c`.
pub proof fn lemma_frame_count(d: Seq<u8>, start: int, end: int, msgs: Seq<Seq<u8>>, s: int)
    requires
        seg_wf(d, start, end),
        1 <= s <= 255,
        forall|k: int| 0 <= k < msgs.len() ==> #[trigger] msgs[k].len() == s,
        end + msgs.len() * (s + 1) <= d.len(),
    ensures
        pushed_all(d, end, msgs).len() == d.len(),
        seg_wf(pushed_all(d, end, msgs), start, end + msgs.len() * (s + 1)),
        frames(pushed_all(d, end, msgs), 0) == frames(d, 0) + msgs,
        frames(pushed_all(d, end, msgs), 0).len() == frames(d, 0).len() + msgs.len(),
    decreases msgs.len(),
{
    if msgs.len() == 0 {
        assert(frames(d, 0) + msgs =~= frames(d, 0));
    } else {
        let m = msgs[0];
        let rest = msgs.drop_first();
        let d1 = pushed_data(d, end, m);
        let e1 = end + 1 + s;
        assert(msgs.len() * (s + 1) == (s + 1) + rest.len() * (s + 1)) by (nonlinear_arith)
            requires
                msgs.len() >= 1,
                rest.len() == msgs.len() - 1,
        ;
        assert(rest.len() * (s + 1) >= 0) by (nonlinear_arith)
            requires
                rest.len() >= 0,
                s >= 1,
        ;
        lemma_push_data(d, start, end, m);
        assert(forall|k: int| 0 <= k < rest.len() ==> #[trigger] rest[k].len() == s);
        lemma_frame_count(d1, start, e1, rest, s);
        assert(frames(pushed_all(d, end, msgs), 0) =~= frames(d, 0) + msgs) by {
            assert(frames(pushed_all(d1, e1, rest), 0) == (frames(d, 0).push(m)) + rest);
            assert((frames(d, 0).push(m)) + rest =~= frames(d, 0) + msgs);
        }
    }
}

/// Handshake: when the writer of a segment has finished it and the reader
/// finds no frame at the read cursor, the pop that observes this raises
/// `done_reading` and returns nothing, and the state it leaves behind still
/// offers no frame — every further pop on this segment also yields nothing
/// and keeps `done_reading` set.
pub proof fn lemma_done_writing_handshake(q1: Queue, q2: Queue)
    requires
        q1.wf(),
        q1.done_writing,
        !frame_ok(q1.data@, q1.start as int),
        // `q2` is the state `pop` then leaves behind, per its contract:
        q2.data == q1.data,
        q2.start == q1.start,
        q2.end == q1.end,
        q2.done_writing == q1.done_writing,
        q2.done_reading == (q1.done_reading || q1.done_writing),
    ensures
        q2.done_reading,
        q2.wf(),
        !frame_ok(q2.data@, q2.start as int),
        frames(q2.data@, q2.start as int) == Seq::<Seq<u8>>::empty(),
{
    assert(frames(q2.data@, q2.start as int) =~= Seq::<Seq<u8>>::empty());
}

} // verus!
