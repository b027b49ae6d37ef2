//! Fault-tolerant frame synchronizer.
//!
//! A transport delivers raw bytes in chunks of unpredictable size: a chunk
//! may hold noise, several frames, or a fragment of one. [`FrameSync`]
//! turns that stream into single, structurally complete frames. It owns a
//! bounded scratch buffer for the frame being assembled and never keeps
//! data beyond the current frame boundary; feeding it one chunk advances
//! its state by exactly [`sync_step`].
//!
//! The policy always prefers the most recently started frame: a candidate
//! followed by further bytes in the same read is discarded, since those
//! bytes may begin a newer, more relevant frame. The caller performs the
//! reads and hands each chunk over; a read error of the transport itself is
//! the caller's to report.

use vstd::prelude::*;

use crate::append_range;
use crate::hldc::decoded_frame;
use crate::hldc::encoded_frame;
use crate::hldc::lemma_round_trip;
use crate::hldc::lemma_stuffed_no_boundary;
use crate::hldc::stuffed;
use crate::hldc::FRAME_BOUNDARY_MARKER;
use crate::hldc::MIN_FRAME_SIZE;

verus! {

/// Failure kinds of frame synchronization. Transport read errors stay with
/// the caller doing the reads.
#[derive(Debug, Clone, PartialEq, Eq)]
pub enum Error {
    /// A frame outgrew the caller-chosen scratch capacity.
    BufferOutOfSpace,
    /// The transport delivered a zero-length read: end of stream.
    Eof,
}

/// Index of the last boundary marker in `s`, or -1 where there is none.
pub open spec fn last_boundary(s: Seq<u8>) -> int
    decreases s.len(),
{
    if s.len() == 0 {
        -1
    } else if s.last() == FRAME_BOUNDARY_MARKER {
        s.len() - 1
    } else {
        last_boundary(s.drop_last())
    }
}

/// Index of the first boundary marker in `s`, or `s.len()` where there is none.
pub open spec fn first_boundary(s: Seq<u8>) -> int
    decreases s.len(),
{
    if s.len() == 0 {
        0
    } else if s[0] == FRAME_BOUNDARY_MARKER {
        0
    } else {
        1 + first_boundary(s.drop_first())
    }
}

/// What `last_boundary` finds: a boundary marker with none after it, or -1
/// where the sequence holds no marker at all.
pub proof fn lemma_last_boundary(s: Seq<u8>)
    ensures
        -1 <= last_boundary(s) < s.len(),
        last_boundary(s) >= 0 ==> s[last_boundary(s)] == FRAME_BOUNDARY_MARKER,
        forall|j: int| last_boundary(s) < j < s.len() ==> #[trigger] s[j] != FRAME_BOUNDARY_MARKER,
    decreases s.len(),
{
    if s.len() > 0 && s.last() != FRAME_BOUNDARY_MARKER {
        lemma_last_boundary(s.drop_last());
        assert forall|j: int| last_boundary(s) < j < s.len() implies #[trigger] s[j]
            != FRAME_BOUNDARY_MARKER by {
            if j < s.len() - 1 {
                assert(s[j] == s.drop_last()[j]);
            }
        }
    }
}

/// What `first_boundary` finds: a boundary marker with none before it, or
/// `s.len()` where the sequence holds no marker at all.
pub proof fn lemma_first_boundary(s: Seq<u8>)
    ensures
        0 <= first_boundary(s) <= s.len(),
        first_boundary(s) < s.len() ==> s[first_boundary(s)] == FRAME_BOUNDARY_MARKER,
        forall|j: int| 0 <= j < first_boundary(s) ==> #[trigger] s[j] != FRAME_BOUNDARY_MARKER,
    decreases s.len(),
{
    if s.len() > 0 && s[0] != FRAME_BOUNDARY_MARKER {
        lemma_first_boundary(s.drop_first());
        assert forall|j: int| 0 <= j < first_boundary(s) implies #[trigger] s[j]
            != FRAME_BOUNDARY_MARKER by {
            if j > 0 {
                assert(s[j] == s.drop_first()[j - 1]);
            }
        }
    }
}

/// Abstract state of a [`FrameSync`]: whether a candidate frame is being
/// assembled, the scratch contents, and the scratch capacity.
pub ghost struct SyncView {
    pub assembling: bool,
    pub scratch: Seq<u8>,
    pub capacity: int,
}

/// What one chunk does to the synchronizer: progress without a complete
/// frame yet, a complete frame, or a fatal failure.
pub ghost enum SyncOutcome {
    Progress,
    Done(Seq<u8>),
    Failed(Error),
}

/// The synchronizer state holding no partial frame.
pub open spec fn cleared(v: SyncView) -> SyncView {
    SyncView { assembling: false, scratch: Seq::empty(), capacity: v.capacity }
}

/// One step of the synchronization algorithm on the chunk just read.
///
/// A zero-length chunk is end of stream. While searching, the chunk is
/// scanned backward for its last boundary marker; a second marker far
/// enough before it delimits a complete in-chunk frame, returned only if
/// nothing trails it — trailing bytes mean a newer frame may have begun,
/// so the candidate is discarded. Otherwise the last marker starts a new
/// candidate, copied to scratch. While assembling, a chunk without a marker
/// is appended whole; a chunk whose first marker is its final byte
/// completes the frame; a marker with bytes after it makes the candidate
/// stale. Outgrowing the scratch capacity fails fatally.
pub open spec fn sync_step(v: SyncView, chunk: Seq<u8>) -> (SyncView, SyncOutcome) {
    if chunk.len() == 0 {
        (cleared(v), SyncOutcome::Failed(Error::Eof))
    } else if !v.assembling {
        let last = last_boundary(chunk);
        if last < 0 {
            (v, SyncOutcome::Progress)
        } else {
            let prev = last_boundary(chunk.subrange(0, last));
            if prev >= 0 && last - prev >= MIN_FRAME_SIZE {
                if last == chunk.len() - 1 {
                    if last - prev + 1 <= v.capacity {
                        (cleared(v), SyncOutcome::Done(chunk.subrange(prev, last + 1)))
                    } else {
                        (cleared(v), SyncOutcome::Failed(Error::BufferOutOfSpace))
                    }
                } else {
                    (cleared(v), SyncOutcome::Progress)
                }
            } else {
                if chunk.len() - last <= v.capacity {
                    (
                        SyncView {
                            assembling: true,
                            scratch: chunk.subrange(last, chunk.len() as int),
                            capacity: v.capacity,
                        },
                        SyncOutcome::Progress,
                    )
                } else {
                    (cleared(v), SyncOutcome::Failed(Error::BufferOutOfSpace))
                }
            }
        }
    } else {
        let first = first_boundary(chunk);
        if first == chunk.len() {
            if v.scratch.len() + chunk.len() <= v.capacity {
                (
                    SyncView {
                        assembling: true,
                        scratch: v.scratch + chunk,
                        capacity: v.capacity,
                    },
                    SyncOutcome::Progress,
                )
            } else {
                (cleared(v), SyncOutcome::Failed(Error::BufferOutOfSpace))
            }
        } else if first == chunk.len() - 1 {
            if v.scratch.len() + chunk.len() <= v.capacity {
                (cleared(v), SyncOutcome::Done(v.scratch + chunk))
            } else {
                (cleared(v), SyncOutcome::Failed(Error::BufferOutOfSpace))
            }
        } else {
            (cleared(v), SyncOutcome::Progress)
        }
    }
}

/// A frame as it stands on the wire: two boundary markers enclosing an
/// otherwise marker-free body.
pub open spec fn boundary_delimited(f: Seq<u8>) -> bool {
    &&& f.len() >= 2
    &&& f[0] == FRAME_BOUNDARY_MARKER
    &&& f[f.len() - 1] == FRAME_BOUNDARY_MARKER
    &&& forall|j: int| 0 < j < f.len() - 1 ==> #[trigger] f[j] != FRAME_BOUNDARY_MARKER
}

/// Recency bias law: when a read ends in a complete frame, a searching
/// synchronizer returns exactly that frame, and everything before it in
/// the same read — noise, or an older complete frame delivered
/// back-to-back with it — is discarded in favor of the most recent one.
pub proof fn lemma_recency_bias(v: SyncView, prefix: Seq<u8>, f: Seq<u8>)
    requires
        !v.assembling,
        boundary_delimited(f),
        f.len() >= MIN_FRAME_SIZE + 1,
        f.len() <= v.capacity,
    ensures
        sync_step(v, prefix + f) == (cleared(v), SyncOutcome::Done(f)),
{
    let chunk = prefix + f;
    let n = chunk.len() as int;
    let l1 = prefix.len() as int;
    assert(chunk.last() == f[f.len() - 1]);
    assert(last_boundary(chunk) == n - 1);
    let sub = chunk.subrange(0, n - 1);
    lemma_last_boundary(sub);
    let prev = last_boundary(sub);
    assert(sub[l1] == f[0]);
    if prev < l1 {
        assert(sub[l1] != FRAME_BOUNDARY_MARKER);
    }
    if prev > l1 {
        assert(sub[prev] == f[prev - l1]);
        assert(0 < prev - l1 < f.len() - 1);
        assert(f[prev - l1] != FRAME_BOUNDARY_MARKER);
    }
    assert(prev == l1);
    assert((n - 1) - prev >= MIN_FRAME_SIZE);
    assert((n - 1) - prev + 1 <= v.capacity);
    assert(chunk.subrange(prev, n) =~= f);
}

/// A searching synchronizer that reads a chunk opening with the only
/// boundary marker in it copies the whole chunk to scratch as the new
/// candidate frame.
pub proof fn lemma_candidate_step(v: SyncView, chunk: Seq<u8>)
    requires
        !v.assembling,
        chunk.len() >= 1,
        chunk[0] == FRAME_BOUNDARY_MARKER,
        forall|j: int| 0 < j < chunk.len() ==> #[trigger] chunk[j] != FRAME_BOUNDARY_MARKER,
        chunk.len() <= v.capacity,
    ensures
        sync_step(v, chunk) == (
            SyncView { assembling: true, scratch: chunk, capacity: v.capacity },
            SyncOutcome::Progress,
        ),
{
    lemma_last_boundary(chunk);
    let lb = last_boundary(chunk);
    if lb > 0 {
        assert(chunk[lb] != FRAME_BOUNDARY_MARKER);
    }
    if lb < 0 {
        assert(chunk[0] != FRAME_BOUNDARY_MARKER);
    }
    assert(lb == 0);
    assert(chunk.subrange(0, 0) =~= Seq::<u8>::empty());
    assert(last_boundary(Seq::<u8>::empty()) == -1);
    assert(chunk.subrange(0, chunk.len() as int) =~= chunk);
}

/// An assembling synchronizer that reads a chunk closing with the only
/// boundary marker in it appends the whole chunk and hands the assembled
/// frame out.
pub proof fn lemma_finish_step(v: SyncView, chunk: Seq<u8>)
    requires
        v.assembling,
        chunk.len() >= 1,
        chunk[chunk.len() - 1] == FRAME_BOUNDARY_MARKER,
        forall|j: int| 0 <= j < chunk.len() - 1 ==> #[trigger] chunk[j] != FRAME_BOUNDARY_MARKER,
        v.scratch.len() + chunk.len() <= v.capacity,
    ensures
        sync_step(v, chunk) == (cleared(v), SyncOutcome::Done(v.scratch + chunk)),
{
    lemma_first_boundary(chunk);
    let fb = first_boundary(chunk);
    if fb < chunk.len() - 1 {
        assert(chunk[fb] != FRAME_BOUNDARY_MARKER);
    }
    if fb == chunk.len() {
        assert(chunk[chunk.len() - 1] != FRAME_BOUNDARY_MARKER);
    }
    assert(fb == chunk.len() - 1);
}

/// Split-frame assembly law: a frame whose boundary markers land in
/// different reads is reassembled byte for byte from the two fragments,
/// and the result is the same frame that a single-read delivery of the
/// same bytes returns.
pub proof fn lemma_split_assembly(v: SyncView, f: Seq<u8>, k: int)
    requires
        !v.assembling,
        boundary_delimited(f),
        f.len() >= MIN_FRAME_SIZE + 1,
        f.len() <= v.capacity,
        1 <= k < f.len(),
    ensures
        ({
            let first_step = sync_step(v, f.subrange(0, k));
            let second_step = sync_step(first_step.0, f.subrange(k, f.len() as int));
            &&& first_step.1 == SyncOutcome::Progress
            &&& second_step == (cleared(v), SyncOutcome::Done(f))
            &&& sync_step(v, f) == (cleared(v), SyncOutcome::Done(f))
        }),
{
    let c1 = f.subrange(0, k);
    let c2 = f.subrange(k, f.len() as int);
    let n = f.len() as int;
    assert(Seq::<u8>::empty() + f =~= f);
    lemma_recency_bias(v, Seq::empty(), f);
    assert forall|j: int| 0 < j < c1.len() implies #[trigger] c1[j] != FRAME_BOUNDARY_MARKER by {
        assert(c1[j] == f[j]);
    }
    lemma_candidate_step(v, c1);
    let v1 = SyncView { assembling: true, scratch: c1, capacity: v.capacity };
    assert forall|j: int| 0 <= j < c2.len() - 1 implies #[trigger] c2[j]
        != FRAME_BOUNDARY_MARKER by {
        assert(c2[j] == f[k + j]);
        assert(0 < k + j < n - 1);
    }
    assert(c2[c2.len() - 1] == f[n - 1]);
    lemma_finish_step(v1, c2);
    assert(c1 + c2 =~= f);
    assert(cleared(v1) == cleared(v));
}

/// Every encoded frame is boundary-delimited: byte stuffing keeps the
/// boundary marker out of the frame body, so only the two outer bytes
/// carry it. This is what makes the synchronizer's raw marker scan a safe
/// frame delimiter, without decoding first.
pub proof fn lemma_encoded_frame_delimited(data: Seq<u8>)
    ensures
        boundary_delimited(encoded_frame(data)),
{
    lemma_stuffed_no_boundary(data);
    let f = encoded_frame(data);
    assert(f[0] == FRAME_BOUNDARY_MARKER);
    assert(f[f.len() - 1] == FRAME_BOUNDARY_MARKER);
    assert forall|j: int| 0 < j < f.len() - 1 implies #[trigger] f[j]
        != FRAME_BOUNDARY_MARKER by {
        assert(f[j] == stuffed(data)[j - 1]);
    }
}

/// End-to-end law: an encoded frame delivered to a searching synchronizer
/// in two reads — however the split falls — is reassembled whole, and
/// decoding it restores the payload that was encoded.
pub proof fn lemma_sync_then_decode(v: SyncView, data: Seq<u8>, k: int, room: int)
    requires
        !v.assembling,
        stuffed(data).len() >= MIN_FRAME_SIZE - 1,
        encoded_frame(data).len() <= v.capacity,
        1 <= k < encoded_frame(data).len(),
        room >= data.len(),
    ensures
        ({
            let f = encoded_frame(data);
            let first_step = sync_step(v, f.subrange(0, k));
            let second_step = sync_step(first_step.0, f.subrange(k, f.len() as int));
            &&& first_step.1 == SyncOutcome::Progress
            &&& second_step.1 == SyncOutcome::Done(f)
            &&& decoded_frame(f, room) == Ok::<Seq<u8>, crate::hldc::Error>(data)
        }),
{
    let f = encoded_frame(data);
    lemma_encoded_frame_delimited(data);
    assert(f.len() == stuffed(data).len() + 2);
    lemma_split_assembly(v, f, k);
    lemma_round_trip(data, room);
}

/// Frame synchronizer with a caller-sized scratch buffer. Feed it the
/// chunks a transport delivers; it hands back the first structurally
/// complete, most recent frame.
pub struct FrameSync {
    frame: Vec<u8>,
    capacity: usize,
    assembling: bool,
}

impl View for FrameSync {
    type V = SyncView;

    closed spec fn view(&self) -> SyncView {
        SyncView {
            assembling: self.assembling,
            scratch: self.frame@,
            capacity: self.capacity as int,
        }
    }
}

/// Scans `chunk[..end]` backward for the last boundary marker.
fn rfind_boundary(chunk: &[u8], end: usize) -> (r: Option<usize>)
    requires
        end <= chunk@.len(),
    ensures
        ({
            let lb = last_boundary(chunk@.subrange(0, end as int));
            match r {
                Some(i) => lb == i && i < end,
                None => lb == -1,
            }
        }),
{
    proof {
        lemma_last_boundary(chunk@.subrange(0, end as int));
    }
    let ghost sub = chunk@.subrange(0, end as int);
    let mut j = end;
    while j > 0
        invariant
            j <= end <= chunk@.len(),
            sub == chunk@.subrange(0, end as int),
            forall|k: int| j <= k < end ==> #[trigger] chunk@[k] != FRAME_BOUNDARY_MARKER,
        decreases j,
    {
        j -= 1;
        if chunk[j] == FRAME_BOUNDARY_MARKER {
            proof {
                lemma_last_boundary(sub);
                assert(sub[j as int] == chunk@[j as int]);
                if last_boundary(sub) > j {
                    assert(chunk@[last_boundary(sub)] == sub[last_boundary(sub)]);
                }
            }
            return Some(j);
        }
    }
    proof {
        lemma_last_boundary(sub);
        if last_boundary(sub) >= 0 {
            assert(chunk@[last_boundary(sub)] == sub[last_boundary(sub)]);
        }
    }
    None
}

/// Scans `chunk` forward for the first boundary marker.
fn find_boundary(chunk: &[u8]) -> (r: Option<usize>)
    ensures
        ({
            let fb = first_boundary(chunk@);
            match r {
                Some(i) => fb == i && i < chunk@.len(),
                None => fb == chunk@.len(),
            }
        }),
{
    let mut j: usize = 0;
    while j < chunk.len()
        invariant
            j <= chunk@.len(),
            forall|k: int| 0 <= k < j ==> #[trigger] chunk@[k] != FRAME_BOUNDARY_MARKER,
        decreases chunk@.len() - j,
    {
        if chunk[j] == FRAME_BOUNDARY_MARKER {
            proof {
                lemma_first_boundary(chunk@);
                if first_boundary(chunk@) > j {
                    assert(chunk@[j as int] != FRAME_BOUNDARY_MARKER);
                }
            }
            return Some(j);
        }
        j += 1;
    }
    proof {
        lemma_first_boundary(chunk@);
    }
    None
}

impl FrameSync {
    /// A fresh synchronizer holding no partial frame, whose scratch buffer
    /// takes at most `capacity` bytes before frame assembly fails with
    /// `Error::BufferOutOfSpace`.
    pub fn new(capacity: usize) -> (r: FrameSync)
        ensures
            r@ == (SyncView { assembling: false, scratch: Seq::<u8>::empty(), capacity: capacity as int }),
    {
        FrameSync { frame: Vec::new(), capacity, assembling: false }
    }

    /// Drops any partial frame and returns to searching.
    fn clear_state(&mut self)
        ensures
            final(self)@ == cleared(old(self)@),
    {
        self.frame.clear();
        self.assembling = false;
    }

    /// Begins assembling a new candidate frame from the boundary marker at
    /// `chunk[last]` to the end of the chunk, if the scratch capacity can
    /// hold that much.
    fn start_candidate(&mut self, chunk: &[u8], last: usize) -> (r: Result<Option<Vec<u8>>, Error>)
        requires
            last < chunk@.len(),
        ensures
            chunk@.len() - last <= old(self)@.capacity ==> (final(self)@ == (SyncView {
                assembling: true,
                scratch: chunk@.subrange(last as int, chunk@.len() as int),
                capacity: old(self)@.capacity,
            }) && r == Ok::<Option<Vec<u8>>, Error>(None)),
            chunk@.len() - last > old(self)@.capacity ==> (final(self)@ == cleared(old(self)@) && r
                == Err::<Option<Vec<u8>>, Error>(Error::BufferOutOfSpace)),
    {
        if chunk.len() - last <= self.capacity {
            self.frame.clear();
            append_range(&mut self.frame, chunk, last, chunk.len());
            self.assembling = true;
            proof {
                assert(self.frame@ =~= chunk@.subrange(last as int, chunk@.len() as int));
            }
            Ok(None)
        } else {
            self.clear_state();
            Err(Error::BufferOutOfSpace)
        }
    }

    /// Advances the synchronizer by one chunk, exactly as [`sync_step`]
    /// says: `Ok(Some(frame))` hands out a complete frame, `Ok(None)` asks
    /// for the next read, and an error is fatal to this frame. A
    /// zero-length chunk always yields `Err(Error::Eof)`, never a partial
    /// frame.
    pub fn push_chunk(&mut self, chunk: &[u8]) -> (r: Result<Option<Vec<u8>>, Error>)
        ensures
            ({
                let (nv, outcome) = sync_step(old(self)@, chunk@);
                final(self)@ == nv && (match r {
                    Ok(Some(f)) => outcome matches SyncOutcome::Done(d) && f@ == d,
                    Ok(None) => outcome == SyncOutcome::Progress,
                    Err(e) => outcome == SyncOutcome::Failed(e),
                })
            }),
            chunk@.len() == 0 ==> r == Err::<Option<Vec<u8>>, Error>(Error::Eof),
    {
        if chunk.len() == 0 {
            self.clear_state();
            return Err(Error::Eof);
        }
        proof {
            assert(chunk@.subrange(0, chunk@.len() as int) =~= chunk@);
        }
        if !self.assembling {
            let last = match rfind_boundary(chunk, chunk.len()) {
                Some(last) => last,
                None => {
                    return Ok(None);
                },
            };
            match rfind_boundary(chunk, last) {
                Some(prev) => {
                    if last - prev >= MIN_FRAME_SIZE {
                        if last == chunk.len() - 1 {
                            if last - prev + 1 <= self.capacity {
                                let mut out: Vec<u8> = Vec::new();
                                append_range(&mut out, chunk, prev, last + 1);
                                self.clear_state();
                                proof {
                                    assert(out@ =~= chunk@.subrange(prev as int, last + 1 as int));
                                }
                                Ok(Some(out))
                            } else {
                                self.clear_state();
                                Err(Error::BufferOutOfSpace)
                            }
                        } else {
                            self.clear_state();
                            Ok(None)
                        }
                    } else {
                        self.start_candidate(chunk, last)
                    }
                },
                None => self.start_candidate(chunk, last),
            }
        } else {
            match find_boundary(chunk) {
                None => {
                    if chunk.len() <= self.capacity && self.frame.len() <= self.capacity - chunk.len() {
                        append_range(&mut self.frame, chunk, 0, chunk.len());
                        proof {
                            assert(chunk@.subrange(0, chunk@.len() as int) =~= chunk@);
                        }
                        Ok(None)
                    } else {
                        self.clear_state();
                        Err(Error::BufferOutOfSpace)
                    }
                },
                Some(first) => {
                    if first == chunk.len() - 1 {
                        if chunk.len() <= self.capacity && self.frame.len() <= self.capacity - chunk.len() {
                            let mut out: Vec<u8> = Vec::new();
                            append_range(&mut out, self.frame.as_slice(), 0, self.frame.len());
                            append_range(&mut out, chunk, 0, chunk.len());
                            proof {
                                assert(self.frame@.subrange(0, self.frame@.len() as int) =~= self.frame@);
                                assert(chunk@.subrange(0, chunk@.len() as int) =~= chunk@);
                                assert(out@ =~= old(self)@.scratch + chunk@);
                            }
                            self.clear_state();
                            Ok(Some(out))
                        } else {
                            self.clear_state();
                            Err(Error::BufferOutOfSpace)
                        }
                    } else {
                        self.clear_state();
                        Ok(None)
                    }
                },
            }
        }
    }
}

} // verus!
