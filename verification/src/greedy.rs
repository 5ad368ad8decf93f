//! The buffered random-access reader itself.

use vstd::prelude::*;

use crate::source::coherent;
use crate::source::ByteSource;
use crate::source::RepeatSource;
use crate::source::SourceError;

verus! {

/// The failures a reader operation can report.
#[derive(Clone, Copy, Debug, PartialEq, Eq, Structural)]
pub enum ReaderError {
    /// A requested index or range extends beyond what the source could
    /// supply, or the range is malformed (its start after its end).
    IndexOutOfRange,
    /// The source's read primitive reported a failure, propagated unchanged.
    Source(SourceError),
}

/// The upper bound of a range handed to [`GreedyAccessReader::slice`].
///
/// The bound must be finite: a "read to end" request cannot be expressed.
#[derive(Clone, Copy, Debug, PartialEq, Eq, Structural)]
pub enum SliceEnd {
    /// The range stops just before this index.
    Excluded(usize),
    /// The range stops at this index, included.
    Included(usize),
}

/// The first index past a range with upper bound `end`.
pub open spec fn end_of(end: SliceEnd) -> int {
    match end {
        SliceEnd::Excluded(n) => n as int,
        SliceEnd::Included(n) => n + 1,
    }
}

/// A buffered reader that greedily retains every byte read from its source.
///
/// Bytes are fetched from the source in bulk and kept in a growable buffer,
/// so that a byte or a slice of bytes at an arbitrary position can be
/// served, reading just enough of the stream to reach that position if it
/// is not retained already. Position indices are relative to the position
/// of the source when it was attached, until [`clear`] re-bases them.
///
/// [`clear`]: GreedyAccessReader::clear
pub struct GreedyAccessReader<R> {
    inner: R,
    buf: Vec<u8>,
    consumed: usize,
    cap: usize,
    past: Ghost<Seq<u8>>,
}

impl<R: ByteSource> GreedyAccessReader<R> {
    /// The bytes retained since construction or the last compaction,
    /// indexed as `get` and `slice` see them.
    pub closed spec fn bytes(self) -> Seq<u8> {
        self.buf@
    }

    /// How many leading retained bytes sequential reads have delivered.
    pub closed spec fn consumed_count(self) -> nat {
        self.consumed as nat
    }

    /// The capacity the planner has arranged for the retention buffer.
    pub closed spec fn planned_capacity(self) -> nat {
        self.cap as nat
    }

    /// The wrapped source.
    pub closed spec fn source(self) -> R {
        self.inner
    }

    /// The bytes discarded by compactions, together with whatever the
    /// source had already emitted when it was attached.
    pub closed spec fn discarded(self) -> Seq<u8> {
        self.past@
    }

    /// Well-formedness: the cursor stays within the buffer, the buffer
    /// within its planned capacity, every byte the source ever emitted is
    /// either discarded history or still retained, and the source's history
    /// matches its stream.
    pub open spec fn wf(self) -> bool {
        &&& self.consumed_count() <= self.bytes().len()
        &&& self.bytes().len() <= self.planned_capacity()
        &&& self.source().emitted() == self.discarded() + self.bytes()
        &&& coherent(self.source())
    }

    /// Every byte sequential reads have handed out since construction.
    pub open spec fn delivered(self) -> Seq<u8> {
        self.discarded() + self.bytes().take(self.consumed_count() as int)
    }

    /// Creates a new greedy buffered reader with the given byte source.
    pub fn new(src: R) -> (r: Self)
        requires
            coherent(src),
        ensures
            r.wf(),
            r.source() == src,
            r.bytes() == Seq::<u8>::empty(),
            r.consumed_count() == 0,
            r.planned_capacity() == 0,
            r.discarded() == src.emitted(),
    {
        GreedyAccessReader {
            inner: src,
            buf: Vec::new(),
            consumed: 0,
            cap: 0,
            past: Ghost(src.emitted()),
        }
    }

    /// Creates a new greedy buffered reader with the given byte source and
    /// the specified buffer capacity.
    ///
    /// The buffer will be able to hold `capacity` bytes before the planner
    /// grows it.
    pub fn with_capacity(src: R, capacity: usize) -> (r: Self)
        requires
            coherent(src),
        ensures
            r.wf(),
            r.source() == src,
            r.bytes() == Seq::<u8>::empty(),
            r.consumed_count() == 0,
            r.planned_capacity() == capacity,
            r.discarded() == src.emitted(),
    {
        GreedyAccessReader {
            inner: src,
            buf: Vec::with_capacity(capacity),
            consumed: 0,
            cap: capacity,
            past: Ghost(src.emitted()),
        }
    }

    /// Retrieves the internal source, discarding the buffer in the process.
    ///
    /// Any leftover data in the internal buffer is lost.
    pub fn into_inner(self) -> (r: R)
        ensures
            r == self.source(),
    {
        self.inner
    }

    /// Retrieves the internal buffer in its current state, discarding the
    /// source in the process.
    pub fn into_buffer(self) -> (r: Vec<u8>)
        ensures
            r@ == self.bytes(),
    {
        self.buf
    }

    /// Retrieves the internal source and buffer in their current state.
    ///
    /// For a well-formed reader the two parts account for the whole stream:
    /// what the source has emitted is the discarded history followed by the
    /// returned buffer, so no byte is dropped or duplicated between them.
    pub fn into_parts(self) -> (r: (R, Vec<u8>))
        ensures
            r.0 == self.source(),
            r.1@ == self.bytes(),
            self.wf() ==> r.0.emitted() == self.discarded() + r.1@,
    {
        (self.inner, self.buf)
    }

    /// The capacity planner: grows the planned capacity to cover `index`
    /// bytes, doubling from a baseline of 16 until it meets both the target
    /// and the current plan. It never shrinks, touches no retained byte and
    /// never reads the source; a changed plan stays within twice what was
    /// asked for, so the buffer never outgrows requests unboundedly.
    fn reserve_up_to(&mut self, index: usize)
        requires
            old(self).wf(),
        ensures
            final(self).wf(),
            final(self).source() == old(self).source(),
            final(self).bytes() == old(self).bytes(),
            final(self).consumed_count() == old(self).consumed_count(),
            final(self).discarded() == old(self).discarded(),
            final(self).planned_capacity() >= index,
            final(self).planned_capacity() >= old(self).planned_capacity(),
            final(self).planned_capacity() >= 16,
            final(self).planned_capacity() == old(self).planned_capacity()
                || final(self).planned_capacity() == 16
                || final(self).planned_capacity() <= 2 * index
                || final(self).planned_capacity() <= 2 * old(self).planned_capacity(),
    {
        let mut new_size: usize = 16;
        while (new_size < index || new_size < self.cap) && new_size <= usize::MAX / 2
            invariant
                16 <= new_size,
                new_size == 16 || new_size <= 2 * index || new_size <= 2 * self.cap,
            decreases (if new_size < index || new_size < self.cap {
                index + self.cap - new_size
            } else {
                0
            }),
        {
            new_size = new_size * 2;
        }
        if new_size < index {
            new_size = index;
        }
        if new_size < self.cap {
            new_size = self.cap;
        }
        if new_size > self.cap {
            let additional: usize = new_size - self.buf.len();
            self.buf.reserve(additional);
            self.cap = new_size;
        }
    }

    /// One growth-and-read cycle of the prefetch driver: if the buffer sits
    /// exactly at its planned capacity with everything consumed, plan one
    /// more doubling step; then issue a single bulk read from the source
    /// into the spare tail space and retain whatever arrived. Returns how
    /// many bytes the source delivered.
    fn fill_once(&mut self) -> (r: Result<usize, SourceError>)
        requires
            old(self).wf(),
        ensures
            final(self).wf(),
            final(self).consumed_count() == old(self).consumed_count(),
            final(self).discarded() == old(self).discarded(),
            final(self).source().infallible() == old(self).source().infallible(),
            final(self).source().limit() == old(self).source().limit(),
            forall|i: int| final(self).source().byte_at(i) == old(self).source().byte_at(i),
            final(self).planned_capacity() >= old(self).planned_capacity(),
            old(self).consumed_count() != old(self).planned_capacity() ==> final(
                self).planned_capacity() == old(self).planned_capacity(),
            old(self).bytes().is_prefix_of(final(self).bytes()),
            match r {
                Ok(n) => {
                    &&& final(self).bytes().len() == old(self).bytes().len() + n
                    &&& (n == 0 ==> final(self).source().exhausted() || (old(
                        self,
                    ).bytes().len() == old(self).planned_capacity() && old(
                        self,
                    ).consumed_count() != old(self).planned_capacity()) || old(
                        self,
                    ).bytes().len() == usize::MAX)
                },
                Err(_) => {
                    &&& final(self).bytes() == old(self).bytes()
                    &&& !old(self).source().infallible()
                },
            },
    {
        if self.cap == self.consumed {
            let target: usize = if self.cap <= usize::MAX - 16 {
                self.cap + 16
            } else {
                usize::MAX
            };
            self.reserve_up_to(target);
        }
        let spare: usize = self.cap - self.buf.len();
        match self.inner.read_some(spare) {
            Ok(chunk) => {
                let n: usize = chunk.len();
                let ghost served = chunk@;
                let mut tail = chunk;
                self.buf.append(&mut tail);
                proof {
                    assert(self.inner.emitted() =~= self.past@ + self.buf@);
                    assert(old(self).bytes().is_prefix_of(self.bytes())) by {
                        assert(old(self).bytes() =~= self.bytes().take(
                            old(self).bytes().len() as int,
                        ));
                    }
                    let pre_len = old(self).inner.emitted().len() as int;
                    assert forall|j: int| 0 <= j < self.inner.emitted().len() implies
                        self.inner.emitted()[j] == self.inner.byte_at(j) by {
                        if j < pre_len {
                            assert(old(self).inner.emitted()[j] == old(self).inner.byte_at(j));
                        } else {
                            assert(self.inner.emitted()[j] == served[j - pre_len]);
                        }
                    }
                }
                Ok(n)
            },
            Err(e) => Err(e),
        }
    }

    /// The prefetch driver: pulls bytes from the source into the buffer
    /// tail until at least `i` bytes are retained, or the source stops
    /// making progress, which is taken as exhaustion. A target already
    /// within the buffer reads nothing from the source.
    fn prefetch_up_to(&mut self, i: usize) -> (r: Result<(), SourceError>)
        requires
            old(self).wf(),
        ensures
            final(self).wf(),
            final(self).consumed_count() == old(self).consumed_count(),
            final(self).discarded() == old(self).discarded(),
            final(self).source().infallible() == old(self).source().infallible(),
            final(self).source().limit() == old(self).source().limit(),
            forall|i2: int| final(self).source().byte_at(i2) == old(self).source().byte_at(i2),
            final(self).planned_capacity() >= old(self).planned_capacity(),
            final(self).planned_capacity() >= i,
            old(self).consumed_count() < i ==> final(self).planned_capacity() == old(
                self).planned_capacity() || final(self).planned_capacity() == 16 || final(
                self).planned_capacity() <= 2 * i || final(self).planned_capacity() <= 2 * old(
                self).planned_capacity(),
            old(self).bytes().is_prefix_of(final(self).bytes()),
            i < old(self).bytes().len() ==> final(self).bytes() == old(self).bytes()
                && final(self).source() == old(self).source() && r is Ok,
            match r {
                Ok(_) => final(self).bytes().len() >= i || final(self).source().exhausted(),
                Err(_) => !old(self).source().infallible(),
            },
    {
        self.reserve_up_to(i);
        let mut done = false;
        while !done && self.buf.len() <= i
            invariant
                self.wf(),
                self.planned_capacity() >= i,
                self.planned_capacity() >= old(self).planned_capacity(),
                old(self).consumed_count() < i ==> self.planned_capacity() == old(
                    self).planned_capacity() || self.planned_capacity() == 16
                    || self.planned_capacity() <= 2 * i || self.planned_capacity() <= 2 * old(
                    self).planned_capacity(),
                self.consumed_count() == old(self).consumed_count(),
                self.discarded() == old(self).discarded(),
                self.source().infallible() == old(self).source().infallible(),
                self.source().limit() == old(self).source().limit(),
                forall|i2: int| self.source().byte_at(i2) == old(self).source().byte_at(i2),
                old(self).bytes().is_prefix_of(self.bytes()),
                i < old(self).bytes().len() ==> self.bytes() == old(self).bytes()
                    && self.source() == old(self).source(),
                done ==> self.bytes().len() >= i || self.source().exhausted(),
            decreases (if self.buf@.len() <= i {
                i + 1 - self.buf@.len()
            } else {
                0
            }), (if done {
                0int
            } else {
                1int
            }),
        {
            match self.fill_once() {
                Ok(n) => {
                    if n == 0 {
                        done = true;
                    }
                },
                Err(e) => {
                    return Err(e);
                },
            }
        }
        Ok(())
    }

    /// Fetches the single byte at `index` from the buffered data source.
    ///
    /// An index already covered by the buffer is served from memory, with
    /// the reader left untouched; otherwise just enough is prefetched to
    /// cover it. Against a source that does not fail, the call succeeds
    /// exactly when the stream reaches past the requested position, and the
    /// byte returned is the stream's byte there; it fails with
    /// `IndexOutOfRange` exactly when the source ran out first. It never
    /// advances the sequential cursor.
    pub fn get(&mut self, index: usize) -> (r: Result<u8, ReaderError>)
        requires
            old(self).wf(),
            index < usize::MAX,
        ensures
            final(self).wf(),
            final(self).consumed_count() == old(self).consumed_count(),
            final(self).discarded() == old(self).discarded(),
            final(self).source().infallible() == old(self).source().infallible(),
            final(self).source().limit() == old(self).source().limit(),
            forall|i2: int| final(self).source().byte_at(i2) == old(self).source().byte_at(i2),
            old(self).bytes().is_prefix_of(final(self).bytes()),
            index < old(self).bytes().len() ==> *final(self) == *old(self) && r is Ok,
            old(self).source().infallible() && (match old(self).source().limit() {
                Some(l) => old(self).discarded().len() + index < l,
                None => true,
            }) ==> r is Ok,
            final(self).planned_capacity() == old(self).planned_capacity() || final(
                self).planned_capacity() == 16 || final(self).planned_capacity() <= 2 * (index + 1)
                || final(self).planned_capacity() <= 2 * old(self).planned_capacity(),
            match r {
                Ok(b) => {
                    &&& index < final(self).bytes().len()
                    &&& b == final(self).bytes()[index as int]
                    &&& b == final(self).source().emitted()[final(self).discarded().len() + index]
                    &&& b == final(self).source().byte_at(final(self).discarded().len() + index)
                    &&& (match final(self).source().limit() {
                        Some(l) => final(self).discarded().len() + index < l,
                        None => true,
                    })
                },
                Err(ReaderError::IndexOutOfRange) => {
                    &&& final(self).bytes().len() <= index
                    &&& final(self).source().exhausted()
                    &&& (match final(self).source().limit() {
                        Some(l) => l <= final(self).discarded().len() + index,
                        None => false,
                    })
                },
                Err(ReaderError::Source(_)) => !old(self).source().infallible(),
            },
    {
        if index < self.buf.len() {
            proof {
                assert(self.inner.emitted()[self.past@.len() + index] == self.buf@[index as int])
                    by {
                    assert(self.inner.emitted() == self.past@ + self.buf@);
                }
                assert(self.inner.emitted().len() == self.past@.len() + self.buf@.len());
            }
            Ok(self.buf[index])
        } else {
            match self.prefetch_up_to(index + 1) {
                Ok(()) => {
                    if index < self.buf.len() {
                        proof {
                            let k = index as int;
                            assert(self.inner.emitted()[self.past@.len() + index]
                                == self.buf@[k]) by {
                                assert(self.inner.emitted() == self.past@ + self.buf@);
                            }
                            assert(self.inner.emitted().len() == self.past@.len()
                                + self.buf@.len());
                        }
                        Ok(self.buf[index])
                    } else {
                        proof {
                            assert(self.inner.emitted().len() == self.past@.len()
                                + self.buf@.len());
                        }
                        Err(ReaderError::IndexOutOfRange)
                    }
                },
                Err(e) => Err(ReaderError::Source(e)),
            }
        }
    }

    /// Obtains an owned copy of the bytes spanning `[start, end)`, with the
    /// end bound resolved from `end` (inclusive or exclusive).
    ///
    /// The underlying bytes are prefetched first, whether or not the range
    /// is well formed, exactly as a fetch of the resolved end would be. The
    /// call fails with `IndexOutOfRange` when the range is malformed (its
    /// start after its resolved end) or when the source ran out before
    /// covering it; it never advances the sequential cursor.
    pub fn slice(&mut self, start: usize, end: SliceEnd) -> (r: Result<Vec<u8>, ReaderError>)
        requires
            old(self).wf(),
            end_of(end) <= usize::MAX,
        ensures
            final(self).wf(),
            final(self).consumed_count() == old(self).consumed_count(),
            final(self).discarded() == old(self).discarded(),
            final(self).source().infallible() == old(self).source().infallible(),
            final(self).source().limit() == old(self).source().limit(),
            forall|i2: int| final(self).source().byte_at(i2) == old(self).source().byte_at(i2),
            old(self).bytes().is_prefix_of(final(self).bytes()),
            end_of(end) < old(self).bytes().len() ==> final(self).bytes() == old(self).bytes()
                && final(self).source() == old(self).source(),
            start <= end_of(end) < old(self).bytes().len() ==> r is Ok,
            old(self).source().infallible() && start <= end_of(end) && (match old(
                self).source().limit() {
                Some(l) => old(self).discarded().len() + end_of(end) <= l,
                None => true,
            }) ==> r is Ok,
            old(self).consumed_count() < end_of(end) ==> final(self).planned_capacity() == old(
                self).planned_capacity() || final(self).planned_capacity() == 16 || final(
                self).planned_capacity() <= 2 * end_of(end) || final(self).planned_capacity() <= 2
                * old(self).planned_capacity(),
            match r {
                Ok(v) => {
                    &&& start <= end_of(end) <= final(self).bytes().len()
                    &&& v@ == final(self).bytes().subrange(start as int, end_of(end))
                    &&& forall|j: int|
                        0 <= j < v@.len() ==> v@[j] == final(self).source().byte_at(
                            final(self).discarded().len() + start + j,
                        )
                    &&& (match final(self).source().limit() {
                        Some(l) => final(self).discarded().len() + end_of(end) <= l,
                        None => true,
                    })
                },
                Err(ReaderError::IndexOutOfRange) => start > end_of(end) || (final(
                    self).bytes().len() < end_of(end) && final(self).source().exhausted() && (
                match final(self).source().limit() {
                    Some(l) => l < final(self).discarded().len() + end_of(end),
                    None => false,
                })),
                Err(ReaderError::Source(_)) => !old(self).source().infallible(),
            },
    {
        let e: usize = match end {
            SliceEnd::Excluded(n) => n,
            SliceEnd::Included(n) => n + 1,
        };
        match self.prefetch_up_to(e) {
            Ok(()) => {
                if start > e || e > self.buf.len() {
                    proof {
                        assert(self.inner.emitted().len() == self.past@.len() + self.buf@.len());
                    }
                    Err(ReaderError::IndexOutOfRange)
                } else {
                    let mut out: Vec<u8> = Vec::new();
                    let mut j: usize = start;
                    while j < e
                        invariant
                            start <= j <= e,
                            e <= self.buf@.len(),
                            out@ == self.buf@.subrange(start as int, j as int),
                        decreases e - j,
                    {
                        out.push(self.buf[j]);
                        proof {
                            assert(self.buf@.subrange(start as int, j + 1) =~= self.buf@.subrange(
                                start as int,
                                j as int,
                            ).push(self.buf@[j as int]));
                        }
                        j = j + 1;
                    }
                    proof {
                        assert(self.inner.emitted().len() == self.past@.len() + self.buf@.len());
                        assert forall|j2: int| 0 <= j2 < out@.len() implies out@[j2]
                            == self.inner.byte_at(self.past@.len() + start + j2) by {
                            assert(out@[j2] == self.buf@[start + j2]);
                            assert(self.inner.emitted()[self.past@.len() + start + j2]
                                == self.buf@[start + j2]) by {
                                assert(self.inner.emitted() == self.past@ + self.buf@);
                            }
                        }
                    }
                    Ok(out)
                }
            },
            Err(e) => Err(ReaderError::Source(e)),
        }
    }

    /// Sequentially reads up to `max` bytes, advancing the cursor past them.
    ///
    /// If unconsumed bytes are buffered they are served directly; otherwise
    /// a single growth-and-read cycle is issued first. An empty result for
    /// a positive `max` signals the end of the source.
    pub fn read(&mut self, max: usize) -> (r: Result<Vec<u8>, ReaderError>)
        requires
            old(self).wf(),
        ensures
            final(self).wf(),
            final(self).discarded() == old(self).discarded(),
            final(self).source().infallible() == old(self).source().infallible(),
            final(self).source().limit() == old(self).source().limit(),
            forall|i2: int| final(self).source().byte_at(i2) == old(self).source().byte_at(i2),
            final(self).planned_capacity() >= old(self).planned_capacity(),
            old(self).consumed_count() != old(self).planned_capacity() ==> final(
                self).planned_capacity() == old(self).planned_capacity(),
            old(self).bytes().is_prefix_of(final(self).bytes()),
            old(self).consumed_count() < old(self).bytes().len() ==> final(self).bytes() == old(
                self).bytes() && final(self).source() == old(self).source() && r is Ok,
            match r {
                Ok(v) => {
                    &&& v@.len() <= max
                    &&& final(self).consumed_count() == old(self).consumed_count() + v@.len()
                    &&& v@ == final(self).bytes().subrange(
                        old(self).consumed_count() as int,
                        old(self).consumed_count() + v@.len() as int,
                    )
                    &&& final(self).delivered() == old(self).delivered() + v@
                    &&& forall|j: int|
                        0 <= j < v@.len() ==> v@[j] == final(self).source().byte_at(
                            final(self).discarded().len() + old(self).consumed_count() + j,
                        )
                    &&& (v@.len() < max ==> final(self).consumed_count() == final(
                        self).bytes().len())
                    &&& (v@.len() == 0 && max > 0 && old(self).consumed_count() < usize::MAX
                        ==> final(self).source().exhausted())
                },
                Err(_) => {
                    &&& final(self).consumed_count() == old(self).consumed_count()
                    &&& final(self).bytes() == old(self).bytes()
                    &&& !old(self).source().infallible()
                },
            },
    {
        let ghost pre = *self;
        let mut avail: usize = self.buf.len() - self.consumed;
        if avail == 0 {
            match self.fill_once() {
                Ok(_) => {},
                Err(e) => {
                    return Err(ReaderError::Source(e));
                },
            }
            avail = self.buf.len() - self.consumed;
        }
        let n: usize = if avail < max {
            avail
        } else {
            max
        };
        let mut out: Vec<u8> = Vec::new();
        let stop: usize = self.consumed + n;
        let mut j: usize = self.consumed;
        while j < stop
            invariant
                self.consumed <= j <= stop,
                stop == self.consumed + n,
                stop <= self.buf@.len(),
                out@ == self.buf@.subrange(self.consumed as int, j as int),
            decreases stop - j,
        {
            out.push(self.buf[j]);
            proof {
                assert(self.buf@.subrange(self.consumed as int, j + 1) =~= self.buf@.subrange(
                    self.consumed as int,
                    j as int,
                ).push(self.buf@[j as int]));
            }
            j = j + 1;
        }
        self.consumed = self.consumed + n;
        proof {
            let c = pre.consumed_count() as int;
            assert(self.buf@.take(c) =~= pre.bytes().take(c));
            assert(self.buf@.take(c + n) =~= self.buf@.take(c) + out@);
            assert(self.delivered() =~= pre.delivered() + out@);
            assert forall|j2: int| 0 <= j2 < out@.len() implies out@[j2] == self.inner.byte_at(
                self.past@.len() + c + j2,
            ) by {
                assert(out@[j2] == self.buf@[c + j2]);
                assert(self.inner.emitted()[self.past@.len() + c + j2] == self.buf@[c + j2]) by {
                    assert(self.inner.emitted() == self.past@ + self.buf@);
                }
            }
        }
        Ok(out)
    }

    /// Returns a copy of the buffered bytes the cursor has not yet passed,
    /// fetching a single chunk from the source first if none are buffered.
    ///
    /// An empty result signals the end of the source. The caller marks the
    /// returned bytes as read with [`consume`].
    ///
    /// [`consume`]: GreedyAccessReader::consume
    pub fn fill_buf(&mut self) -> (r: Result<Vec<u8>, ReaderError>)
        requires
            old(self).wf(),
        ensures
            final(self).wf(),
            final(self).consumed_count() == old(self).consumed_count(),
            final(self).discarded() == old(self).discarded(),
            final(self).source().infallible() == old(self).source().infallible(),
            final(self).source().limit() == old(self).source().limit(),
            forall|i2: int| final(self).source().byte_at(i2) == old(self).source().byte_at(i2),
            final(self).planned_capacity() >= old(self).planned_capacity(),
            old(self).consumed_count() != old(self).planned_capacity() ==> final(
                self).planned_capacity() == old(self).planned_capacity(),
            old(self).bytes().is_prefix_of(final(self).bytes()),
            old(self).consumed_count() < old(self).bytes().len() ==> *final(self) == *old(self)
                && r is Ok,
            match r {
                Ok(v) => {
                    &&& v@ == final(self).bytes().skip(final(self).consumed_count() as int)
                    &&& forall|j: int|
                        0 <= j < v@.len() ==> v@[j] == final(self).source().byte_at(
                            final(self).discarded().len() + final(self).consumed_count() + j,
                        )
                    &&& (v@.len() == 0 && old(self).consumed_count() < usize::MAX ==> final(
                        self).source().exhausted())
                },
                Err(_) => {
                    &&& final(self).bytes() == old(self).bytes()
                    &&& !old(self).source().infallible()
                },
            },
    {
        if self.buf.len() == self.consumed {
            match self.fill_once() {
                Ok(_) => {},
                Err(e) => {
                    return Err(ReaderError::Source(e));
                },
            }
        }
        let mut out: Vec<u8> = Vec::new();
        let mut j: usize = self.consumed;
        while j < self.buf.len()
            invariant
                self.consumed <= j <= self.buf@.len(),
                out@ == self.buf@.subrange(self.consumed as int, j as int),
            decreases self.buf@.len() - j,
        {
            out.push(self.buf[j]);
            proof {
                assert(self.buf@.subrange(self.consumed as int, j + 1) =~= self.buf@.subrange(
                    self.consumed as int,
                    j as int,
                ).push(self.buf@[j as int]));
            }
            j = j + 1;
        }
        proof {
            assert(out@ =~= self.buf@.skip(self.consumed as int));
            assert forall|j2: int| 0 <= j2 < out@.len() implies out@[j2] == self.inner.byte_at(
                self.past@.len() + self.consumed + j2,
            ) by {
                assert(out@[j2] == self.buf@[self.consumed + j2]);
                assert(self.inner.emitted()[self.past@.len() + self.consumed + j2] == self.buf@[
                    self.consumed + j2
                ]) by {
                    assert(self.inner.emitted() == self.past@ + self.buf@);
                }
            }
        }
        Ok(out)
    }

    /// Marks `amt` more buffered bytes as consumed by the sequential side.
    ///
    /// The caller must have obtained at least that many unconsumed bytes
    /// from [`fill_buf`] first.
    ///
    /// [`fill_buf`]: GreedyAccessReader::fill_buf
    pub fn consume(&mut self, amt: usize)
        requires
            old(self).wf(),
            old(self).consumed_count() + amt <= old(self).bytes().len(),
        ensures
            final(self).wf(),
            final(self).consumed_count() == old(self).consumed_count() + amt,
            final(self).bytes() == old(self).bytes(),
            final(self).discarded() == old(self).discarded(),
            final(self).source() == old(self).source(),
            final(self).planned_capacity() == old(self).planned_capacity(),
    {
        self.consumed = self.consumed + amt;
    }

    /// Compaction: discards the already consumed bytes, re-bases the
    /// retained rest to start at index 0 and resets the cursor.
    ///
    /// Already prefetched but unconsumed bytes are preserved, never
    /// re-fetched, and the source is not touched; the following byte to be
    /// read sequentially becomes the byte at index 0. Nothing that was
    /// delivered is lost or repeated.
    pub fn clear(&mut self)
        requires
            old(self).wf(),
        ensures
            final(self).wf(),
            final(self).source() == old(self).source(),
            final(self).bytes() == old(self).bytes().skip(old(self).consumed_count() as int),
            final(self).consumed_count() == 0,
            final(self).discarded() == old(self).discarded() + old(self).bytes().take(
                old(self).consumed_count() as int,
            ),
            final(self).delivered() == old(self).delivered(),
            final(self).planned_capacity() == final(self).bytes().len(),
    {
        let ghost pre = *self;
        if self.consumed < self.buf.len() {
            let mut nb: Vec<u8> = Vec::new();
            let mut j: usize = self.consumed;
            while j < self.buf.len()
                invariant
                    self.consumed <= j <= self.buf@.len(),
                    nb@ == self.buf@.subrange(self.consumed as int, j as int),
                decreases self.buf@.len() - j,
            {
                nb.push(self.buf[j]);
                proof {
                    assert(self.buf@.subrange(self.consumed as int, j + 1) =~= self.buf@.subrange(
                        self.consumed as int,
                        j as int,
                    ).push(self.buf@[j as int]));
                }
                j = j + 1;
            }
            self.buf = nb;
        } else {
            self.buf = Vec::new();
        }
        self.cap = self.buf.len();
        self.consumed = 0;
        self.past = Ghost(pre.discarded() + pre.bytes().take(pre.consumed_count() as int));
        proof {
            assert(self.buf@ =~= pre.bytes().skip(pre.consumed_count() as int));
            assert(self.inner.emitted() =~= self.past@ + self.buf@);
            assert(self.delivered() =~= pre.delivered());
        }
    }

    /// Shrinks the internal buffer to minimal capacity.
    ///
    /// The retained bytes are rebuilt into storage of exactly their number:
    /// a memory-footprint optimization with no observable change to the
    /// indices, the cursor or the readable content.
    pub fn shrink_to_fit(&mut self)
        requires
            old(self).wf(),
        ensures
            final(self).wf(),
            final(self).source() == old(self).source(),
            final(self).bytes() == old(self).bytes(),
            final(self).consumed_count() == old(self).consumed_count(),
            final(self).discarded() == old(self).discarded(),
            final(self).planned_capacity() == final(self).bytes().len(),
    {
        let mut nb: Vec<u8> = Vec::with_capacity(self.buf.len());
        let mut j: usize = 0;
        while j < self.buf.len()
            invariant
                j <= self.buf@.len(),
                nb@ == self.buf@.take(j as int),
            decreases self.buf@.len() - j,
        {
            nb.push(self.buf[j]);
            proof {
                assert(self.buf@.take(j + 1) =~= self.buf@.take(j as int).push(
                    self.buf@[j as int],
                ));
            }
            j = j + 1;
        }
        proof {
            assert(nb@ =~= self.buf@);
        }
        self.buf = nb;
        self.cap = self.buf.len();
    }
}

/// Read-through fidelity: a well-formed reader accounts for the source's
/// whole output. The bytes handed out sequentially are exactly the leading
/// part of what the source emitted, in order, with nothing skipped or
/// duplicated; the discarded history and the retained buffer together make
/// up the source's full output, so a recovered source sits exactly past
/// what the reader holds.
pub proof fn lemma_reader_accounts_for_source<R: ByteSource>(r: GreedyAccessReader<R>)
    requires
        r.wf(),
    ensures
        r.delivered() == r.source().emitted().take(r.delivered().len() as int),
        r.delivered().is_prefix_of(r.source().emitted()),
        r.source().emitted().len() == r.discarded().len() + r.bytes().len(),
        r.consumed_count() == r.bytes().len() ==> r.delivered() == r.source().emitted(),
        forall|k: int| 0 <= k < r.delivered().len() ==> r.delivered()[k] == r.source().byte_at(k),
{
    assert(r.delivered() =~= r.source().emitted().take(r.delivered().len() as int));
    assert(r.delivered() =~= r.source().emitted().subrange(0, r.delivered().len() as int));
    if r.consumed_count() == r.bytes().len() {
        assert(r.delivered() =~= r.source().emitted());
    }
    assert forall|k: int| 0 <= k < r.delivered().len() implies r.delivered()[k]
        == r.source().byte_at(k) by {
        assert(r.delivered()[k] == r.source().emitted()[k]);
    }
}

/// Every retained byte is the stream's byte at its absolute position: the
/// byte a well-formed reader holds at index `k` is what the source serves
/// at position `k` counted from the source's own start, past the discarded
/// history.
pub proof fn lemma_bytes_match_content<R: ByteSource>(r: GreedyAccessReader<R>)
    requires
        r.wf(),
    ensures
        forall|k: int|
            0 <= k < r.bytes().len() ==> r.bytes()[k] == r.source().byte_at(
                r.discarded().len() + k,
            ),
{
    assert forall|k: int| 0 <= k < r.bytes().len() implies r.bytes()[k] == r.source().byte_at(
        r.discarded().len() + k,
    ) by {
        assert(r.source().emitted()[r.discarded().len() + k] == r.bytes()[k]);
    }
}

/// Idempotent re-fetch: every reader operation only ever extends the
/// retained buffer, and under such an extension the byte at a covered
/// index is pinned, so fetching the same index again returns the same
/// byte without the source being re-read for it.
pub proof fn lemma_refetch_stable<R: ByteSource>(
    before: GreedyAccessReader<R>,
    after: GreedyAccessReader<R>,
    index: int,
)
    requires
        0 <= index < before.bytes().len(),
        before.bytes().is_prefix_of(after.bytes()),
    ensures
        after.bytes()[index] == before.bytes()[index],
{
}

/// Unbounded sources: against a source that never runs out and never
/// fails, `get` succeeds for every index and returns that source's
/// constant byte.
pub fn get_unbounded(reader: &mut GreedyAccessReader<RepeatSource>, index: usize) -> (b: u8)
    requires
        old(reader).wf(),
        index < usize::MAX,
    ensures
        final(reader).wf(),
        final(reader).source().byte == old(reader).source().byte,
        b == old(reader).source().byte,
{
    match reader.get(index) {
        Ok(b) => {
            proof {
                let r = *reader;
                assert(r.source().emitted().len() == r.discarded().len() + r.bytes().len());
                assert(r.source().emitted()[r.discarded().len() + index] == r.source().byte);
                assert(r.source().byte_at(0) == old(reader).source().byte_at(0));
            }
            b
        },
        Err(e) => {
            proof {
                match e {
                    ReaderError::IndexOutOfRange => {
                        assert(false);
                    },
                    ReaderError::Source(_) => {
                        assert(false);
                    },
                }
            }
            0
        },
    }
}

} // verus!


