//! The forward-only byte sources a reader can wrap.
//!
//! [`ByteSource`] is the one capability the reader consumes: hand out up to
//! `max` further bytes, in order, or report a failure. A source is modeled
//! by the stream it serves — the byte at every position ([`byte_at`]) and
//! the stream's total length ([`limit`]), `None` for an unbounded source —
//! together with the history of bytes already handed out ([`emitted`]).
//! The module also provides three ready-made sources: [`VecSource`] over an
//! owned sequence of bytes, [`RepeatSource`] yielding one constant byte
//! without end, and [`FailingSource`] whose every read fails.
//!
//! [`byte_at`]: ByteSource::byte_at
//! [`limit`]: ByteSource::limit
//! [`emitted`]: ByteSource::emitted

use vstd::prelude::*;

verus! {

/// The failure a source's read primitive can report. The reader propagates
/// it unchanged to its own caller, without retrying; the payload is the
/// source's own and the reader never inspects it.
#[derive(Clone, Copy, Debug, PartialEq, Eq, Structural)]
pub struct SourceError {
    /// Whatever the source wants its caller to see of the failure.
    pub code: u64,
}

/// A forward-only provider of bytes.
///
/// An empty chunk for a positive `max` means the source is exhausted:
/// implementations must block until data arrives or the end is certain,
/// rather than report transient no-progress.
pub trait ByteSource: Sized {
    /// The byte the source serves at absolute position `i` of its stream.
    spec fn byte_at(&self, i: int) -> u8;

    /// How many bytes the whole stream holds; `None` for an unbounded one.
    spec fn limit(&self) -> Option<nat>;

    /// Every byte this source has handed out so far, oldest first.
    spec fn emitted(&self) -> Seq<u8>;

    /// True once the source cannot deliver another byte.
    spec fn exhausted(&self) -> bool;

    /// True of a source whose reads never fail.
    spec fn infallible(&self) -> bool;

    /// Hand out up to `max` further bytes, in order. The stream itself —
    /// `byte_at` and `limit` — never changes; only the history grows.
    fn read_some(&mut self, max: usize) -> (r: Result<Vec<u8>, SourceError>)
        ensures
            final(self).infallible() == old(self).infallible(),
            final(self).limit() == old(self).limit(),
            forall|i: int| final(self).byte_at(i) == old(self).byte_at(i),
            (match final(self).limit() {
                Some(l) => final(self).emitted().len() <= l,
                None => true,
            }),
            (final(self).exhausted() <==> (match final(self).limit() {
                Some(l) => l == final(self).emitted().len(),
                None => false,
            })),
            match r {
                Ok(chunk) => {
                    &&& chunk@.len() <= max
                    &&& final(self).emitted() == old(self).emitted() + chunk@
                    &&& (max > 0 && chunk@.len() == 0 ==> final(self).exhausted())
                    &&& forall|j: int|
                        0 <= j < chunk@.len() ==> chunk@[j] == old(self).byte_at(
                            old(self).emitted().len() + j,
                        )
                },
                Err(_) => {
                    &&& final(self).emitted() == old(self).emitted()
                    &&& final(self).exhausted() == old(self).exhausted()
                    &&& !old(self).infallible()
                },
            },
    ;
}

/// A source's history matches its stream: every byte handed out so far is
/// the stream's byte at that position, no more than the whole stream was
/// handed out, and the source is exhausted exactly when it was all handed
/// out. Constructors establish this and `read_some` preserves it.
pub open spec fn coherent<S: ByteSource>(s: S) -> bool {
    &&& forall|j: int| 0 <= j < s.emitted().len() ==> s.emitted()[j] == s.byte_at(j)
    &&& (match s.limit() {
        Some(l) => s.emitted().len() <= l,
        None => true,
    })
    &&& (s.exhausted() <==> (match s.limit() {
        Some(l) => l == s.emitted().len(),
        None => false,
    }))
}

/// A source backed by an owned sequence of bytes, handed out front to back.
pub struct VecSource {
    /// The bytes this source serves.
    pub data: Vec<u8>,
    /// How many leading bytes have been handed out already.
    pub pos: usize,
}

impl VecSource {
    /// Wraps an owned sequence of bytes as a source positioned at its start.
    pub fn new(data: Vec<u8>) -> (r: Self)
        ensures
            r.data@ == data@,
            r.pos == 0,
            r.emitted() == Seq::<u8>::empty(),
            r.limit() == Some(data@.len()),
            forall|i: int| 0 <= i < data@.len() ==> r.byte_at(i) == data@[i],
            r.infallible(),
            coherent(r),
    {
        VecSource { data, pos: 0 }
    }
}

impl ByteSource for VecSource {
    open spec fn byte_at(&self, i: int) -> u8 {
        self.data@[i]
    }

    open spec fn limit(&self) -> Option<nat> {
        Some(self.data@.len())
    }

    open spec fn emitted(&self) -> Seq<u8> {
        self.data@.take(
            if self.pos <= self.data@.len() {
                self.pos as int
            } else {
                self.data@.len() as int
            },
        )
    }

    open spec fn exhausted(&self) -> bool {
        self.pos >= self.data@.len()
    }

    open spec fn infallible(&self) -> bool {
        true
    }

    fn read_some(&mut self, max: usize) -> (r: Result<Vec<u8>, SourceError>) {
        let mut chunk: Vec<u8> = Vec::new();
        while self.pos < self.data.len() && chunk.len() < max
            invariant
                self.data@ == old(self).data@,
                old(self).pos <= self.pos,
                self.pos <= self.data@.len() || self.pos == old(self).pos,
                chunk@.len() <= max,
                self.emitted() == old(self).emitted() + chunk@,
            decreases max - chunk@.len(),
        {
            let b: u8 = self.data[self.pos];
            chunk.push(b);
            proof {
                assert(self.data@.take(self.pos + 1) =~= self.data@.take(self.pos as int).push(
                    self.data@[self.pos as int],
                ));
            }
            self.pos = self.pos + 1;
        }
        proof {
            assert forall|j: int| 0 <= j < chunk@.len() implies chunk@[j] == old(self).byte_at(
                old(self).emitted().len() + j,
            ) by {
                assert(self.emitted()[old(self).emitted().len() + j] == chunk@[j]);
            }
            assert forall|j: int| 0 <= j < self.emitted().len() implies self.emitted()[j]
                == self.byte_at(j) by {
                assert(self.emitted()[j] == self.data@[j]);
            }
        }
        Ok(chunk)
    }
}

/// A source that yields one constant byte without end.
pub struct RepeatSource {
    /// The byte every read hands out.
    pub byte: u8,
    /// How many copies have been handed out so far.
    pub given: Ghost<nat>,
}

impl RepeatSource {
    /// A source that will forever serve `byte`.
    pub fn new(byte: u8) -> (r: Self)
        ensures
            r.byte == byte,
            r.emitted() == Seq::<u8>::empty(),
            r.limit() is None,
            forall|i: int| r.byte_at(i) == byte,
            r.infallible(),
            coherent(r),
    {
        RepeatSource { byte, given: Ghost(0) }
    }
}

impl ByteSource for RepeatSource {
    open spec fn byte_at(&self, i: int) -> u8 {
        self.byte
    }

    open spec fn limit(&self) -> Option<nat> {
        None
    }

    open spec fn emitted(&self) -> Seq<u8> {
        Seq::new(self.given@, |i: int| self.byte)
    }

    open spec fn exhausted(&self) -> bool {
        false
    }

    open spec fn infallible(&self) -> bool {
        true
    }

    fn read_some(&mut self, max: usize) -> (r: Result<Vec<u8>, SourceError>) {
        let mut chunk: Vec<u8> = Vec::new();
        let mut k: usize = 0;
        while k < max
            invariant
                k <= max,
                self.byte == old(self).byte,
                self.given == old(self).given,
                chunk@.len() == k,
                forall|i: int| 0 <= i < k ==> chunk@[i] == self.byte,
            decreases max - k,
        {
            chunk.push(self.byte);
            k = k + 1;
        }
        self.given = Ghost(self.given@ + max as nat);
        proof {
            assert(Seq::new(self.given@, |i: int| self.byte) =~= Seq::new(
                old(self).given@,
                |i: int| old(self).byte,
            ) + chunk@);
        }
        Ok(chunk)
    }
}

/// A source whose every read fails, for exercising error propagation. It
/// hands out nothing and never signals exhaustion: its stream stays
/// entirely unobserved, so no end for it is ever stated.
pub struct FailingSource {
    /// The payload every reported failure carries.
    pub code: u64,
}

impl FailingSource {
    /// A source whose every read reports a failure carrying `code`.
    pub fn new(code: u64) -> (r: Self)
        ensures
            r.code == code,
            r.emitted() == Seq::<u8>::empty(),
            !r.infallible(),
            coherent(r),
    {
        FailingSource { code }
    }
}

impl ByteSource for FailingSource {
    open spec fn byte_at(&self, i: int) -> u8 {
        0
    }

    open spec fn limit(&self) -> Option<nat> {
        None
    }

    open spec fn emitted(&self) -> Seq<u8> {
        Seq::<u8>::empty()
    }

    open spec fn exhausted(&self) -> bool {
        false
    }

    open spec fn infallible(&self) -> bool {
        false
    }

    fn read_some(&mut self, max: usize) -> (r: Result<Vec<u8>, SourceError>) {
        Err(SourceError { code: self.code })
    }
}

} // verus!
