//! The bounded read-ahead window behind the ranged-HTTP reader.
//!
//! A remote archive is served by at most one sequential ranged stream at a
//! time. Bytes pulled from the stream ahead of the logical cursor wait in
//! this window; a configured limit bounds how many may wait, and when the
//! window is full the reader stops pulling until bytes are consumed. A seek
//! inside the window merely discards the skipped bytes; a seek outside it
//! forces a new stream, and the first such seek raises a warning so the
//! user can be advised to raise the limit.

use vstd::prelude::*;

verus! {

/// How a seek target relates to the window.
#[derive(Clone, Copy, Debug, PartialEq, Eq, Structural)]
pub enum SeekClass {
    /// The target lies inside the buffered window (or just past its end):
    /// the stream can be kept, skipped bytes are discarded.
    WithinWindow,
    /// The target lies before the window or beyond what was buffered: the
    /// current stream must be dropped and a new one opened at the target.
    NewStream,
}

/// The portion of the remote object already fetched ahead of the cursor on
/// the active stream.
pub struct ReadaheadWindow {
    window_start: u64,
    data: Vec<u8>,
    limit: Option<usize>,
    warned: bool,
}

impl ReadaheadWindow {
    /// The absolute offset of the first buffered byte; equally, the logical
    /// cursor of the stream's consumer.
    pub closed spec fn start(&self) -> u64 {
        self.window_start
    }

    /// The buffered bytes, from the cursor onward.
    pub closed spec fn buffered(&self) -> Seq<u8> {
        self.data@
    }

    /// The configured bound on how many bytes may wait in the window.
    pub closed spec fn limit(&self) -> Option<usize> {
        self.limit
    }

    /// Whether the insufficient-readahead warning was already raised.
    pub closed spec fn warned(&self) -> bool {
        self.warned
    }

    /// Well-formed: the window respects its bound and stays inside the
    /// addressable range.
    pub closed spec fn wf(&self) -> bool {
        &&& match self.limit {
            Some(l) => self.data@.len() <= l,
            None => true,
        }
        &&& self.window_start as int + self.data@.len() <= u64::MAX as int
    }

    /// A fresh window at the given absolute offset, with the given bound
    /// (no bound when absent), with nothing buffered and no warning raised.
    pub fn new(start: u64, limit: Option<usize>) -> (r: Self)
        ensures
            r.wf(),
            r.start() == start,
            r.buffered() == Seq::<u8>::empty(),
            r.limit() == limit,
            !r.warned(),
    {
        ReadaheadWindow { window_start: start, data: Vec::new(), limit, warned: false }
    }

    /// The absolute offset of the first buffered byte.
    pub fn start_offset(&self) -> (r: u64)
        ensures
            r == self.start(),
    {
        self.window_start
    }

    /// How many bytes are waiting in the window.
    pub fn buffered_len(&self) -> (r: usize)
        ensures
            r == self.buffered().len(),
    {
        self.data.len()
    }

    /// How many more bytes the window may accept before its bound applies
    /// backpressure; nothing when the window is unbounded.
    pub fn capacity_remaining(&self) -> (r: Option<usize>)
        requires
            self.wf(),
        ensures
            match r {
                Some(c) => self.limit() matches Some(l) && c == l - self.buffered().len(),
                None => self.limit() is None,
            },
    {
        match self.limit {
            Some(l) => Some(l - self.data.len()),
            None => None,
        }
    }

    /// Append bytes pulled from the stream. The caller has checked the
    /// remaining capacity; the window never outgrows its bound.
    pub fn accept(&mut self, chunk: &[u8])
        requires
            old(self).wf(),
            match old(self).limit() {
                Some(l) => old(self).buffered().len() + chunk@.len() <= l,
                None => true,
            },
            old(self).start() as int + old(self).buffered().len() + chunk@.len() <= u64::MAX
                as int,
        ensures
            final(self).wf(),
            final(self).start() == old(self).start(),
            final(self).buffered() == old(self).buffered() + chunk@,
            final(self).limit() == old(self).limit(),
            final(self).warned() == old(self).warned(),
    {
        let mut i: usize = 0;
        while i < chunk.len()
            invariant
                i <= chunk.len(),
                self.data@ == old(self).data@ + chunk@.take(i as int),
                self.window_start == old(self).window_start,
                self.limit == old(self).limit,
                self.warned == old(self).warned,
            decreases chunk.len() - i,
        {
            self.data.push(chunk[i]);
            proof {
                assert(old(self).data@ + chunk@.take(i + 1) =~= (old(self).data@ + chunk@.take(
                    i as int,
                )).push(chunk@[i as int]));
            }
            i += 1;
        }
        proof {
            assert(chunk@.take(i as int) =~= chunk@);
        }
    }

    /// Classify a seek: the stream is kept exactly when the target lies in
    /// the buffered window or just past its end.
    pub fn classify_seek(&self, target: u64) -> (r: SeekClass)
        requires
            self.wf(),
        ensures
            r == SeekClass::WithinWindow <==> self.start() <= target <= self.start() as int
                + self.buffered().len(),
    {
        if target >= self.window_start && target - self.window_start <= self.data.len() as u64 {
            SeekClass::WithinWindow
        } else {
            SeekClass::NewStream
        }
    }

    /// Advance the cursor inside the window, discarding the skipped bytes.
    pub fn advance_to(&mut self, target: u64)
        requires
            old(self).wf(),
            old(self).start() <= target,
            target <= old(self).start() as int + old(self).buffered().len(),
        ensures
            final(self).wf(),
            final(self).start() == target,
            final(self).buffered() == old(self).buffered().skip(
                target - old(self).start() as int,
            ),
            final(self).limit() == old(self).limit(),
            final(self).warned() == old(self).warned(),
    {
        let k: usize = (target - self.window_start) as usize;
        let mut rest: Vec<u8> = Vec::new();
        let mut i: usize = k;
        while i < self.data.len()
            invariant
                k <= i <= self.data.len(),
                self == old(self),
                rest@ == self.data@.subrange(k as int, i as int),
            decreases self.data.len() - i,
        {
            rest.push(self.data[i]);
            proof {
                assert(self.data@.subrange(k as int, i + 1) =~= self.data@.subrange(
                    k as int,
                    i as int,
                ).push(self.data@[i as int]));
            }
            i += 1;
        }
        proof {
            assert(rest@ =~= self.data@.skip(k as int));
        }
        self.data = rest;
        self.window_start = target;
    }

    /// Consume up to `buf.len()` bytes from the front of the window into
    /// the front of `buf`, advancing the cursor past them.
    pub fn take_front(&mut self, buf: &mut Vec<u8>) -> (n: usize)
        requires
            old(self).wf(),
        ensures
            final(self).wf(),
            final(buf).len() == old(buf).len(),
            n == if old(buf).len() <= old(self).buffered().len() {
                old(buf).len() as int
            } else {
                old(self).buffered().len() as int
            },
            forall|i: int| 0 <= i < n ==> final(buf)@[i] == old(self).buffered()[i],
            forall|i: int| n <= i < old(buf).len() ==> final(buf)@[i] == old(buf)@[i],
            final(self).start() == old(self).start() + n,
            final(self).buffered() == old(self).buffered().skip(n as int),
            final(self).limit() == old(self).limit(),
            final(self).warned() == old(self).warned(),
    {
        let n: usize = if buf.len() <= self.data.len() {
            buf.len()
        } else {
            self.data.len()
        };
        let mut i: usize = 0;
        while i < n
            invariant
                i <= n,
                n <= self.data.len(),
                n <= buf.len(),
                self == old(self),
                buf.len() == old(buf).len(),
                forall|j: int| 0 <= j < i ==> buf@[j] == self.data@[j],
                forall|j: int| i <= j < buf.len() ==> buf@[j] == old(buf)@[j],
            decreases n - i,
        {
            buf[i] = self.data[i];
            i += 1;
        }
        let target = self.window_start + n as u64;
        self.advance_to(target);
        n
    }

    /// Restart the window at a new absolute offset for a fresh stream,
    /// dropping whatever was buffered.
    pub fn reposition(&mut self, target: u64)
        requires
            old(self).wf(),
        ensures
            final(self).wf(),
            final(self).start() == target,
            final(self).buffered() == Seq::<u8>::empty(),
            final(self).limit() == old(self).limit(),
            final(self).warned() == old(self).warned(),
    {
        self.data = Vec::new();
        self.window_start = target;
    }

    /// Record that a seek forced a new stream. Returns whether the
    /// insufficient-readahead warning should be emitted now: true on the
    /// first occasion and never again.
    pub fn note_new_stream(&mut self) -> (warn: bool)
        requires
            old(self).wf(),
        ensures
            final(self).wf(),
            warn == !old(self).warned(),
            final(self).warned(),
            final(self).start() == old(self).start(),
            final(self).buffered() == old(self).buffered(),
            final(self).limit() == old(self).limit(),
    {
        let warn = !self.warned;
        self.warned = true;
        warn
    }
}

} // verus!
