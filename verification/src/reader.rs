//! A cloneable, seekable reader over one shared byte source.
//!
//! Many extraction workers need independent cursors into a single archive
//! without each holding its own file descriptor or connection. The reader
//! shares one source by reference count; each handle keeps only its own
//! cursor, and every read is a positional transaction against the source,
//! so a handle's reads are unaffected by the positions of its clones.

use vstd::prelude::*;
use std::sync::Arc;

use crate::errors::UnzipError;

verus! {

/// Relies on std's `Arc::clone`: the returned pointer refers to the same
/// allocation as the argument.
#[verifier::external_body]
fn clone_arc<T>(v: &Arc<T>) -> (r: Arc<T>)
    ensures
        r == *v,
{
    v.clone()
}

/// A readable stream whose total length is known in advance.
pub trait HasLength {
    /// The length the stream reports.
    spec fn spec_len(&self) -> u64;

    /// Return the current total length of this stream.
    fn len(&self) -> (r: u64)
        ensures
            r == self.spec_len(),
    ;
}

/// An addressable byte range of known length: the engine's abstraction over
/// a local file or a remote object reached through ranged requests.
///
/// The visible content is fixed for the lifetime of the source. Reads are
/// positional, so one shared source can serve many independently positioned
/// handles; a source that keeps internal state (an OS file cursor, a network
/// buffer) serializes its own transactions behind this interface.
pub trait SeekableSource: HasLength {
    /// The full, fixed content of the source.
    spec fn content(&self) -> Seq<u8>;

    /// Whether reads on this source can never fail. An in-memory source is
    /// infallible; a file or network source is not.
    spec fn infallible(&self) -> bool;

    /// The reported length is exactly the content's length.
    proof fn length_agrees(&self)
        ensures
            self.spec_len() == self.content().len(),
    ;

    /// Read up to `buf.len()` bytes starting at absolute offset `pos` into
    /// the front of `buf`, returning how many bytes were read. A read at or
    /// past the end of the content delivers zero bytes without error; a read
    /// strictly inside the content delivers at least one byte on success; an
    /// infallible source always succeeds.
    fn read_at(&self, pos: u64, buf: &mut Vec<u8>) -> (r: Result<usize, UnzipError>)
        ensures
            final(buf).len() == old(buf).len(),
            pos >= self.content().len() ==> r is Ok,
            self.infallible() ==> r is Ok,
            match r {
                Ok(n) => {
                    &&& n <= old(buf).len()
                    &&& pos >= self.content().len() ==> n == 0
                    &&& (pos < self.content().len() && old(buf).len() > 0) ==> n >= 1
                    &&& pos as int + n as int <= self.content().len() || n == 0
                    &&& forall|i: int| 0 <= i < n ==> final(buf)@[i] == self.content()[pos as int + i]
                    &&& forall|i: int| n <= i < old(buf).len() ==> final(buf)@[i] == old(buf)@[i]
                },
                Err(_) => true,
            },
    ;
}

/// An in-memory byte source: the whole object is already present as bytes.
pub struct ByteSource {
    data: Vec<u8>,
}

impl ByteSource {
    /// Wrap a byte vector as a source.
    pub fn new(data: Vec<u8>) -> (r: Self)
        ensures
            r.content() == data@,
            r.infallible(),
    {
        ByteSource { data }
    }
}

impl HasLength for ByteSource {
    closed spec fn spec_len(&self) -> u64 {
        self.data.len() as u64
    }

    fn len(&self) -> (r: u64)
    {
        self.data.len() as u64
    }
}

impl SeekableSource for ByteSource {
    closed spec fn content(&self) -> Seq<u8> {
        self.data@
    }

    closed spec fn infallible(&self) -> bool {
        true
    }

    proof fn length_agrees(&self)
    {
    }

    fn read_at(&self, pos: u64, buf: &mut Vec<u8>) -> (r: Result<usize, UnzipError>)
        ensures
            r is Ok,
    {
        let dlen: usize = self.data.len();
        if pos >= dlen as u64 {
            return Ok(0);
        }
        let start: usize = pos as usize;
        let avail: usize = dlen - start;
        let n: usize = if buf.len() < avail {
            buf.len()
        } else {
            avail
        };
        let mut i: usize = 0;
        while i < n
            invariant
                n <= buf.len(),
                start + n <= self.data.len(),
                i <= n,
                buf.len() == old(buf).len(),
                forall|j: int| 0 <= j < i ==> buf@[j] == self.data@[start + j],
                forall|j: int| i <= j < buf.len() ==> buf@[j] == old(buf)@[j],
            decreases n - i,
        {
            buf[i] = self.data[start + i];
            i += 1;
        }
        Ok(n)
    }
}

/// Where a seek is directed.
#[derive(Clone, Copy, Debug, PartialEq, Eq, Structural)]
pub enum SeekFrom {
    /// An absolute offset from the start of the stream.
    Start(u64),
    /// An offset from the end of the stream (usually non-positive).
    End(i64),
    /// An offset from the current position.
    Current(i64),
}

/// The position a seek resolves to, with checked signed arithmetic: a seek
/// directed to a negative position, or past what a position can represent,
/// is an invalid-seek error. Seeking past the end of the stream is allowed;
/// a later read there simply delivers zero bytes.
pub open spec fn spec_resolve_seek(pos: u64, len: u64, from: SeekFrom) -> Result<u64, UnzipError> {
    match from {
        SeekFrom::Start(p) => Ok(p),
        SeekFrom::End(k) => spec_checked_offset(len, k),
        SeekFrom::Current(k) => spec_checked_offset(pos, k),
    }
}

/// `base + delta` when that lands in `[0, u64::MAX]`, otherwise an error.
pub open spec fn spec_checked_offset(base: u64, delta: i64) -> Result<u64, UnzipError> {
    if 0 <= base as int + delta as int <= u64::MAX as int {
        Ok((base as int + delta as int) as u64)
    } else {
        Err(UnzipError::InvalidSeek)
    }
}

/// Apply a signed offset to an unsigned position, rejecting underflow and
/// overflow instead of wrapping.
pub fn checked_offset(base: u64, delta: i64) -> (r: Result<u64, UnzipError>)
    ensures
        r == spec_checked_offset(base, delta),
{
    if delta >= 0 {
        let d: u64 = delta as u64;
        if base <= u64::MAX - d {
            Ok(base + d)
        } else {
            Err(UnzipError::InvalidSeek)
        }
    } else {
        let mag: u64 = (-(delta as i128)) as u64;
        if base >= mag {
            Ok(base - mag)
        } else {
            Err(UnzipError::InvalidSeek)
        }
    }
}

/// A reader which refers to its underlying source by reference count, and
/// thus can be cloned cheaply. It supports seeking; each cloned instance
/// maintains its own cursor into the shared source, and every read is a
/// positional transaction at that cursor.
pub struct CloneableSeekableReader<R: SeekableSource> {
    source: Arc<R>,
    pos: u64,
    file_length: Option<u64>,
}

impl<R: SeekableSource> CloneableSeekableReader<R> {
    /// The fixed content of the shared underlying source.
    pub closed spec fn content(&self) -> Seq<u8> {
        (*self.source).content()
    }

    /// This handle's own cursor.
    pub closed spec fn pos(&self) -> u64 {
        self.pos
    }

    /// Whether the shared underlying source can never fail a read.
    pub closed spec fn infallible(&self) -> bool {
        (*self.source).infallible()
    }

    /// Well-formed: a cached length, once taken, agrees with the source.
    pub closed spec fn wf(&self) -> bool {
        match self.file_length {
            Some(l) => l == self.content().len(),
            None => true,
        }
    }

    /// Constructor. Takes ownership of the underlying source; its total
    /// length is expected to be fixed and unchanging.
    pub fn new(source: R) -> (r: Self)
        ensures
            r.wf(),
            r.content() == source.content(),
            r.pos() == 0,
            r.infallible() == source.infallible(),
    {
        CloneableSeekableReader { source: Arc::new(source), pos: 0u64, file_length: None }
    }

    /// Determine the length of the underlying stream, caching it on first
    /// use so later end-relative seeks need not consult the source again.
    pub fn ascertain_file_length(&mut self) -> (r: u64)
        requires
            old(self).wf(),
        ensures
            final(self).wf(),
            final(self).content() == old(self).content(),
            final(self).pos() == old(self).pos(),
            final(self).infallible() == old(self).infallible(),
            r == old(self).content().len(),
    {
        match self.file_length {
            Some(l) => l,
            None => {
                proof {
                    (*self.source).length_agrees();
                }
                let len = self.source.len();
                self.file_length = Some(len);
                len
            },
        }
    }

    /// Read at this handle's cursor: one positional transaction against the
    /// shared source, advancing the cursor by exactly the bytes delivered.
    /// Together with `seek`, this pins the clone-independence law: after
    /// `seek(SeekFrom::Start(k))`, a successful read of `n` bytes delivers
    /// exactly the source bytes `[k, k + n)`, whatever any other clone of
    /// this reader has done meanwhile. A read at or past the end of the
    /// content delivers zero bytes without error, and a read on an
    /// infallible source always succeeds.
    pub fn read(&mut self, buf: &mut Vec<u8>) -> (r: Result<usize, UnzipError>)
        requires
            old(self).wf(),
        ensures
            final(self).wf(),
            final(self).content() == old(self).content(),
            final(self).infallible() == old(self).infallible(),
            final(buf).len() == old(buf).len(),
            old(self).pos() >= old(self).content().len() ==> r is Ok,
            old(self).infallible() ==> r is Ok,
            match r {
                Ok(n) => {
                    &&& n <= old(buf).len()
                    &&& old(self).pos() >= old(self).content().len() ==> n == 0
                    &&& (old(self).pos() < old(self).content().len() && old(buf).len() > 0)
                        ==> n >= 1
                    &&& old(self).pos() as int + n as int <= old(self).content().len() || n == 0
                    &&& final(self).pos() == old(self).pos() + n
                    &&& forall|i: int|
                        0 <= i < n ==> final(buf)@[i] == old(self).content()[old(
                            self,
                        ).pos() as int + i]
                    &&& forall|i: int| n <= i < old(buf).len() ==> final(buf)@[i] == old(buf)@[i]
                },
                Err(_) => final(self).pos() == old(self).pos(),
            },
    {
        proof {
            (*self.source).length_agrees();
        }
        let read_result = self.source.read_at(self.pos, buf);
        if let Ok(bytes_read) = read_result {
            self.pos = self.pos + bytes_read as u64;
        }
        read_result
    }

    /// Read exactly `buf.len()` bytes at the cursor, or fail. Success is
    /// possible only when the requested range lies wholly inside the
    /// source, and is owed there when the source is infallible; past the
    /// end of an infallible source the failure is precisely the unexpected
    /// end of input. On success the buffer holds exactly the source bytes
    /// at the old cursor and the cursor lands just past them.
    pub fn read_exact(&mut self, buf: &mut Vec<u8>) -> (r: Result<(), UnzipError>)
        requires
            old(self).wf(),
        ensures
            final(self).wf(),
            final(self).content() == old(self).content(),
            final(self).infallible() == old(self).infallible(),
            final(buf).len() == old(buf).len(),
            old(buf).len() == 0 ==> r is Ok,
            (old(buf).len() > 0 && old(self).pos() as int + old(buf).len() > old(
                self,
            ).content().len()) ==> r is Err,
            (old(self).infallible() && old(self).pos() as int + old(buf).len() <= old(
                self,
            ).content().len()) ==> r is Ok,
            (old(self).infallible() && old(buf).len() > 0 && old(self).pos() as int + old(
                buf,
            ).len() > old(self).content().len()) ==> r == Err::<(), UnzipError>(
                UnzipError::UnexpectedEof,
            ),
            match r {
                Ok(_) => {
                    &&& old(buf).len() > 0 ==> old(self).pos() as int + old(buf).len() <= old(
                        self,
                    ).content().len()
                    &&& final(self).pos() == old(self).pos() + old(buf).len()
                    &&& forall|i: int|
                        0 <= i < old(buf).len() ==> final(buf)@[i] == old(self).content()[old(
                            self,
                        ).pos() as int + i]
                },
                Err(_) => true,
            },
    {
        let want: usize = buf.len();
        let mut filled: usize = 0;
        while filled < want
            invariant
                self.wf(),
                want == old(buf).len(),
                self.content() == old(self).content(),
                self.infallible() == old(self).infallible(),
                buf.len() == want,
                filled <= want,
                self.pos() == old(self).pos() + filled,
                filled > 0 ==> old(self).pos() as int + filled <= self.content().len(),
                forall|i: int|
                    0 <= i < filled ==> buf@[i] == self.content()[old(self).pos() as int + i],
            decreases want - filled,
        {
            let mut chunk: Vec<u8> = Vec::new();
            chunk.resize(want - filled, 0u8);
            let n = match self.read(&mut chunk) {
                Ok(n) => n,
                Err(e) => {
                    return Err(e);
                },
            };
            if n == 0 {
                // The cursor reached the end of the source before the buffer
                // was full.
                return Err(UnzipError::UnexpectedEof);
            }
            let mut j: usize = 0;
            while j < n
                invariant
                    filled + n <= want,
                    buf.len() == want,
                    chunk.len() >= n,
                    j <= n,
                    forall|i: int|
                        0 <= i < filled + j ==> buf@[i] == self.content()[old(
                            self,
                        ).pos() as int + i],
                    forall|i: int|
                        0 <= i < n ==> chunk@[i] == self.content()[old(
                            self,
                        ).pos() as int + filled + i],
                    self.wf(),
                    self.content() == old(self).content(),
                    self.infallible() == old(self).infallible(),
                    self.pos() == old(self).pos() + filled + n,
                decreases n - j,
            {
                buf[filled + j] = chunk[j];
                j += 1;
            }
            filled = filled + n;
        }
        Ok(())
    }

    /// Reposition this handle's cursor. Pure arithmetic on the cursor: the
    /// underlying source is consulted only to learn its length for
    /// end-relative seeks. Seeking past the end is permitted; seeking to a
    /// negative or unrepresentable position fails and leaves the cursor
    /// where it was.
    pub fn seek(&mut self, from: SeekFrom) -> (r: Result<u64, UnzipError>)
        requires
            old(self).wf(),
        ensures
            final(self).wf(),
            final(self).content() == old(self).content(),
            final(self).infallible() == old(self).infallible(),
            r == spec_resolve_seek(
                old(self).pos(),
                old(self).content().len() as u64,
                from,
            ),
            match r {
                Ok(p) => final(self).pos() == p,
                Err(_) => final(self).pos() == old(self).pos(),
            },
    {
        proof {
            (*self.source).length_agrees();
        }
        let new_pos = match from {
            SeekFrom::Start(p) => Ok(p),
            SeekFrom::End(k) => {
                let file_len = self.ascertain_file_length();
                checked_offset(file_len, k)
            },
            SeekFrom::Current(k) => checked_offset(self.pos, k),
        };
        if let Ok(p) = new_pos {
            self.pos = p;
        }
        new_pos
    }
}

impl<R: SeekableSource> Clone for CloneableSeekableReader<R> {
    /// A clone shares the underlying source and starts at the parent's
    /// current position; afterwards the two cursors move independently.
    fn clone(&self) -> (r: Self)
        ensures
            r.content() == self.content(),
            r.pos() == self.pos(),
            r.infallible() == self.infallible(),
            self.wf() ==> r.wf(),
    {
        CloneableSeekableReader {
            source: clone_arc(&self.source),
            pos: self.pos,
            file_length: self.file_length,
        }
    }
}

} // verus!
