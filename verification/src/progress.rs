//! Extraction progress accounting.
//!
//! The engine announces the total number of uncompressed bytes exactly once,
//! before any byte is reported extracted, and then reports non-negative
//! increments as members are written. `ProgressCounter` is the accounting
//! core: it enforces that ordering by contract, counts every increment
//! exactly, and remembers the whole history of increments so that the sum
//! of all deltas provably equals the bytes counted.

use vstd::prelude::*;

use crate::errors::UnzipError;

verus! {

/// The surface through which the engine emits extraction progress.
/// Implementations must be safe under concurrent callers and must not block
/// indefinitely.
pub trait UnzipProgressReporter {
    /// Announce the total number of uncompressed bytes the extraction will
    /// produce. The engine calls this exactly once, after the directory
    /// parse and before any `bytes_extracted` call.
    fn total_bytes_expected(&self, expected: u64);

    /// Announce that extraction of the named member is starting, before any
    /// of its bytes flow.
    fn extraction_starting(&self, display_name: &str);

    /// Report that `count` further uncompressed bytes were written.
    fn bytes_extracted(&self, count: u64);

    /// Announce that the named member finished extracting.
    fn extraction_finished(&self, display_name: &str);
}

/// A reporter on which every operation is a no-op.
pub struct NullProgressReporter;

impl UnzipProgressReporter for NullProgressReporter {
    fn total_bytes_expected(&self, expected: u64) {
    }

    fn extraction_starting(&self, display_name: &str) {
    }

    fn bytes_extracted(&self, count: u64) {
    }

    fn extraction_finished(&self, display_name: &str) {
    }
}

/// The sum of a sequence of byte counts.
pub open spec fn sum_u64(s: Seq<u64>) -> int
    decreases s.len(),
{
    if s.len() == 0 {
        0
    } else {
        sum_u64(s.drop_last()) + s.last()
    }
}

/// The sum of the sums of a sequence of delta histories.
pub open spec fn sum_of_sums(ss: Seq<Seq<u64>>) -> int
    decreases ss.len(),
{
    if ss.len() == 0 {
        0
    } else {
        sum_of_sums(ss.drop_last()) + sum_u64(ss.last())
    }
}

/// The engine's shared progress state: the expected total (set once) and the
/// bytes counted so far, which never decrease and always equal the sum of
/// every increment recorded.
pub struct ProgressCounter {
    total: Option<u64>,
    extracted: u64,
    deltas: Ghost<Seq<u64>>,
}

impl ProgressCounter {
    /// The announced total, if it has been announced.
    pub closed spec fn total(&self) -> Option<u64> {
        self.total
    }

    /// The bytes counted so far.
    pub closed spec fn extracted(&self) -> u64 {
        self.extracted
    }

    /// Every increment recorded, in order.
    pub closed spec fn deltas(&self) -> Seq<u64> {
        self.deltas@
    }

    /// Well-formed: the count equals the sum of the recorded increments,
    /// and no increment is recorded before the total is announced.
    pub closed spec fn wf(&self) -> bool {
        &&& self.extracted == sum_u64(self.deltas@)
        &&& self.total is None ==> self.deltas@.len() == 0
    }

    /// A fresh counter: no total announced, nothing counted.
    pub fn new() -> (r: Self)
        ensures
            r.wf(),
            r.total() is None,
            r.extracted() == 0,
            r.deltas() == Seq::<u64>::empty(),
    {
        ProgressCounter { total: None, extracted: 0u64, deltas: Ghost(Seq::empty()) }
    }

    /// Announce the expected total. Allowed exactly once, and only before
    /// any increment: the requires clauses are how the engine is held to
    /// that protocol.
    pub fn set_total(&mut self, expected: u64)
        requires
            old(self).wf(),
            old(self).total() is None,
        ensures
            final(self).wf(),
            final(self).total() == Some(expected),
            final(self).extracted() == old(self).extracted(),
            final(self).deltas() == old(self).deltas(),
    {
        self.total = Some(expected);
    }

    /// Record `delta` further bytes extracted. Allowed only after the total
    /// was announced; the count grows by exactly `delta`.
    pub fn add_extracted(&mut self, delta: u64)
        requires
            old(self).wf(),
            old(self).total() is Some,
            old(self).extracted() + delta <= u64::MAX,
        ensures
            final(self).wf(),
            final(self).total() == old(self).total(),
            final(self).extracted() == old(self).extracted() + delta,
            final(self).deltas() == old(self).deltas().push(delta),
    {
        proof {
            assert(self.deltas@.push(delta).drop_last() =~= self.deltas@);
        }
        self.extracted = self.extracted + delta;
        self.deltas = Ghost(self.deltas@.push(delta));
    }

    /// The bytes counted so far.
    pub fn extracted_so_far(&self) -> (r: u64)
        ensures
            r == self.extracted(),
    {
        self.extracted
    }

    /// The announced total, or an error when none was announced yet.
    pub fn announced_total(&self) -> (r: Result<u64, UnzipError>)
        ensures
            match r {
                Ok(t) => self.total() == Some(t),
                Err(e) => self.total() is None && e == UnzipError::ArchiveMalformed,
            },
    {
        match self.total {
            Some(t) => Ok(t),
            None => Err(UnzipError::ArchiveMalformed),
        }
    }
}

/// Concatenating delta histories adds their sums.
pub proof fn lemma_sum_append(a: Seq<u64>, b: Seq<u64>)
    ensures
        sum_u64(a + b) == sum_u64(a) + sum_u64(b),
    decreases b.len(),
{
    if b.len() == 0 {
        assert(a + b =~= a);
    } else {
        lemma_sum_append(a, b.drop_last());
        assert((a + b).drop_last() =~= a + b.drop_last());
        assert((a + b).last() == b.last());
    }
}

/// The sum of a flattened family of delta histories is the sum of the
/// histories' own sums.
pub proof fn lemma_sum_flatten(ss: Seq<Seq<u64>>)
    ensures
        sum_u64(ss.flatten()) == sum_of_sums(ss),
    decreases ss.len(),
{
    ss.lemma_flatten_and_flatten_alt_are_equivalent();
    if ss.len() > 0 {
        lemma_sum_flatten(ss.drop_last());
        ss.drop_last().lemma_flatten_and_flatten_alt_are_equivalent();
        lemma_sum_append(ss.drop_last().flatten_alt(), ss.last());
    }
}

/// When two families agree member by member on their sums, their overall
/// sums agree.
pub proof fn lemma_sum_pointwise(per_member: Seq<Seq<u64>>, sizes: Seq<u64>)
    requires
        per_member.len() == sizes.len(),
        forall|i: int|
            0 <= i < sizes.len() ==> sum_u64(#[trigger] per_member[i]) == sizes[i],
    ensures
        sum_of_sums(per_member) == sum_u64(sizes),
    decreases sizes.len(),
{
    if sizes.len() > 0 {
        lemma_sum_pointwise(per_member.drop_last(), sizes.drop_last());
    }
}

/// Law: on success the bytes counted equal the archive's total uncompressed
/// size. Precisely: when the recorded increments split into one history per
/// member, and each member's history sums to that member's uncompressed
/// size, the counter's value is exactly the sum of the uncompressed sizes.
pub proof fn lemma_extracted_equals_total(
    counter: ProgressCounter,
    per_member: Seq<Seq<u64>>,
    sizes: Seq<u64>,
)
    requires
        counter.wf(),
        counter.deltas() == per_member.flatten(),
        per_member.len() == sizes.len(),
        forall|i: int|
            0 <= i < sizes.len() ==> sum_u64(#[trigger] per_member[i]) == sizes[i],
    ensures
        counter.extracted() == sum_u64(sizes),
{
    lemma_sum_flatten(per_member);
    lemma_sum_pointwise(per_member, sizes);
}

} // verus!
