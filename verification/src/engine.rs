//! The extraction engine's decisions.
//!
//! The engine enumerates archive members from the central directory,
//! announces the total uncompressed byte count once, and dispatches one
//! extraction task per member. Everything the engine decides — which names
//! are safe, where each member lands under the output root, what the total
//! is — is computed here over plain values; opening files, creating
//! directories and running the decompressor are the caller's side of the
//! bargain.

use vstd::prelude::*;

use crate::errors::UnzipError;
use crate::paths::{spec_is_directory_name, spec_sanitize};
use crate::paths::{is_directory_name, sanitize_member_name};
use crate::progress::sum_u64;

verus! {

/// The engine's configuration.
pub struct UnzipOptions {
    /// Where to place the extracted files; when absent, the current working
    /// directory at engine construction is used.
    pub output_directory: Option<String>,
    /// Force serial extraction on the calling thread, intended for remote
    /// sources where concurrent streams would multiply bandwidth.
    pub single_threaded: bool,
}

/// One archive member as the engine sees it: the fields of the central
/// directory that extraction decisions depend on, as plain values.
pub struct MemberInfo {
    /// The name as stored in the archive, with `/` separating directories.
    pub name: Vec<u8>,
    /// The member's uncompressed size in bytes.
    pub uncompressed_size: u64,
    /// The member's compressed size in bytes.
    pub compressed_size: u64,
    /// The offset of the member's local header in the archive.
    pub header_offset: u64,
    /// Whether the central directory marks the member as a directory.
    pub is_directory: bool,
}

/// What to do for one member: create a directory, or extract a file, at the
/// given safe relative components under the output root.
pub enum MemberPlan {
    /// Create this directory (and any missing parents) under the output
    /// root; an empty component list is the output root itself.
    MakeDirectory { components: Vec<Vec<u8>> },
    /// Create the parent directories, then write the member's bytes to this
    /// path under the output root, truncating an existing file.
    ExtractFile { components: Vec<Vec<u8>> },
}

impl MemberPlan {
    /// Whether the plan creates a directory rather than a file.
    pub open spec fn is_dir(&self) -> bool {
        match self {
            MemberPlan::MakeDirectory { .. } => true,
            MemberPlan::ExtractFile { .. } => false,
        }
    }

    /// The planned components relative to the output root.
    pub open spec fn components_view(&self) -> Seq<Seq<u8>> {
        match self {
            MemberPlan::MakeDirectory { components } => components.deep_view(),
            MemberPlan::ExtractFile { components } => components.deep_view(),
        }
    }
}

/// The decision for one member name: its safe relative components and
/// whether it is a directory (marked as one, or named with a trailing
/// separator), or the path-unsafe error when the name is absolute, escapes
/// the output root, or names a file with no components at all.
pub open spec fn spec_plan_member(name: Seq<u8>, marked_directory: bool) -> Result<
    (bool, Seq<Seq<u8>>),
    UnzipError,
> {
    match spec_sanitize(name) {
        None => Err(UnzipError::PathUnsafe),
        Some(comps) => {
            let dir = marked_directory || spec_is_directory_name(name);
            if !dir && comps.len() == 0 {
                Err(UnzipError::PathUnsafe)
            } else {
                Ok((dir, comps))
            }
        },
    }
}

/// Decide where one member lands: reject unsafe names before any
/// filesystem operation, and classify the member as directory or file.
pub fn plan_member(member: &MemberInfo) -> (r: Result<MemberPlan, UnzipError>)
    ensures
        match r {
            Ok(plan) => spec_plan_member(member.name@, member.is_directory) == Ok::<_, UnzipError>(
                (plan.is_dir(), plan.components_view()),
            ),
            Err(e) => spec_plan_member(member.name@, member.is_directory) == Err::<
                (bool, Seq<Seq<u8>>),
                _,
            >(e),
        },
{
    let components = match sanitize_member_name(member.name.as_slice()) {
        Ok(c) => c,
        Err(e) => {
            return Err(e);
        },
    };
    let dir = member.is_directory || is_directory_name(member.name.as_slice());
    if dir {
        Ok(MemberPlan::MakeDirectory { components })
    } else if components.len() == 0 {
        Err(UnzipError::PathUnsafe)
    } else {
        Ok(MemberPlan::ExtractFile { components })
    }
}

/// The uncompressed sizes of a member list, in directory order.
pub open spec fn spec_member_sizes(ms: Seq<MemberInfo>) -> Seq<u64> {
    ms.map_values(|m: MemberInfo| m.uncompressed_size)
}

/// A prefix of a byte-count sequence never sums to more than the whole.
pub proof fn lemma_sum_prefix_le(s: Seq<u64>, k: int)
    requires
        0 <= k <= s.len(),
    ensures
        sum_u64(s.take(k)) <= sum_u64(s),
    decreases s.len() - k,
{
    if k == s.len() {
        assert(s.take(k) =~= s);
    } else {
        assert(s.take(k + 1).drop_last() =~= s.take(k));
        lemma_sum_prefix_le(s, k + 1);
    }
}

/// The total number of uncompressed bytes the archive will produce: the sum
/// of the members' uncompressed sizes, or nothing when that sum cannot be
/// represented. The engine reports this to the progress reporter exactly
/// once, before extraction begins.
pub fn total_uncompressed(members: &Vec<MemberInfo>) -> (r: Option<u64>)
    ensures
        match r {
            Some(t) => t == sum_u64(spec_member_sizes(members@)),
            None => sum_u64(spec_member_sizes(members@)) > u64::MAX,
        },
{
    let ghost sizes = spec_member_sizes(members@);
    let mut acc: u64 = 0;
    let mut i: usize = 0;
    proof {
        assert(sizes.take(0) =~= Seq::<u64>::empty());
    }
    while i < members.len()
        invariant
            i <= members.len(),
            sizes == spec_member_sizes(members@),
            sizes.len() == members@.len(),
            acc == sum_u64(sizes.take(i as int)),
        decreases members.len() - i,
    {
        let size = members[i].uncompressed_size;
        proof {
            assert(sizes.take(i + 1).drop_last() =~= sizes.take(i as int));
            assert(sizes.take(i + 1).last() == size);
        }
        if size > u64::MAX - acc {
            proof {
                lemma_sum_prefix_le(sizes, i + 1);
            }
            return None;
        }
        acc = acc + size;
        i += 1;
    }
    proof {
        assert(sizes.take(i as int) =~= sizes);
    }
    Some(acc)
}

/// Plan the whole archive in directory order: one plan per member, or the
/// first member's error. No plan is produced — so nothing is written — when
/// any member's name is unsafe.
pub fn plan_archive(members: &Vec<MemberInfo>) -> (r: Result<Vec<MemberPlan>, UnzipError>)
    ensures
        match r {
            Ok(plans) => {
                &&& plans@.len() == members@.len()
                &&& forall|i: int|
                    0 <= i < members@.len() ==> spec_plan_member(
                        members@[i].name@,
                        members@[i].is_directory,
                    ) == Ok::<_, UnzipError>(
                        ((#[trigger] plans@[i]).is_dir(), plans@[i].components_view()),
                    )
            },
            Err(e) => exists|i: int|
                {
                    &&& 0 <= i < members@.len()
                    &&& #[trigger] spec_plan_member(members@[i].name@, members@[i].is_directory)
                        == Err::<(bool, Seq<Seq<u8>>), _>(e)
                    &&& forall|j: int|
                        0 <= j < i ==> (#[trigger] spec_plan_member(
                            members@[j].name@,
                            members@[j].is_directory,
                        )) is Ok
                },
        },
{
    let mut plans: Vec<MemberPlan> = Vec::new();
    let mut i: usize = 0;
    while i < members.len()
        invariant
            i <= members.len(),
            plans@.len() == i,
            forall|j: int|
                0 <= j < i ==> spec_plan_member(members@[j].name@, members@[j].is_directory)
                    == Ok::<_, UnzipError>(
                    ((#[trigger] plans@[j]).is_dir(), plans@[j].components_view()),
                ),
            forall|j: int|
                0 <= j < i ==> (#[trigger] spec_plan_member(
                    members@[j].name@,
                    members@[j].is_directory,
                )) is Ok,
        decreases members.len() - i,
    {
        match plan_member(&members[i]) {
            Ok(plan) => {
                plans.push(plan);
            },
            Err(e) => {
                proof {
                    assert(spec_plan_member(
                        members@[i as int].name@,
                        members@[i as int].is_directory,
                    ) == Err::<(bool, Seq<Seq<u8>>), UnzipError>(e));
                }
                return Err(e);
            },
        }
        i += 1;
    }
    Ok(plans)
}

} // verus!
