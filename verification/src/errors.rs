//! The error taxonomy of the engine. Every fatal condition surfaced by the
//! core maps to exactly one of these kinds; partial output is never cleaned
//! up after a failure.

use vstd::prelude::*;

verus! {

/// One kind per fatal condition the engine can hit.
#[derive(Clone, Copy, Debug, PartialEq, Eq, Structural)]
pub enum UnzipError {
    /// The local file could not be opened, or the remote reader could not
    /// be constructed.
    SourceOpen,
    /// The ZIP library rejected the central directory or a member header.
    ArchiveMalformed,
    /// Decompression or checksum failure for one member.
    MemberExtract,
    /// The output directory, a parent directory, or a destination file
    /// could not be created.
    FilesystemCreate,
    /// A member name escapes the output root or is absolute.
    PathUnsafe,
    /// A network read failed mid-stream.
    HttpTransient,
    /// A seek was directed to a negative or unrepresentable position.
    InvalidSeek,
    /// A read ended before the requested bytes were available.
    UnexpectedEof,
}

/// The description owed for each error kind.
pub open spec fn spec_describe(e: UnzipError) -> Seq<char> {
    match e {
        UnzipError::SourceOpen => "could not open the archive source"@,
        UnzipError::ArchiveMalformed => "the archive is malformed"@,
        UnzipError::MemberExtract => "a member failed to extract"@,
        UnzipError::FilesystemCreate => "could not create an output path"@,
        UnzipError::PathUnsafe => "a member name escapes the output directory"@,
        UnzipError::HttpTransient => "a network read failed"@,
        UnzipError::InvalidSeek => "seek to an invalid position"@,
        UnzipError::UnexpectedEof => "the source ended unexpectedly"@,
    }
}

impl UnzipError {
    /// A short, stable description of the error kind.
    pub fn describe(&self) -> (r: &'static str)
        ensures
            r@ == spec_describe(*self),
    {
        match self {
            UnzipError::SourceOpen => "could not open the archive source",
            UnzipError::ArchiveMalformed => "the archive is malformed",
            UnzipError::MemberExtract => "a member failed to extract",
            UnzipError::FilesystemCreate => "could not create an output path",
            UnzipError::PathUnsafe => "a member name escapes the output directory",
            UnzipError::HttpTransient => "a network read failed",
            UnzipError::InvalidSeek => "seek to an invalid position",
            UnzipError::UnexpectedEof => "the source ended unexpectedly",
        }
    }
}

} // verus!
