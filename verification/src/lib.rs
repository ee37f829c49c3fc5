//! Parallel-unzip engine core: a cloneable seekable reader over a shared
//! byte source, checked seek arithmetic, archive member planning with path
//! containment, extraction progress accounting, and the read-ahead window
//! used when the archive is served over ranged HTTP requests.

pub mod engine;
pub mod errors;
pub mod paths;
pub mod progress;
pub mod readahead;
pub mod reader;

pub use engine::{MemberInfo, MemberPlan, UnzipOptions};
pub use errors::UnzipError;
pub use progress::{NullProgressReporter, ProgressCounter, UnzipProgressReporter};
pub use reader::{ByteSource, CloneableSeekableReader, HasLength, SeekFrom, SeekableSource};
