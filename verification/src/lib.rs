//! Random access over a forward-only byte source.
//!
//! A [`GreedyAccessReader`] wraps a source that only supports sequential,
//! forward reads and offers three ways to look at its bytes: fetching the
//! byte at an arbitrary absolute index, fetching an arbitrary contiguous
//! range, and conventional buffered sequential reading. It does so by
//! greedily retaining every byte pulled from the source in a growable
//! buffer, so that the source itself is only ever read forward and never
//! re-read. Indices are relative to the position of the source when it was
//! attached, until an explicit compaction ([`GreedyAccessReader::clear`])
//! re-bases them.

pub mod greedy;
pub mod source;

pub use greedy::get_unbounded;
pub use greedy::GreedyAccessReader;
pub use greedy::ReaderError;
pub use greedy::SliceEnd;
pub use source::ByteSource;
pub use source::FailingSource;
pub use source::RepeatSource;
pub use source::SourceError;
pub use source::VecSource;
