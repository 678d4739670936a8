use vstd::prelude::*;

verus! {

/// Errors surfaced by the jar writer, the reader and their components.
#[derive(Debug, Clone, PartialEq, Eq, Structural)]
pub enum NippyJarError {
    /// An outside call (compression, dictionary training, succinct
    /// encoding) reported a failure.
    Internal,
    /// The bytes handed to `load` or to a reader do not follow the format.
    Decode,
    /// The data file was written by an engine of another format version.
    UnsupportedVersion(u64),
    /// The number of columns handed in differs from the configured count:
    /// `(expected, got)`.
    ColumnLenMismatch(usize, usize),
    /// A column ran out of values before the requested row count:
    /// `(row, column)`.
    UnexpectedMissingValue(u64, u64),
    /// A dictionary compressor was configured but never trained.
    CompressorNotReady,
    /// A filter operation was requested on a jar without a filter.
    FilterMissing,
    /// The filter already holds as many keys as it was built for.
    FilterMaxCapacity,
    /// A perfect-hash operation was requested on a jar without one.
    PHFMissing,
    /// The perfect hash was queried before its keys were set.
    PHFMissingKeys,
    /// A row number at or past the stored row count.
    RowOutOfBounds(u64),
}

} // verus!
