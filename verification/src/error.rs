use vstd::prelude::*;

verus! {

/// Every way decoding can fail.
///
/// A decode failure concerns one chunk only and does not stop the stream;
/// `IoFailure` reports that the byte source itself failed, after which a
/// caller should stop advancing the stream.
#[derive(Debug, Clone, Copy, PartialEq, Eq)]
pub enum Error {
    /// Fewer header bytes were supplied than the fixed header layout needs.
    HeaderTooShort,
    /// A chunk holds no element separator, so no tag can be told from a body.
    MissingElementSeparator,
    /// The bytes before the first element separator are empty or longer than
    /// four bytes.
    InvalidTagLength,
    /// The underlying byte source failed to produce bytes.
    IoFailure,
}

} // verus!
