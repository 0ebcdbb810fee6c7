use vstd::prelude::*;

verus! {

/// Why a manifest text was rejected by the parser.
#[derive(Clone, Copy, Debug, PartialEq, Eq, Structural)]
pub enum ParseReason {
    /// Neither recognizable master nor media structure: the `#EXTM3U`
    /// header is absent, or no variant or segment tag occurs.
    Unrecognized,
    /// An `#EXTINF` tag whose duration value could not be read.
    InvalidDuration,
    /// An `#EXT-X-MAP` tag without a readable quoted URI.
    InvalidMap,
    /// A variant or segment declaration with no following URI line.
    DanglingTag,
}

/// Error taxonomy of the streaming core. Each stage failure surfaces as the
/// specific variant, so a caller can tell a server problem from a network
/// problem from a malformed manifest.
#[derive(Debug)]
pub enum StreamError {
    /// A fetch was attempted before any base URL was configured.
    NoBaseUrl,
    /// The transport produced an HTTP response outside the 2xx range.
    NetworkError { status: u16, status_text: String },
    /// A connection-level failure below HTTP semantics.
    TransportFailure,
    /// Malformed or unrecognized manifest text.
    ParseError { reason: ParseReason },
    /// A master playlist listed no variant to select from.
    NoVariants,
    /// A media playlist fetch yielded a master playlist (or vice versa).
    UnexpectedPlaylistKind,
    /// A declared initialization map could not be fetched.
    MissingInitSegment,
    /// A media segment fetch failed; carries the position and the fetch error.
    SegmentFetchFailed { index: usize, cause: Box<StreamError> },
}

/// Transient failures are the ones a retry policy may try again; structural
/// mismatches are not.
pub open spec fn is_transient(e: StreamError) -> bool {
    e is NetworkError || e is TransportFailure
}

} // verus!
