//! Errors reported by the library.

use vstd::prelude::*;

verus! {

/// `SeekErrorKind` is a list of generic reasons why a seek may fail.
#[derive(Debug, Clone, Copy, PartialEq, Eq, Structural)]
pub enum SeekErrorKind {
    /// The stream is not seekable at all.
    Unseekable,
    /// The stream can only be seeked forward.
    ForwardOnly,
    /// The timestamp to seek to is out of range.
    OutOfRange,
}

impl SeekErrorKind {
    /// A human readable description of the seek error.
    pub fn as_str(&self) -> (s: &'static str)
        ensures
            *self == SeekErrorKind::Unseekable ==> s@ == "stream is not seekable"@,
            *self == SeekErrorKind::ForwardOnly ==> s@ == "stream can only be seeked forward"@,
            *self == SeekErrorKind::OutOfRange
                ==> s@ == "requested seek timestamp is out-of-range for stream"@,
    {
        match *self {
            SeekErrorKind::Unseekable => "stream is not seekable",
            SeekErrorKind::ForwardOnly => "stream can only be seeked forward",
            SeekErrorKind::OutOfRange => "requested seek timestamp is out-of-range for stream",
        }
    }
}

/// The kind of an input error raised while reading a stream.
#[derive(Debug, Clone, Copy, PartialEq, Eq, Structural)]
pub enum IoErrorKind {
    /// The stream ended before the requested bytes could be read.
    UnexpectedEof,
    /// A bit-level read hit a caller supplied limit.
    Other,
}

/// `Error` provides an enumeration of all possible errors reported by Sonata.
#[derive(Debug, Clone, Copy, PartialEq, Eq)]
pub enum Error {
    /// An IO error occured while reading, writing, or seeking the stream.
    IoError(IoErrorKind),
    /// The stream contained malformed data and could not be decoded or demuxed.
    DecodeError(&'static str),
    /// The stream could not be seeked.
    SeekError(SeekErrorKind),
    /// An unsupported container or codec feature was encounted.
    Unsupported(&'static str),
    /// A default or user-defined limit was reached while decoding or demuxing the stream. Limits
    /// are used to prevent denial-of-service attacks from malicious streams.
    LimitError(&'static str, usize),
}

/// The end of a stream was reached while reading.
pub open spec fn is_eof(e: Error) -> bool {
    e == Error::IoError(IoErrorKind::UnexpectedEof)
}

/// Convenience function to create a decode error.
pub fn decode_error<T>(desc: &'static str) -> (r: Result<T, Error>)
    ensures
        r == Err::<T, Error>(Error::DecodeError(desc)),
{
    Err(Error::DecodeError(desc))
}

/// Convenience function to create a seek error.
pub fn seek_error<T>(kind: SeekErrorKind) -> (r: Result<T, Error>)
    ensures
        r == Err::<T, Error>(Error::SeekError(kind)),
{
    Err(Error::SeekError(kind))
}

/// Convenience function to create an unsupport feature error.
pub fn unsupported_error<T>(feature: &'static str) -> (r: Result<T, Error>)
    ensures
        r == Err::<T, Error>(Error::Unsupported(feature)),
{
    Err(Error::Unsupported(feature))
}

/// Convenience function to create a limit error.
pub fn limit_error<T>(constraint: &'static str, limit: usize) -> (r: Result<T, Error>)
    ensures
        r == Err::<T, Error>(Error::LimitError(constraint, limit)),
{
    Err(Error::LimitError(constraint, limit))
}

} // verus!
