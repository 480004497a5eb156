use vstd::prelude::*;

verus! {

/// Why a stream failed. Transport and codec failures keep their description
/// as text; the multiplexer only ever looks at the variant.
#[derive(Debug, Clone, PartialEq, Eq)]
pub enum ReqRespError {
    /// The peer sent data that does not decode or is semantically invalid.
    InvalidData(String),
    /// The stream ended in the middle of a frame.
    IncompleteStream,
    /// No progress on the stream within the idle timeout.
    StreamTimedOut,
    /// Work was submitted, or a stream was still open, while the connection
    /// was no longer live.
    Disconnected,
    /// An error that was already rendered to text.
    RawError(String),
    /// An I/O failure of the underlying channel.
    IoError(String),
    /// Any other failure, as text.
    Anyhow(String),
    /// A timer of the runtime elapsed.
    TokioTimedOut,
}

/// The status code that leads a response chunk on the wire.
#[derive(Debug, Clone, Copy, PartialEq, Eq, Structural)]
pub enum ResponseCode {
    Success,
    InvalidRequest,
    ServerError,
    ResourceUnavailable,
}

/// The status code with which an error is reported to the peer.
pub open spec fn error_response_code(err: ReqRespError) -> ResponseCode {
    match err {
        ReqRespError::InvalidData(_) => ResponseCode::InvalidRequest,
        ReqRespError::Disconnected
        | ReqRespError::StreamTimedOut
        | ReqRespError::TokioTimedOut => ResponseCode::ResourceUnavailable,
        ReqRespError::RawError(_)
        | ReqRespError::IncompleteStream
        | ReqRespError::Anyhow(_)
        | ReqRespError::IoError(_) => ResponseCode::ServerError,
    }
}

impl ReqRespError {
    /// A copy of this error, equal to it.
    pub fn duplicate(&self) -> (r: ReqRespError)
        ensures
            r == *self,
    {
        match self {
            ReqRespError::InvalidData(s) => ReqRespError::InvalidData(s.clone()),
            ReqRespError::IncompleteStream => ReqRespError::IncompleteStream,
            ReqRespError::StreamTimedOut => ReqRespError::StreamTimedOut,
            ReqRespError::Disconnected => ReqRespError::Disconnected,
            ReqRespError::RawError(s) => ReqRespError::RawError(s.clone()),
            ReqRespError::IoError(s) => ReqRespError::IoError(s.clone()),
            ReqRespError::Anyhow(s) => ReqRespError::Anyhow(s.clone()),
            ReqRespError::TokioTimedOut => ReqRespError::TokioTimedOut,
        }
    }

    /// The status code with which this error is reported to the peer.
    pub fn response_code(&self) -> (r: ResponseCode)
        ensures
            r == error_response_code(*self),
    {
        match self {
            ReqRespError::InvalidData(_) => ResponseCode::InvalidRequest,
            ReqRespError::Disconnected
            | ReqRespError::StreamTimedOut
            | ReqRespError::TokioTimedOut => ResponseCode::ResourceUnavailable,
            ReqRespError::RawError(_)
            | ReqRespError::IncompleteStream
            | ReqRespError::Anyhow(_)
            | ReqRespError::IoError(_) => ResponseCode::ServerError,
        }
    }
}

} // verus!
