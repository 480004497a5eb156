use vstd::prelude::*;

use crate::error::{error_response_code, ReqRespError, ResponseCode};

verus! {

/// One item that the application queues for an inbound stream: a response
/// payload, an error to report to the peer, or the end of the stream.
#[derive(Debug)]
pub enum RespMessage<R> {
    Response(Box<R>),
    Error(ReqRespError),
    EndOfStream,
}

impl<R> RespMessage<R> {
    /// The status code that leads this item on the wire; none for the end
    /// of the stream, which is sent as a close and no frame.
    pub open spec fn spec_response_code(self) -> Option<ResponseCode> {
        match self {
            RespMessage::Response(_) => Some(ResponseCode::Success),
            RespMessage::Error(err) => Some(error_response_code(err)),
            RespMessage::EndOfStream => None,
        }
    }

    pub open spec fn is_response(self) -> bool {
        self is Response
    }

    pub open spec fn is_error(self) -> bool {
        self is Error
    }

    pub open spec fn is_end_of_stream(self) -> bool {
        self is EndOfStream
    }

    pub fn as_response_code(&self) -> (r: Option<ResponseCode>)
        ensures
            r == self.spec_response_code(),
    {
        match self {
            RespMessage::Response(_) => Some(ResponseCode::Success),
            RespMessage::Error(req_resp_error) => Some(req_resp_error.response_code()),
            RespMessage::EndOfStream => None,
        }
    }
}

/// Something that arrived for the application on a stream.
#[derive(Debug)]
#[allow(inconsistent_fields)]
pub enum ReqRespMessageReceived<Q, R> {
    /// The peer opened inbound stream `stream_id` with this request.
    Request { stream_id: u64, message: Box<Q> },
    /// A response to the outbound request `request_id`.
    Response { request_id: u64, message: Box<R> },
    /// The outbound request `request_id` will get no more responses.
    EndOfStream { request_id: u64 },
}

/// A failure tied to one stream.
#[derive(Debug)]
pub enum ReqRespMessageError {
    Inbound { stream_id: u64, err: ReqRespError },
    Outbound { request_id: u64, err: ReqRespError },
}

/// What the handler reports to the application.
#[derive(Debug)]
pub enum HandlerEvent<Q, R> {
    Received(Box<ReqRespMessageReceived<Q, R>>),
    Failed(ReqRespMessageError),
    /// The connection may be torn down.
    Close,
}

/// A request that waits for an outbound stream to be negotiated.
#[derive(Debug)]
pub struct OutboundOpenInfo<Q> {
    pub request_id: u64,
    pub message: Q,
}

/// What the application asks of the handler.
#[derive(Debug)]
#[allow(inconsistent_fields)]
pub enum ConnectionRequest<Q, R> {
    /// Send `message` to the peer; its responses carry `request_id`.
    Request { request_id: u64, message: Q },
    /// Queue `message` for inbound stream `stream_id`.
    Response { stream_id: u64, message: Box<RespMessage<R>> },
    /// Stop taking new requests and wind the connection down.
    Shutdown,
}

} // verus!
