//! The connection handler: per-connection registries of inbound and
//! outbound streams, their idle timeouts and the connection's lifecycle.
//!
//! The handler makes every decision and performs no I/O. A driver owns the
//! channels and timers: it carries out the [`ChannelCommand`]s that the
//! handler hands out, reports their outcomes back as [`ConnectionEvent`]s,
//! and calls [`ReqRespConnectionHandler::poll`] for what to tell the
//! application.
use std::collections::VecDeque;
use vstd::prelude::*;

use crate::error::ReqRespError;
use crate::message::{
    ConnectionRequest, HandlerEvent, OutboundOpenInfo, ReqRespMessageError,
    ReqRespMessageReceived, RespMessage,
};
use crate::model::{
    lemma_enqueue_wf, lemma_push_event_wf, lemma_remove_inbound_wf, lemma_remove_outbound_wf,
    lemma_set_inbound_wf, lemma_set_outbound_wf, lemma_start_next_wf, close_if_pending,
    disconnect_commands, disconnect_events, refused_requests, sweep_commands, HandlerView,
    InboundStreamView,
};

verus! {

/// Where a connection stands in its lifecycle: `Live`, then `ShuttingDown`,
/// then `Closed`, never back.
#[derive(Debug, Clone, Copy, PartialEq, Eq, Structural)]
pub enum ConnectionState {
    Live,
    ShuttingDown,
    Closed,
}

#[derive(Debug, Clone, Copy, PartialEq, Eq, Structural)]
pub enum StreamDirection {
    Inbound,
    Outbound,
}

/// The channel operation in flight on a busy inbound stream.
#[derive(Debug, Clone, Copy, PartialEq, Eq, Structural)]
pub enum InboundOperation {
    /// A response frame is being sent; the channel is closed after it when
    /// `close_after` holds.
    Send { close_after: bool },
    /// The channel is being closed.
    Close,
}

#[derive(Debug, Clone, Copy, PartialEq, Eq, Structural)]
pub enum InboundStreamState {
    /// Nothing in flight: ready to send the next queued response or close.
    Idle,
    Busy(InboundOperation),
}

#[derive(Debug)]
pub enum OutboundStreamState<Q> {
    /// Waiting for the next response frame to the request `message`.
    PendingResponse { message: Q },
    /// The channel is being closed.
    Closing,
}

/// A stream that this side opened for a request.
#[derive(Debug)]
pub struct OutboundStream<Q> {
    pub stream_id: u64,
    /// The identifier that the application gave the request.
    pub request_id: u64,
    pub state: OutboundStreamState<Q>,
}

/// Work for the driver on a channel or a timer.
#[derive(Debug)]
pub enum ChannelCommand<R> {
    /// Send one response frame on inbound stream `stream_id`.
    SendResponse { stream_id: u64, message: RespMessage<R> },
    /// Close inbound stream `stream_id`.
    CloseInbound { stream_id: u64 },
    /// Close outbound stream `stream_id`.
    CloseOutbound { stream_id: u64 },
    /// Start, or push out, the idle timeout of a stream.
    RefreshTimeout { direction: StreamDirection, stream_id: u64 },
    /// The stream left the registry: drop its channel and its timeout.
    Release { direction: StreamDirection, stream_id: u64 },
}

/// What the driver reports back to the handler.
#[derive(Debug)]
pub enum ConnectionEvent<Q, R> {
    /// The peer opened a stream and sent this request on it.
    FullyNegotiatedInbound(Q),
    /// A stream was negotiated for a request that the handler asked for.
    FullyNegotiatedOutbound(OutboundOpenInfo<Q>),
    /// A send on an inbound stream finished.
    InboundSendDone { stream_id: u64, result: Result<(), ReqRespError> },
    /// A close of an inbound stream finished.
    InboundCloseDone { stream_id: u64, result: Result<(), ReqRespError> },
    /// A read on an outbound stream gave a frame, a failure, or `None` at the
    /// end of the stream.
    OutboundFrame { stream_id: u64, frame: Option<Result<RespMessage<R>, ReqRespError>> },
    /// A close of an outbound stream finished.
    OutboundCloseDone { stream_id: u64 },
    /// The idle timeout of a stream elapsed.
    TimedOut { direction: StreamDirection, stream_id: u64 },
}

/// What one call of [`ReqRespConnectionHandler::poll`] yields.
#[derive(Debug)]
pub enum ConnectionHandlerEvent<Q, R> {
    NotifyBehaviour(HandlerEvent<Q, R>),
    /// Negotiate an outbound stream for this request.
    OutboundSubstreamRequest(OutboundOpenInfo<Q>),
}


struct InboundStream<R> {
    stream_id: u64,
    state: InboundStreamState,
    response_queue: VecDeque<RespMessage<R>>,
    submitted: Ghost<Seq<RespMessage<R>>>,
    dispatched: Ghost<Seq<RespMessage<R>>>,
    operations_started: Ghost<nat>,
    operations_completed: Ghost<nat>,
}

impl<R> View for InboundStream<R> {
    type V = InboundStreamView<R>;

    closed spec fn view(&self) -> InboundStreamView<R> {
        InboundStreamView {
            stream_id: self.stream_id,
            state: self.state,
            queue: self.response_queue@,
            submitted: self.submitted@,
            dispatched: self.dispatched@,
            operations_started: self.operations_started@,
            operations_completed: self.operations_completed@,
        }
    }
}

impl<R> RespMessage<R> {
    fn is_error_message(&self) -> (r: bool)
        ensures
            r == self.is_error(),
    {
        matches!(self, RespMessage::Error(_))
    }
}

impl<R> InboundStream<R> {
    fn new(stream_id: u64) -> (r: Self)
        ensures
            r@ == InboundStreamView::<R>::fresh(stream_id),
    {
        InboundStream {
            stream_id,
            state: InboundStreamState::Idle,
            response_queue: VecDeque::new(),
            submitted: Ghost(Seq::empty()),
            dispatched: Ghost(Seq::empty()),
            operations_started: Ghost(0),
            operations_completed: Ghost(0),
        }
    }

    fn enqueue(&mut self, message: RespMessage<R>)
        ensures
            final(self)@ == old(self)@.enqueue(message),
    {
        self.submitted = Ghost(self.submitted@.push(message));
        self.response_queue.push_back(message);
    }

    fn complete_operation(&mut self)
        ensures
            final(self)@ == (InboundStreamView {
                operations_completed: old(self)@.operations_completed + 1,
                ..old(self)@
            }),
    {
        self.operations_completed = Ghost(self.operations_completed@ + 1);
    }

    fn begin_close(&mut self)
        ensures
            final(self)@ == (InboundStreamView {
                state: InboundStreamState::Busy(InboundOperation::Close),
                operations_started: old(self)@.operations_started + 1,
                ..old(self)@
            }),
    {
        self.state = InboundStreamState::Busy(InboundOperation::Close);
        self.operations_started = Ghost(self.operations_started@ + 1);
    }

    fn start_next(&mut self, live: bool) -> (r: Option<ChannelCommand<R>>)
        ensures
            (final(self)@, r) == old(self)@.start_next(live),
    {
        if !live {
            self.state = InboundStreamState::Busy(InboundOperation::Close);
            self.operations_started = Ghost(self.operations_started@ + 1);
            return Some(ChannelCommand::CloseInbound { stream_id: self.stream_id });
        }
        let ghost queue = self.response_queue@;
        match self.response_queue.pop_front() {
            None => None,
            Some(m) => {
                assert(self.response_queue@ =~= queue.drop_first());
                self.dispatched = Ghost(self.dispatched@.push(m));
                self.operations_started = Ghost(self.operations_started@ + 1);
                if let RespMessage::EndOfStream = m {
                    self.state = InboundStreamState::Busy(InboundOperation::Close);
                    Some(ChannelCommand::CloseInbound { stream_id: self.stream_id })
                } else {
                    let close_after = m.is_error_message();
                    self.state = InboundStreamState::Busy(InboundOperation::Send { close_after });
                    Some(ChannelCommand::SendResponse { stream_id: self.stream_id, message: m })
                }
            },
        }
    }
}

impl<Q> OutboundStream<Q> {
    fn is_pending(&self) -> (r: bool)
        ensures
            r == self.state is PendingResponse,
    {
        matches!(self.state, OutboundStreamState::PendingResponse { .. })
    }
}

/// The request/response handler of one connection.
pub struct ReqRespConnectionHandler<Q, R> {
    behaviour_events: Vec<HandlerEvent<Q, R>>,
    channel_commands: Vec<ChannelCommand<R>>,
    inbound_stream_id: u64,
    outbound_stream_id: u64,
    inbound_streams: Vec<InboundStream<R>>,
    outbound_streams: Vec<OutboundStream<Q>>,
    pending_outbound_streams: Vec<OutboundOpenInfo<Q>>,
    connection_state: ConnectionState,
}

impl<Q, R> View for ReqRespConnectionHandler<Q, R> {
    type V = HandlerView<Q, R>;

    closed spec fn view(&self) -> HandlerView<Q, R> {
        HandlerView {
            connection_state: self.connection_state,
            next_inbound_id: self.inbound_stream_id,
            next_outbound_id: self.outbound_stream_id,
            inbound: self.inbound_streams@.map_values(|s: InboundStream<R>| s@),
            outbound: self.outbound_streams@,
            pending_outbound: self.pending_outbound_streams@,
            events: self.behaviour_events@,
            commands: self.channel_commands@,
        }
    }
}

impl<Q, R> ReqRespConnectionHandler<Q, R> {
    pub open spec fn wf(&self) -> bool {
        self@.wf()
    }

    /// A live connection with no streams.
    pub fn new() -> (r: Self)
        ensures
            r@ == HandlerView::<Q, R>::initial(),
            r.wf(),
    {
        let r = ReqRespConnectionHandler {
            behaviour_events: Vec::new(),
            channel_commands: Vec::new(),
            inbound_stream_id: 0,
            outbound_stream_id: 0,
            inbound_streams: Vec::new(),
            outbound_streams: Vec::new(),
            pending_outbound_streams: Vec::new(),
            connection_state: ConnectionState::Live,
        };
        assert(r@.inbound =~= Seq::empty());
        r
    }

    fn find_inbound(&self, stream_id: u64) -> (r: Option<usize>)
        requires
            self.wf(),
        ensures
            match r {
                Some(i) => {
                    &&& self@.has_inbound(stream_id)
                    &&& self@.inbound_index(stream_id) == i as int
                    &&& i < self.inbound_streams@.len()
                },
                None => !self@.has_inbound(stream_id),
            },
    {
        let mut i: usize = 0;
        while i < self.inbound_streams.len()
            invariant
                self.wf(),
                i <= self.inbound_streams@.len(),
                forall|k: int| 0 <= k < i ==> (#[trigger] self@.inbound[k]).stream_id != stream_id,
            decreases self.inbound_streams@.len() - i,
        {
            if self.inbound_streams[i].stream_id == stream_id {
                assert(self@.inbound[i as int].stream_id == stream_id);
                assert(self@.has_inbound(stream_id));
                let ghost j = self@.inbound_index(stream_id);
                assert(j == i as int);
                return Some(i);
            }
            assert(self@.inbound[i as int].stream_id != stream_id);
            i += 1;
        }
        None
    }

    fn find_outbound(&self, stream_id: u64) -> (r: Option<usize>)
        requires
            self.wf(),
        ensures
            match r {
                Some(i) => {
                    &&& self@.has_outbound(stream_id)
                    &&& self@.outbound_index(stream_id) == i as int
                    &&& i < self.outbound_streams@.len()
                },
                None => !self@.has_outbound(stream_id),
            },
    {
        let mut i: usize = 0;
        while i < self.outbound_streams.len()
            invariant
                self.wf(),
                i <= self.outbound_streams@.len(),
                forall|k: int| 0 <= k < i ==> (#[trigger] self@.outbound[k]).stream_id != stream_id,
            decreases self.outbound_streams@.len() - i,
        {
            if self.outbound_streams[i].stream_id == stream_id {
                assert(self@.outbound[i as int].stream_id == stream_id);
                assert(self@.has_outbound(stream_id));
                let ghost j = self@.outbound_index(stream_id);
                assert(j == i as int);
                return Some(i);
            }
            i += 1;
        }
        None
    }

    proof fn lemma_inbound_view_update(&self, old_streams: Seq<InboundStream<R>>, i: int)
        requires
            0 <= i < old_streams.len(),
            self.inbound_streams@ == old_streams.update(i, self.inbound_streams@[i]),
        ensures
            self@.inbound == old_streams.map_values(|s: InboundStream<R>| s@).update(
                i,
                self.inbound_streams@[i]@,
            ),
    {
        assert(self@.inbound =~= old_streams.map_values(|s: InboundStream<R>| s@).update(
            i,
            self.inbound_streams@[i]@,
        ));
    }

    proof fn lemma_inbound_view_remove(&self, old_streams: Seq<InboundStream<R>>, i: int)
        requires
            0 <= i < old_streams.len(),
            self.inbound_streams@ == old_streams.remove(i),
        ensures
            self@.inbound == old_streams.map_values(|s: InboundStream<R>| s@).remove(i),
    {
        assert(self@.inbound =~= old_streams.map_values(|s: InboundStream<R>| s@).remove(i));
    }

    /// Asks for `message` to be sent to the peer. On a live connection the
    /// request waits for a stream; otherwise it fails at once with
    /// `Disconnected`. Which of the two happens is decided by the state at
    /// this call alone.
    pub fn request(&mut self, request_id: u64, message: Q)
        requires
            old(self).wf(),
        ensures
            final(self).wf(),
            final(self)@ == old(self)@.after_request(request_id, message),
    {
        if self.connection_state == ConnectionState::Live {
            self.pending_outbound_streams.push(OutboundOpenInfo { request_id, message });
        } else {
            proof {
                lemma_push_event_wf(self@, crate::model::disconnected_error(request_id));
            }
            self.behaviour_events.push(
                HandlerEvent::Failed(
                    ReqRespMessageError::Outbound { request_id, err: ReqRespError::Disconnected },
                ),
            );
        }
    }

    /// Queues `message` for inbound stream `stream_id`, to be sent after
    /// what is already queued there. An error message is also reported to
    /// the application. An unknown stream is ignored; on a connection that
    /// is no longer live nothing is queued.
    pub fn response(&mut self, stream_id: u64, message: RespMessage<R>)
        requires
            old(self).wf(),
        ensures
            final(self).wf(),
            final(self)@ == old(self)@.after_response(stream_id, message),
    {
        let i = match self.find_inbound(stream_id) {
            Some(i) => i,
            None => return,
        };
        if let RespMessage::Error(err) = &message {
            let err = err.duplicate();
            proof {
                lemma_push_event_wf(
                    self@,
                    HandlerEvent::Failed(ReqRespMessageError::Inbound { stream_id, err }),
                );
            }
            self.behaviour_events.push(
                HandlerEvent::Failed(ReqRespMessageError::Inbound { stream_id, err }),
            );
        }
        if self.connection_state != ConnectionState::Live {
            return;
        }
        let ghost before = self@;
        let ghost old_streams = self.inbound_streams@;
        proof {
            lemma_enqueue_wf(before.inbound[i as int], message);
            lemma_set_inbound_wf(before, i as int, before.inbound[i as int].enqueue(message));
        }
        self.inbound_streams[i].enqueue(message);
        proof {
            self.lemma_inbound_view_update(old_streams, i as int);
            assert(self@ == before.set_inbound(i as int, before.inbound[i as int].enqueue(message)));
        }
    }

    /// Stops taking new requests: a live connection starts shutting down.
    pub fn shutdown(&mut self)
        requires
            old(self).wf(),
        ensures
            final(self).wf(),
            final(self)@ == old(self)@.after_shutdown(),
    {
        if self.connection_state == ConnectionState::Live {
            self.connection_state = ConnectionState::ShuttingDown;
        }
    }

    /// Registers the inbound stream that the peer opened with `message`,
    /// idle and with nothing queued, and reports the request. Returns the
    /// stream's identifier, which no stream of this connection had before.
    pub fn on_fully_negotiated_inbound(&mut self, message: Q) -> (stream_id: u64)
        requires
            old(self).wf(),
            old(self)@.next_inbound_id < u64::MAX,
        ensures
            final(self).wf(),
            final(self)@ == old(self)@.after_inbound_negotiated(message),
            stream_id == old(self)@.next_inbound_id,
    {
        let ghost before = self@;
        let stream_id = self.inbound_stream_id;
        self.inbound_streams.push(InboundStream::new(stream_id));
        self.channel_commands.push(
            ChannelCommand::RefreshTimeout { direction: StreamDirection::Inbound, stream_id },
        );
        self.behaviour_events.push(
            HandlerEvent::Received(
                Box::new(ReqRespMessageReceived::Request { stream_id, message: Box::new(message) }),
            ),
        );
        self.inbound_stream_id = stream_id + 1;
        proof {
            assert(self@.inbound =~= before.inbound.push(InboundStreamView::fresh(stream_id)));
            let n = self@;
            assert forall|a: int, b: int| 0 <= a < b < n.inbound.len() implies (#[trigger] n.inbound[a]).stream_id
                < (#[trigger] n.inbound[b]).stream_id by {
                if b < before.inbound.len() {
                    assert(before.inbound[a].stream_id < before.inbound[b].stream_id);
                } else {
                    assert(before.inbound[a].stream_id < before.next_inbound_id);
                }
            }
            assert forall|a: int| 0 <= a < n.inbound.len() implies (#[trigger] n.inbound[a]).stream_id
                < n.next_inbound_id && n.inbound[a].wf() by {
                if a < before.inbound.len() {
                    assert(before.inbound[a].stream_id < before.next_inbound_id);
                }
            }
            assert forall|a: int| 0 <= a < n.events.len() implies !(#[trigger] n.events[a] is Close) by {
                if a < before.events.len() {
                    assert(n.events[a] == before.events[a]);
                }
            }
        }
        stream_id
    }

    /// Registers the outbound stream negotiated for the request in `info`,
    /// waiting for its first response. Returns the stream's identifier,
    /// which no outbound stream of this connection had before.
    pub fn on_fully_negotiated_outbound(&mut self, info: OutboundOpenInfo<Q>) -> (stream_id: u64)
        requires
            old(self).wf(),
            old(self)@.next_outbound_id < u64::MAX,
        ensures
            final(self).wf(),
            final(self)@ == old(self)@.after_outbound_negotiated(info),
            stream_id == old(self)@.next_outbound_id,
    {
        let ghost before = self@;
        let stream_id = self.outbound_stream_id;
        let OutboundOpenInfo { request_id, message } = info;
        self.outbound_streams.push(
            OutboundStream {
                stream_id,
                request_id,
                state: OutboundStreamState::PendingResponse { message },
            },
        );
        self.channel_commands.push(
            ChannelCommand::RefreshTimeout { direction: StreamDirection::Outbound, stream_id },
        );
        self.outbound_stream_id = stream_id + 1;
        proof {
            let n = self@;
            assert forall|a: int, b: int| 0 <= a < b < n.outbound.len() implies (#[trigger] n.outbound[a]).stream_id
                < (#[trigger] n.outbound[b]).stream_id by {
                if b < before.outbound.len() {
                    assert(before.outbound[a].stream_id < before.outbound[b].stream_id);
                } else {
                    assert(before.outbound[a].stream_id < before.next_outbound_id);
                }
            }
            assert forall|a: int| 0 <= a < n.outbound.len() implies (#[trigger] n.outbound[a]).stream_id
                < n.next_outbound_id by {
                if a < before.outbound.len() {
                    assert(before.outbound[a].stream_id < before.next_outbound_id);
                }
            }
            assert(n.inbound =~= before.inbound);
        }
        stream_id
    }

    /// Hands the driver its oldest command, if any.
    pub fn take_command(&mut self) -> (r: Option<ChannelCommand<R>>)
        requires
            old(self).wf(),
        ensures
            final(self).wf(),
            (final(self)@, r) == old(self)@.after_take_command(),
    {
        if self.channel_commands.len() == 0 {
            return None;
        }
        let ghost before = self@;
        let c = self.channel_commands.remove(0);
        proof {
            assert(self@.commands =~= before.commands.drop_first());
            assert(self@.inbound =~= before.inbound);
        }
        Some(c)
    }

    /// Whether the connection should be kept open: until it is closed.
    pub fn connection_keep_alive(&self) -> (r: bool)
        ensures
            r == (self@.connection_state != ConnectionState::Closed),
    {
        self.connection_state != ConnectionState::Closed
    }

    pub fn connection_state(&self) -> (r: ConnectionState)
        ensures
            r == self@.connection_state,
    {
        self.connection_state
    }

    /// The identifier that the next accepted inbound stream will get.
    pub fn next_inbound_stream_id(&self) -> (r: u64)
        ensures
            r == self@.next_inbound_id,
    {
        self.inbound_stream_id
    }

    /// The identifier that the next negotiated outbound stream will get.
    pub fn next_outbound_stream_id(&self) -> (r: u64)
        ensures
            r == self@.next_outbound_id,
    {
        self.outbound_stream_id
    }

    /// A send on inbound stream `stream_id` finished. After a plain response
    /// that went out the stream is idle again, its timeout is pushed out and
    /// its next operation starts; after an error response or a failed send
    /// the channel is closed, and a failed send is reported at once.
    /// An outcome that matches no send in flight is ignored.
    pub fn on_inbound_send_done(&mut self, stream_id: u64, result: Result<(), ReqRespError>)
        requires
            old(self).wf(),
        ensures
            final(self).wf(),
            final(self)@ == old(self)@.after_inbound_send(stream_id, result),
    {
        let i = match self.find_inbound(stream_id) {
            Some(i) => i,
            None => return,
        };
        let close_after = match self.inbound_streams[i].state {
            InboundStreamState::Busy(InboundOperation::Send { close_after }) => close_after,
            _ => return,
        };
        let ghost before = self@;
        let ghost old_streams = self.inbound_streams@;
        let ghost s = before.inbound[i as int];
        let ghost done = InboundStreamView { operations_completed: s.operations_completed + 1, ..s };
        let ghost closing = InboundStreamView {
            state: InboundStreamState::Busy(InboundOperation::Close),
            operations_started: done.operations_started + 1,
            ..done
        };
        self.inbound_streams[i].complete_operation();
        match result {
            Ok(()) => {
                if close_after {
                    self.inbound_streams[i].begin_close();
                    self.channel_commands.push(ChannelCommand::CloseInbound { stream_id });
                    proof {
                        assert(self.inbound_streams@ =~= old_streams.update(
                            i as int,
                            self.inbound_streams@[i as int],
                        ));
                        self.lemma_inbound_view_update(old_streams, i as int);
                        assert(self.inbound_streams@[i as int]@ == closing);
                        lemma_set_inbound_wf(before, i as int, closing);
                    }
                } else {
                    let live = self.connection_state == ConnectionState::Live;
                    self.inbound_streams[i].state = InboundStreamState::Idle;
                    let ghost idle = InboundStreamView { state: InboundStreamState::Idle, ..done };
                    assert(self.inbound_streams@[i as int]@ == idle);
                    proof {
                        lemma_start_next_wf(idle, live);
                        lemma_set_inbound_wf(before, i as int, idle.start_next(live).0);
                    }
                    let command = self.inbound_streams[i].start_next(live);
                    self.channel_commands.push(
                        ChannelCommand::RefreshTimeout { direction: StreamDirection::Inbound, stream_id },
                    );
                    if let Some(c) = command {
                        self.channel_commands.push(c);
                    }
                    proof {
                        assert(self.inbound_streams@ =~= old_streams.update(
                            i as int,
                            self.inbound_streams@[i as int],
                        ));
                        self.lemma_inbound_view_update(old_streams, i as int);
                    }
                }
            },
            Err(err) => {
                proof {
                    lemma_push_event_wf(
                        before,
                        HandlerEvent::Failed(ReqRespMessageError::Inbound { stream_id, err }),
                    );
                    lemma_set_inbound_wf(
                        before.push_event(
                            HandlerEvent::Failed(ReqRespMessageError::Inbound { stream_id, err }),
                        ),
                        i as int,
                        closing,
                    );
                }
                self.behaviour_events.push(
                    HandlerEvent::Failed(ReqRespMessageError::Inbound { stream_id, err }),
                );
                self.inbound_streams[i].begin_close();
                self.channel_commands.push(ChannelCommand::CloseInbound { stream_id });
                proof {
                    assert(self.inbound_streams@ =~= old_streams.update(
                        i as int,
                        self.inbound_streams@[i as int],
                    ));
                    self.lemma_inbound_view_update(old_streams, i as int);
                    assert(self.inbound_streams@[i as int]@ == closing);
                }
            },
        }
    }

    /// A close of inbound stream `stream_id` finished: the stream leaves the
    /// registry, and a failed close is reported. An outcome that matches no
    /// close in flight is ignored.
    pub fn on_inbound_close_done(&mut self, stream_id: u64, result: Result<(), ReqRespError>)
        requires
            old(self).wf(),
        ensures
            final(self).wf(),
            final(self)@ == old(self)@.after_inbound_close(stream_id, result),
    {
        let i = match self.find_inbound(stream_id) {
            Some(i) => i,
            None => return,
        };
        if self.inbound_streams[i].state != InboundStreamState::Busy(InboundOperation::Close) {
            return;
        }
        let ghost before = self@;
        let ghost old_streams = self.inbound_streams@;
        self.inbound_streams.remove(i);
        self.channel_commands.push(
            ChannelCommand::Release { direction: StreamDirection::Inbound, stream_id },
        );
        proof {
            self.lemma_inbound_view_remove(old_streams, i as int);
            lemma_remove_inbound_wf(before, i as int);
        }
        if let Err(err) = result {
            proof {
                lemma_push_event_wf(
                    self@,
                    HandlerEvent::Failed(ReqRespMessageError::Inbound { stream_id, err }),
                );
            }
            self.behaviour_events.push(
                HandlerEvent::Failed(ReqRespMessageError::Inbound { stream_id, err }),
            );
        }
    }

    /// A read on outbound stream `stream_id` gave `frame`. The end of the
    /// stream or a failed read ends the request; a response is passed on and
    /// pushes the timeout out; an error response is passed on and closes the
    /// stream, as does an end-of-stream marker. A frame for a stream that
    /// waits for no response is ignored.
    pub fn on_outbound_frame(
        &mut self,
        stream_id: u64,
        frame: Option<Result<RespMessage<R>, ReqRespError>>,
    )
        requires
            old(self).wf(),
        ensures
            final(self).wf(),
            final(self)@ == old(self)@.after_outbound_frame(stream_id, frame),
    {
        let i = match self.find_outbound(stream_id) {
            Some(i) => i,
            None => return,
        };
        if !self.outbound_streams[i].is_pending() {
            return;
        }
        let ghost before = self@;
        let request_id = self.outbound_streams[i].request_id;
        let release = ChannelCommand::Release { direction: StreamDirection::Outbound, stream_id };
        match frame {
            None => {
                proof {
                    lemma_remove_outbound_wf(before, i as int);
                }
                self.outbound_streams.remove(i);
                self.channel_commands.push(release);
                self.behaviour_events.push(
                    HandlerEvent::Received(Box::new(ReqRespMessageReceived::EndOfStream { request_id })),
                );
                proof {
                    assert(self@.inbound =~= before.inbound);
                    lemma_push_event_wf(
                        before.remove_outbound(i as int).push_command(release),
                        HandlerEvent::Received(Box::new(ReqRespMessageReceived::EndOfStream { request_id })),
                    );
                }
            },
            Some(Err(err)) => {
                proof {
                    lemma_remove_outbound_wf(before, i as int);
                    lemma_push_event_wf(
                        before.remove_outbound(i as int).push_command(release),
                        HandlerEvent::Failed(ReqRespMessageError::Outbound { request_id, err }),
                    );
                }
                self.outbound_streams.remove(i);
                self.channel_commands.push(release);
                self.behaviour_events.push(
                    HandlerEvent::Failed(ReqRespMessageError::Outbound { request_id, err }),
                );
                proof {
                    assert(self@.inbound =~= before.inbound);
                }
            },
            Some(Ok(RespMessage::Response(message))) => {
                proof {
                    lemma_push_event_wf(
                        before,
                        HandlerEvent::Received(Box::new(ReqRespMessageReceived::Response { request_id, message })),
                    );
                }
                self.channel_commands.push(
                    ChannelCommand::RefreshTimeout { direction: StreamDirection::Outbound, stream_id },
                );
                self.behaviour_events.push(
                    HandlerEvent::Received(Box::new(ReqRespMessageReceived::Response { request_id, message })),
                );
            },
            Some(Ok(RespMessage::Error(err))) => {
                let ghost closed = OutboundStream { state: OutboundStreamState::Closing, ..before.outbound[i as int] };
                proof {
                    lemma_set_outbound_wf(before, i as int, closed);
                    lemma_push_event_wf(
                        before.set_outbound(i as int, closed),
                        HandlerEvent::Failed(ReqRespMessageError::Outbound { request_id, err }),
                    );
                }
                self.outbound_streams[i].state = OutboundStreamState::Closing;
                self.channel_commands.push(ChannelCommand::CloseOutbound { stream_id });
                self.behaviour_events.push(
                    HandlerEvent::Failed(ReqRespMessageError::Outbound { request_id, err }),
                );
                proof {
                    assert(self@.outbound =~= before.outbound.update(i as int, closed));
                }
            },
            Some(Ok(RespMessage::EndOfStream)) => {
                let ghost closed = OutboundStream { state: OutboundStreamState::Closing, ..before.outbound[i as int] };
                proof {
                    lemma_set_outbound_wf(before, i as int, closed);
                }
                self.outbound_streams[i].state = OutboundStreamState::Closing;
                self.channel_commands.push(ChannelCommand::CloseOutbound { stream_id });
                proof {
                    assert(self@.outbound =~= before.outbound.update(i as int, closed));
                }
            },
        }
    }

    /// A close of outbound stream `stream_id` finished: the stream leaves the
    /// registry and its request ends. An outcome that matches no close in
    /// flight is ignored.
    pub fn on_outbound_close_done(&mut self, stream_id: u64)
        requires
            old(self).wf(),
        ensures
            final(self).wf(),
            final(self)@ == old(self)@.after_outbound_close(stream_id),
    {
        let i = match self.find_outbound(stream_id) {
            Some(i) => i,
            None => return,
        };
        if self.outbound_streams[i].is_pending() {
            return;
        }
        let ghost before = self@;
        let request_id = self.outbound_streams[i].request_id;
        let release = ChannelCommand::Release { direction: StreamDirection::Outbound, stream_id };
        proof {
            lemma_remove_outbound_wf(before, i as int);
            lemma_push_event_wf(
                before.remove_outbound(i as int).push_command(release),
                HandlerEvent::Received(Box::new(ReqRespMessageReceived::EndOfStream { request_id })),
            );
        }
        self.outbound_streams.remove(i);
        self.channel_commands.push(release);
        self.behaviour_events.push(
            HandlerEvent::Received(Box::new(ReqRespMessageReceived::EndOfStream { request_id })),
        );
        proof {
            assert(self@.inbound =~= before.inbound);
        }
    }

    /// The idle timeout of a stream elapsed: a registered stream is evicted,
    /// with whatever it still had queued, and a `StreamTimedOut` error is
    /// reported for it.
    pub fn on_timeout(&mut self, direction: StreamDirection, stream_id: u64)
        requires
            old(self).wf(),
        ensures
            final(self).wf(),
            final(self)@ == old(self)@.after_timeout(direction, stream_id),
    {
        let ghost before = self@;
        let release = ChannelCommand::Release { direction, stream_id };
        match direction {
            StreamDirection::Inbound => {
                let i = match self.find_inbound(stream_id) {
                    Some(i) => i,
                    None => return,
                };
                let ghost old_streams = self.inbound_streams@;
                let event = HandlerEvent::Failed(
                    ReqRespMessageError::Inbound { stream_id, err: ReqRespError::StreamTimedOut },
                );
                proof {
                    lemma_remove_inbound_wf(before, i as int);
                    lemma_push_event_wf(before.remove_inbound(i as int).push_command(release), event);
                }
                self.inbound_streams.remove(i);
                self.channel_commands.push(release);
                self.behaviour_events.push(event);
                proof {
                    self.lemma_inbound_view_remove(old_streams, i as int);
                }
            },
            StreamDirection::Outbound => {
                let i = match self.find_outbound(stream_id) {
                    Some(i) => i,
                    None => return,
                };
                let request_id = self.outbound_streams[i].request_id;
                let event = HandlerEvent::Failed(
                    ReqRespMessageError::Outbound { request_id, err: ReqRespError::StreamTimedOut },
                );
                proof {
                    lemma_remove_outbound_wf(before, i as int);
                    lemma_push_event_wf(before.remove_outbound(i as int).push_command(release), event);
                }
                self.outbound_streams.remove(i);
                self.channel_commands.push(release);
                self.behaviour_events.push(event);
                proof {
                    assert(self@.inbound =~= before.inbound);
                }
            },
        }
    }

    fn pop_event(&mut self) -> (r: Option<HandlerEvent<Q, R>>)
        requires
            old(self).wf(),
        ensures
            final(self).wf(),
            old(self)@.events.len() == 0 ==> r is None && final(self)@ == old(self)@,
            old(self)@.events.len() > 0 ==> r == Some(old(self)@.events[0]) && final(self)@ == (
            HandlerView { events: old(self)@.events.drop_first(), ..old(self)@ }),
    {
        if self.behaviour_events.len() == 0 {
            return None;
        }
        let ghost before = self@;
        let e = self.behaviour_events.remove(0);
        proof {
            assert(self@.events =~= before.events.drop_first());
            assert(self@.inbound =~= before.inbound);
            assert forall|a: int| 0 <= a < self@.events.len() implies !(#[trigger] self@.events[a] is Close) by {
                assert(self@.events[a] == before.events[a + 1]);
            }
        }
        Some(e)
    }

    fn wind_down_outbound(&mut self)
        requires
            old(self).wf(),
        ensures
            final(self).wf(),
            final(self)@ == old(self)@.wind_down_outbound(),
    {
        if self.connection_state == ConnectionState::Live {
            return;
        }
        let ghost before = self@;
        let ghost old_out = before.outbound;
        let ghost old_inbound = self.inbound_streams@;
        let mut i: usize = 0;
        while i < self.outbound_streams.len()
            invariant
                before.wf(),
                old_out == before.outbound,
                self.outbound_streams@.len() == old_out.len(),
                0 <= i <= old_out.len(),
                forall|k: int| 0 <= k < i ==> self.outbound_streams@[k] == close_if_pending(#[trigger] old_out[k]),
                forall|k: int| i <= k < old_out.len() ==> self.outbound_streams@[k] == #[trigger] old_out[k],
                self.behaviour_events@ == before.events + disconnect_events::<Q, R>(old_out.subrange(0, i as int)),
                self.channel_commands@ == before.commands + disconnect_commands::<Q, R>(old_out.subrange(0, i as int)),
                forall|a: int| 0 <= a < self.behaviour_events@.len() ==> !(#[trigger] self.behaviour_events@[a] is Close),
                self.inbound_streams@ == old_inbound,
                self.connection_state == before.connection_state,
                self.inbound_stream_id == before.next_inbound_id,
                self.outbound_stream_id == before.next_outbound_id,
                self.pending_outbound_streams@ == before.pending_outbound,
            decreases old_out.len() - i,
        {
            proof {
                assert(old_out.subrange(0, i + 1).drop_last() =~= old_out.subrange(0, i as int));
                assert(old_out.subrange(0, i + 1).last() == old_out[i as int]);
            }
            if self.outbound_streams[i].is_pending() {
                let request_id = self.outbound_streams[i].request_id;
                let stream_id = self.outbound_streams[i].stream_id;
                let ghost evs = self.behaviour_events@;
                self.outbound_streams[i].state = OutboundStreamState::Closing;
                self.behaviour_events.push(
                    HandlerEvent::Failed(
                        ReqRespMessageError::Outbound { request_id, err: ReqRespError::Disconnected },
                    ),
                );
                self.channel_commands.push(ChannelCommand::CloseOutbound { stream_id });
                proof {
                    assert forall|a: int| 0 <= a < self.behaviour_events@.len() implies !(#[trigger] self.behaviour_events@[a] is Close) by {
                        if a < evs.len() {
                            assert(self.behaviour_events@[a] == evs[a]);
                        }
                    }
                }
            }
            i += 1;
        }
        let ghost evs_mid = self.behaviour_events@;
        let ghost out_mid = self.outbound_streams@;
        let ghost cmds_mid = self.channel_commands@;
        assert(out_mid =~= crate::model::close_pending_streams(old_out));
        let mut pending: Vec<OutboundOpenInfo<Q>> = Vec::new();
        std::mem::swap(&mut pending, &mut self.pending_outbound_streams);
        let mut j: usize = 0;
        while j < pending.len()
            invariant
                pending@ == before.pending_outbound,
                0 <= j <= pending@.len(),
                self.behaviour_events@ == evs_mid + refused_requests::<Q, R>(pending@.subrange(0, j as int)),
                self.outbound_streams@ == out_mid,
                self.channel_commands@ == cmds_mid,
                self.inbound_streams@ == old_inbound,
                self.pending_outbound_streams@ == Seq::<OutboundOpenInfo<Q>>::empty(),
                self.connection_state == before.connection_state,
                self.inbound_stream_id == before.next_inbound_id,
                self.outbound_stream_id == before.next_outbound_id,
                forall|a: int| 0 <= a < self.behaviour_events@.len() ==> !(#[trigger] self.behaviour_events@[a] is Close),
            decreases pending@.len() - j,
        {
            let ghost evs = self.behaviour_events@;
            let request_id = pending[j].request_id;
            self.behaviour_events.push(
                HandlerEvent::Failed(
                    ReqRespMessageError::Outbound { request_id, err: ReqRespError::Disconnected },
                ),
            );
            proof {
                assert(refused_requests::<Q, R>(pending@.subrange(0, j + 1)) =~= refused_requests::<Q, R>(
                    pending@.subrange(0, j as int),
                ).push(crate::model::disconnected_error(request_id)));
                assert forall|a: int| 0 <= a < self.behaviour_events@.len() implies !(#[trigger] self.behaviour_events@[a] is Close) by {
                    if a < evs.len() {
                        assert(self.behaviour_events@[a] == evs[a]);
                    }
                }
            }
            j += 1;
        }
        proof {
            assert(old_out.subrange(0, old_out.len() as int) =~= old_out);
            assert(pending@.subrange(0, pending@.len() as int) =~= pending@);
            assert(self@.inbound =~= before.inbound);
            assert(self@.pending_outbound =~= Seq::<OutboundOpenInfo<Q>>::empty());
            assert(self@.events =~= before.events + disconnect_events::<Q, R>(old_out) + refused_requests::<Q, R>(before.pending_outbound));
            let n = self@;
            assert forall|a: int, b: int| 0 <= a < b < n.outbound.len() implies (#[trigger] n.outbound[a]).stream_id
                < (#[trigger] n.outbound[b]).stream_id by {
                assert(before.outbound[a].stream_id < before.outbound[b].stream_id);
            }
            assert forall|a: int| 0 <= a < n.outbound.len() implies (#[trigger] n.outbound[a]).stream_id
                < n.next_outbound_id by {
                assert(before.outbound[a].stream_id < before.next_outbound_id);
            }
        }
    }

    fn sweep_inbound(&mut self)
        requires
            old(self).wf(),
        ensures
            final(self).wf(),
            final(self)@ == old(self)@.sweep_inbound(),
    {
        let live = self.connection_state == ConnectionState::Live;
        let ghost before = self@;
        let ghost old_views = before.inbound;
        let mut i: usize = 0;
        while i < self.inbound_streams.len()
            invariant
                before.wf(),
                old_views == before.inbound,
                live == before.is_live(),
                self.inbound_streams@.len() == old_views.len(),
                0 <= i <= old_views.len(),
                forall|k: int| 0 <= k < i ==> self@.inbound[k] == (#[trigger] old_views[k]).swept(live),
                forall|k: int| i <= k < old_views.len() ==> self@.inbound[k] == #[trigger] old_views[k],
                self.channel_commands@ == before.commands + sweep_commands(old_views.subrange(0, i as int), live),
                self.connection_state == before.connection_state,
                self.inbound_stream_id == before.next_inbound_id,
                self.outbound_stream_id == before.next_outbound_id,
                self.outbound_streams@ == before.outbound,
                self.pending_outbound_streams@ == before.pending_outbound,
                self.behaviour_events@ == before.events,
            decreases old_views.len() - i,
        {
            proof {
                assert(old_views.subrange(0, i + 1).drop_last() =~= old_views.subrange(0, i as int));
                assert(old_views.subrange(0, i + 1).last() == old_views[i as int]);
                assert(self@.inbound[i as int] == self.inbound_streams@[i as int]@);
            }
            if self.inbound_streams[i].state == InboundStreamState::Idle {
                let ghost old_streams = self.inbound_streams@;
                let ghost prev = self@;
                let c = self.inbound_streams[i].start_next(live);
                if let Some(c) = c {
                    self.channel_commands.push(c);
                }
                proof {
                    assert(self.inbound_streams@ =~= old_streams.update(i as int, self.inbound_streams@[i as int]));
                    self.lemma_inbound_view_update(old_streams, i as int);
                    assert forall|k: int| 0 <= k < old_views.len() && k != i implies self@.inbound[k] == prev.inbound[k] by {}
                }
            }
            i += 1;
        }
        proof {
            assert(old_views.subrange(0, old_views.len() as int) =~= old_views);
            assert(self@.inbound =~= crate::model::sweep_streams(old_views, live));
            let n = self@;
            assert forall|k: int| 0 <= k < old_views.len() implies n.inbound[k].wf() && n.inbound[k].stream_id
                == old_views[k].stream_id by {
                if old_views[k].state is Idle {
                    lemma_start_next_wf(old_views[k], live);
                }
            }
            assert forall|a: int, b: int| 0 <= a < b < n.inbound.len() implies (#[trigger] n.inbound[a]).stream_id
                < (#[trigger] n.inbound[b]).stream_id by {
                assert(old_views[a].stream_id < old_views[b].stream_id);
            }
            assert forall|a: int| 0 <= a < n.inbound.len() implies (#[trigger] n.inbound[a]).stream_id
                < n.next_inbound_id && n.inbound[a].wf() by {
                assert(old_views[a].stream_id < before.next_inbound_id);
            }
        }
    }

    /// One step of the driver. Reports the oldest event if there is one.
    /// Otherwise it winds down outbound streams and refused requests of a
    /// connection that is no longer live, starts the next operation of every
    /// idle inbound stream, and then reports, in this order of preference,
    /// the oldest new event, a request to negotiate an outbound stream, or
    /// the close of a connection that shut down and has nothing left.
    /// `None` when there is nothing to report.
    pub fn poll(&mut self) -> (r: Option<ConnectionHandlerEvent<Q, R>>)
        requires
            old(self).wf(),
        ensures
            final(self).wf(),
            (final(self)@, r) == old(self)@.after_poll(),
    {
        if let Some(e) = self.pop_event() {
            return Some(ConnectionHandlerEvent::NotifyBehaviour(e));
        }
        self.wind_down_outbound();
        self.sweep_inbound();
        if let Some(e) = self.pop_event() {
            return Some(ConnectionHandlerEvent::NotifyBehaviour(e));
        }
        let ghost before = self@;
        if let Some(info) = self.pending_outbound_streams.pop() {
            proof {
                assert(self@.inbound =~= before.inbound);
            }
            return Some(ConnectionHandlerEvent::OutboundSubstreamRequest(info));
        }
        if self.connection_state == ConnectionState::ShuttingDown && self.inbound_streams.len() == 0
            && self.outbound_streams.len() == 0 && self.behaviour_events.len() == 0 {
            self.connection_state = ConnectionState::Closed;
            proof {
                assert(self@.inbound =~= before.inbound);
            }
            return Some(ConnectionHandlerEvent::NotifyBehaviour(HandlerEvent::Close));
        }
        None
    }

    /// Carries out what the application asks.
    pub fn on_behaviour_event(&mut self, event: ConnectionRequest<Q, R>)
        requires
            old(self).wf(),
        ensures
            final(self).wf(),
            match event {
                ConnectionRequest::Request { request_id, message } => final(self)@ == old(
                    self,
                )@.after_request(request_id, message),
                ConnectionRequest::Response { stream_id, message } => final(self)@ == old(
                    self,
                )@.after_response(stream_id, *message),
                ConnectionRequest::Shutdown => final(self)@ == old(self)@.after_shutdown(),
            },
    {
        match event {
            ConnectionRequest::Request { request_id, message } => self.request(request_id, message),
            ConnectionRequest::Response { stream_id, message } => self.response(stream_id, *message),
            ConnectionRequest::Shutdown => self.shutdown(),
        }
    }

    /// Takes in what the driver reports.
    pub fn on_connection_event(&mut self, event: ConnectionEvent<Q, R>)
        requires
            old(self).wf(),
            event is FullyNegotiatedInbound ==> old(self)@.next_inbound_id < u64::MAX,
            event is FullyNegotiatedOutbound ==> old(self)@.next_outbound_id < u64::MAX,
        ensures
            final(self).wf(),
            match event {
                ConnectionEvent::FullyNegotiatedInbound(message) => final(self)@ == old(
                    self,
                )@.after_inbound_negotiated(message),
                ConnectionEvent::FullyNegotiatedOutbound(info) => final(self)@ == old(
                    self,
                )@.after_outbound_negotiated(info),
                ConnectionEvent::InboundSendDone { stream_id, result } => final(self)@ == old(
                    self,
                )@.after_inbound_send(stream_id, result),
                ConnectionEvent::InboundCloseDone { stream_id, result } => final(self)@ == old(
                    self,
                )@.after_inbound_close(stream_id, result),
                ConnectionEvent::OutboundFrame { stream_id, frame } => final(self)@ == old(
                    self,
                )@.after_outbound_frame(stream_id, frame),
                ConnectionEvent::OutboundCloseDone { stream_id } => final(self)@ == old(
                    self,
                )@.after_outbound_close(stream_id),
                ConnectionEvent::TimedOut { direction, stream_id } => final(self)@ == old(
                    self,
                )@.after_timeout(direction, stream_id),
            },
    {
        match event {
            ConnectionEvent::FullyNegotiatedInbound(message) => {
                self.on_fully_negotiated_inbound(message);
            },
            ConnectionEvent::FullyNegotiatedOutbound(info) => {
                self.on_fully_negotiated_outbound(info);
            },
            ConnectionEvent::InboundSendDone { stream_id, result } => self.on_inbound_send_done(
                stream_id,
                result,
            ),
            ConnectionEvent::InboundCloseDone { stream_id, result } => self.on_inbound_close_done(
                stream_id,
                result,
            ),
            ConnectionEvent::OutboundFrame { stream_id, frame } => self.on_outbound_frame(
                stream_id,
                frame,
            ),
            ConnectionEvent::OutboundCloseDone { stream_id } => self.on_outbound_close_done(
                stream_id,
            ),
            ConnectionEvent::TimedOut { direction, stream_id } => self.on_timeout(
                direction,
                stream_id,
            ),
        }
    }
}

} // verus!
