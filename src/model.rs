//! The abstract state of a connection handler and what each of its
//! operations does to it.
use vstd::prelude::*;

use crate::error::ReqRespError;
use crate::handler::{
    ChannelCommand, ConnectionHandlerEvent, ConnectionState, InboundOperation, InboundStreamState,
    OutboundStream, OutboundStreamState, StreamDirection,
};
use crate::message::{
    HandlerEvent, OutboundOpenInfo, ReqRespMessageError, ReqRespMessageReceived, RespMessage,
};

verus! {

/// How far a connection has gone through its lifecycle.
pub open spec fn lifecycle_rank(s: ConnectionState) -> nat {
    match s {
        ConnectionState::Live => 0,
        ConnectionState::ShuttingDown => 1,
        ConnectionState::Closed => 2,
    }
}

/// An inbound stream as the model sees it.
pub struct InboundStreamView<R> {
    pub stream_id: u64,
    pub state: InboundStreamState,
    /// Responses waiting to be sent, oldest first.
    pub queue: Seq<RespMessage<R>>,
    /// Every response that was ever queued on this stream, in order.
    pub submitted: Seq<RespMessage<R>>,
    /// Every response taken from the queue and handed to the channel, in order.
    pub dispatched: Seq<RespMessage<R>>,
    /// Channel operations handed out on this stream.
    pub operations_started: nat,
    /// Channel operations on this stream whose outcome came back.
    pub operations_completed: nat,
}

/// The whole state of a connection handler.
pub struct HandlerView<Q, R> {
    pub connection_state: ConnectionState,
    /// The identifier that the next accepted inbound stream gets.
    pub next_inbound_id: u64,
    /// The identifier that the next negotiated outbound stream gets.
    pub next_outbound_id: u64,
    /// Registered inbound streams, by ascending identifier.
    pub inbound: Seq<InboundStreamView<R>>,
    /// Registered outbound streams, by ascending identifier.
    pub outbound: Seq<OutboundStream<Q>>,
    /// Requests waiting for an outbound stream.
    pub pending_outbound: Seq<OutboundOpenInfo<Q>>,
    /// Events for the application, oldest first.
    pub events: Seq<HandlerEvent<Q, R>>,
    /// Channel and timer work for the driver, oldest first.
    pub commands: Seq<ChannelCommand<R>>,
}

pub open spec fn disconnected_error<Q, R>(request_id: u64) -> HandlerEvent<Q, R> {
    HandlerEvent::Failed(
        ReqRespMessageError::Outbound { request_id, err: ReqRespError::Disconnected },
    )
}

impl<R> InboundStreamView<R> {
    pub open spec fn fresh(stream_id: u64) -> Self {
        InboundStreamView {
            stream_id,
            state: InboundStreamState::Idle,
            queue: Seq::empty(),
            submitted: Seq::empty(),
            dispatched: Seq::empty(),
            operations_started: 0,
            operations_completed: 0,
        }
    }

    /// What was handed to the channel, followed by what still waits, is
    /// exactly what was queued, in the order it was queued.
    pub open spec fn delivers_in_order(self) -> bool {
        self.submitted == self.dispatched + self.queue
    }

    /// Only the last response handed to the channel may be an error or the
    /// end of the stream, and once it is, the stream is on its way to close.
    pub open spec fn terminal_is_last(self) -> bool {
        &&& forall|i: int|
            0 <= i < self.dispatched.len() - 1 ==> (#[trigger] self.dispatched[i]).is_response()
        &&& (self.dispatched.len() > 0 && !self.dispatched.last().is_response()) ==> (
        self.state == InboundStreamState::Busy(InboundOperation::Close) || self.state
            == InboundStreamState::Busy(InboundOperation::Send { close_after: true }))
    }

    /// A send in flight carries the last response handed out.
    pub open spec fn send_matches_dispatch(self) -> bool {
        match self.state {
            InboundStreamState::Busy(InboundOperation::Send { close_after }) => {
                &&& self.dispatched.len() > 0
                &&& !self.dispatched.last().is_end_of_stream()
                &&& close_after == self.dispatched.last().is_error()
            },
            _ => true,
        }
    }

    /// At most one channel operation is outstanding, and exactly one while busy.
    pub open spec fn one_operation_at_a_time(self) -> bool {
        self.operations_started == self.operations_completed + (if self.state is Busy {
            1nat
        } else {
            0nat
        })
    }

    pub open spec fn wf(self) -> bool {
        &&& self.delivers_in_order()
        &&& self.terminal_is_last()
        &&& self.send_matches_dispatch()
        &&& self.one_operation_at_a_time()
    }

    /// The stream after the application queued `message` on it.
    pub open spec fn enqueue(self, message: RespMessage<R>) -> Self {
        InboundStreamView {
            queue: self.queue.push(message),
            submitted: self.submitted.push(message),
            ..self
        }
    }

    /// An idle stream starts its next operation, if it has one: a close when
    /// the connection is no longer live, else the oldest queued response.
    pub open spec fn start_next(self, live: bool) -> (Self, Option<ChannelCommand<R>>) {
        if !live {
            (
                InboundStreamView {
                    state: InboundStreamState::Busy(InboundOperation::Close),
                    operations_started: self.operations_started + 1,
                    ..self
                },
                Some(ChannelCommand::CloseInbound { stream_id: self.stream_id }),
            )
        } else if self.queue.len() == 0 {
            (self, None)
        } else {
            let m = self.queue[0];
            let next = InboundStreamView {
                queue: self.queue.drop_first(),
                dispatched: self.dispatched.push(m),
                operations_started: self.operations_started + 1,
                state: if m.is_end_of_stream() {
                    InboundStreamState::Busy(InboundOperation::Close)
                } else {
                    InboundStreamState::Busy(InboundOperation::Send { close_after: m.is_error() })
                },
                ..self
            };
            let command = if m.is_end_of_stream() {
                ChannelCommand::CloseInbound { stream_id: self.stream_id }
            } else {
                ChannelCommand::SendResponse { stream_id: self.stream_id, message: m }
            };
            (next, Some(command))
        }
    }

    /// The stream after one sweep: an idle stream starts its next operation.
    pub open spec fn swept(self, live: bool) -> Self {
        if self.state is Idle {
            self.start_next(live).0
        } else {
            self
        }
    }
}

/// The streams after one sweep.
pub open spec fn sweep_streams<R>(streams: Seq<InboundStreamView<R>>, live: bool) -> Seq<
    InboundStreamView<R>,
> {
    streams.map_values(|s: InboundStreamView<R>| s.swept(live))
}

/// The commands that one sweep hands out, in stream order.
pub open spec fn sweep_commands<R>(streams: Seq<InboundStreamView<R>>, live: bool) -> Seq<
    ChannelCommand<R>,
>
    decreases streams.len(),
{
    if streams.len() == 0 {
        Seq::empty()
    } else {
        let s = streams.last();
        let rest = sweep_commands(streams.drop_last(), live);
        if s.state is Idle && s.start_next(live).1 is Some {
            rest.push(s.start_next(live).1->Some_0)
        } else {
            rest
        }
    }
}

/// An outbound stream that waits for a response is sent to close.
pub open spec fn close_if_pending<Q>(s: OutboundStream<Q>) -> OutboundStream<Q> {
    if s.state is PendingResponse {
        OutboundStream { state: OutboundStreamState::Closing, ..s }
    } else {
        s
    }
}

/// Outbound streams that wait for a response are sent to close.
pub open spec fn close_pending_streams<Q>(streams: Seq<OutboundStream<Q>>) -> Seq<OutboundStream<Q>> {
    streams.map_values(|s: OutboundStream<Q>| close_if_pending(s))
}

/// The disconnection errors reported for streams that were sent to close.
pub open spec fn disconnect_events<Q, R>(streams: Seq<OutboundStream<Q>>) -> Seq<HandlerEvent<Q, R>>
    decreases streams.len(),
{
    if streams.len() == 0 {
        Seq::empty()
    } else {
        let s = streams.last();
        let rest = disconnect_events(streams.drop_last());
        if s.state is PendingResponse {
            rest.push(disconnected_error(s.request_id))
        } else {
            rest
        }
    }
}

/// The close commands for streams that were sent to close.
pub open spec fn disconnect_commands<Q, R>(streams: Seq<OutboundStream<Q>>) -> Seq<
    ChannelCommand<R>,
>
    decreases streams.len(),
{
    if streams.len() == 0 {
        Seq::empty()
    } else {
        let s = streams.last();
        let rest = disconnect_commands(streams.drop_last());
        if s.state is PendingResponse {
            rest.push(ChannelCommand::CloseOutbound { stream_id: s.stream_id })
        } else {
            rest
        }
    }
}

/// The disconnection errors for requests that never got a stream.
pub open spec fn refused_requests<Q, R>(pending: Seq<OutboundOpenInfo<Q>>) -> Seq<
    HandlerEvent<Q, R>,
> {
    pending.map_values(|p: OutboundOpenInfo<Q>| disconnected_error(p.request_id))
}

impl<Q, R> HandlerView<Q, R> {
    pub open spec fn initial() -> Self {
        HandlerView {
            connection_state: ConnectionState::Live,
            next_inbound_id: 0,
            next_outbound_id: 0,
            inbound: Seq::empty(),
            outbound: Seq::empty(),
            pending_outbound: Seq::empty(),
            events: Seq::empty(),
            commands: Seq::empty(),
        }
    }

    pub open spec fn is_live(self) -> bool {
        self.connection_state == ConnectionState::Live
    }

    pub open spec fn wf(self) -> bool {
        &&& forall|i: int, j: int|
            0 <= i < j < self.inbound.len() ==> (#[trigger] self.inbound[i]).stream_id
                < (#[trigger] self.inbound[j]).stream_id
        &&& forall|i: int|
            0 <= i < self.inbound.len() ==> (#[trigger] self.inbound[i]).stream_id
                < self.next_inbound_id && self.inbound[i].wf()
        &&& forall|i: int, j: int|
            0 <= i < j < self.outbound.len() ==> (#[trigger] self.outbound[i]).stream_id
                < (#[trigger] self.outbound[j]).stream_id
        &&& forall|i: int|
            0 <= i < self.outbound.len() ==> (#[trigger] self.outbound[i]).stream_id
                < self.next_outbound_id
        &&& forall|i: int| 0 <= i < self.events.len() ==> !(#[trigger] self.events[i] is Close)
    }

    pub open spec fn has_inbound(self, stream_id: u64) -> bool {
        exists|i: int| 0 <= i < self.inbound.len() && (#[trigger] self.inbound[i]).stream_id == stream_id
    }

    /// Where inbound stream `stream_id` stands in the registry.
    pub open spec fn inbound_index(self, stream_id: u64) -> int {
        choose|i: int| 0 <= i < self.inbound.len() && (#[trigger] self.inbound[i]).stream_id == stream_id
    }

    pub open spec fn has_outbound(self, stream_id: u64) -> bool {
        exists|i: int|
            0 <= i < self.outbound.len() && (#[trigger] self.outbound[i]).stream_id == stream_id
    }

    /// Where outbound stream `stream_id` stands in the registry.
    pub open spec fn outbound_index(self, stream_id: u64) -> int {
        choose|i: int|
            0 <= i < self.outbound.len() && (#[trigger] self.outbound[i]).stream_id == stream_id
    }

    pub open spec fn push_event(self, e: HandlerEvent<Q, R>) -> Self {
        HandlerView { events: self.events.push(e), ..self }
    }

    pub open spec fn push_command(self, c: ChannelCommand<R>) -> Self {
        HandlerView { commands: self.commands.push(c), ..self }
    }

    pub open spec fn set_inbound(self, i: int, s: InboundStreamView<R>) -> Self {
        HandlerView { inbound: self.inbound.update(i, s), ..self }
    }

    pub open spec fn remove_inbound(self, i: int) -> Self {
        HandlerView { inbound: self.inbound.remove(i), ..self }
    }

    pub open spec fn set_outbound(self, i: int, s: OutboundStream<Q>) -> Self {
        HandlerView { outbound: self.outbound.update(i, s), ..self }
    }

    pub open spec fn remove_outbound(self, i: int) -> Self {
        HandlerView { outbound: self.outbound.remove(i), ..self }
    }

    /// No operation takes the connection back in its lifecycle or hands out
    /// an identifier twice.
    pub open spec fn advances_to(self, next: Self) -> bool {
        &&& lifecycle_rank(self.connection_state) <= lifecycle_rank(next.connection_state)
        &&& self.next_inbound_id <= next.next_inbound_id
        &&& self.next_outbound_id <= next.next_outbound_id
    }

    /// The application asks for `message` to be sent to the peer.
    pub open spec fn after_request(self, request_id: u64, message: Q) -> Self {
        if self.is_live() {
            HandlerView {
                pending_outbound: self.pending_outbound.push(OutboundOpenInfo { request_id, message }),
                ..self
            }
        } else {
            self.push_event(disconnected_error(request_id))
        }
    }

    /// The application queues `message` for inbound stream `stream_id`. An
    /// error is also reported back to the application; nothing is queued once
    /// the connection is no longer live.
    pub open spec fn after_response(self, stream_id: u64, message: RespMessage<R>) -> Self {
        if !self.has_inbound(stream_id) {
            self
        } else {
            let i = self.inbound_index(stream_id);
            let reported = match message {
                RespMessage::Error(err) => self.push_event(
                    HandlerEvent::Failed(ReqRespMessageError::Inbound { stream_id, err }),
                ),
                _ => self,
            };
            if self.is_live() {
                reported.set_inbound(i, self.inbound[i].enqueue(message))
            } else {
                reported
            }
        }
    }

    pub open spec fn after_shutdown(self) -> Self {
        if self.is_live() {
            HandlerView { connection_state: ConnectionState::ShuttingDown, ..self }
        } else {
            self
        }
    }

    /// The peer opened an inbound stream with `message`.
    pub open spec fn after_inbound_negotiated(self, message: Q) -> Self {
        let id = self.next_inbound_id;
        HandlerView {
            next_inbound_id: (id + 1) as u64,
            inbound: self.inbound.push(InboundStreamView::fresh(id)),
            ..self
        }.push_command(ChannelCommand::RefreshTimeout { direction: StreamDirection::Inbound, stream_id: id }).push_event(
            HandlerEvent::Received(
                Box::new(ReqRespMessageReceived::Request { stream_id: id, message: Box::new(message) }),
            ),
        )
    }

    /// An outbound stream was negotiated for the request in `info`.
    pub open spec fn after_outbound_negotiated(self, info: OutboundOpenInfo<Q>) -> Self {
        let id = self.next_outbound_id;
        HandlerView {
            next_outbound_id: (id + 1) as u64,
            outbound: self.outbound.push(
                OutboundStream {
                    stream_id: id,
                    request_id: info.request_id,
                    state: OutboundStreamState::PendingResponse { message: info.message },
                },
            ),
            ..self
        }.push_command(ChannelCommand::RefreshTimeout { direction: StreamDirection::Outbound, stream_id: id })
    }

    /// A send on inbound stream `stream_id` finished with `result`. A plain
    /// response leaves the stream idle and starts the next operation; after
    /// an error response or a failed send the stream is closed.
    pub open spec fn after_inbound_send(self, stream_id: u64, result: Result<(), ReqRespError>) -> Self {
        if !self.has_inbound(stream_id) {
            self
        } else {
            let i = self.inbound_index(stream_id);
            let s = self.inbound[i];
            match s.state {
                InboundStreamState::Busy(InboundOperation::Send { close_after }) => {
                    let done = InboundStreamView {
                        operations_completed: s.operations_completed + 1,
                        ..s
                    };
                    let closing = InboundStreamView {
                        state: InboundStreamState::Busy(InboundOperation::Close),
                        operations_started: done.operations_started + 1,
                        ..done
                    };
                    let close = ChannelCommand::CloseInbound { stream_id };
                    match result {
                        Ok(()) => if close_after {
                            self.set_inbound(i, closing).push_command(close)
                        } else {
                            let idle = InboundStreamView { state: InboundStreamState::Idle, ..done };
                            let (next, command) = idle.start_next(self.is_live());
                            let refreshed = self.set_inbound(i, next).push_command(
                                ChannelCommand::RefreshTimeout { direction: StreamDirection::Inbound, stream_id },
                            );
                            match command {
                                Some(c) => refreshed.push_command(c),
                                None => refreshed,
                            }
                        },
                        Err(err) => self.push_event(
                            HandlerEvent::Failed(ReqRespMessageError::Inbound { stream_id, err }),
                        ).set_inbound(i, closing).push_command(close),
                    }
                },
                _ => self,
            }
        }
    }

    /// A close of inbound stream `stream_id` finished with `result`: the
    /// stream leaves the registry.
    pub open spec fn after_inbound_close(self, stream_id: u64, result: Result<(), ReqRespError>) -> Self {
        if !self.has_inbound(stream_id) {
            self
        } else {
            let i = self.inbound_index(stream_id);
            if self.inbound[i].state == InboundStreamState::Busy(InboundOperation::Close) {
                let removed = self.remove_inbound(i).push_command(
                    ChannelCommand::Release { direction: StreamDirection::Inbound, stream_id },
                );
                match result {
                    Ok(()) => removed,
                    Err(err) => removed.push_event(
                        HandlerEvent::Failed(ReqRespMessageError::Inbound { stream_id, err }),
                    ),
                }
            } else {
                self
            }
        }
    }

    /// The next read on outbound stream `stream_id` gave `frame`: `None` when
    /// the peer ended the stream.
    pub open spec fn after_outbound_frame(
        self,
        stream_id: u64,
        frame: Option<Result<RespMessage<R>, ReqRespError>>,
    ) -> Self {
        if !self.has_outbound(stream_id) {
            self
        } else {
            let i = self.outbound_index(stream_id);
            let s = self.outbound[i];
            let request_id = s.request_id;
            if !(s.state is PendingResponse) {
                self
            } else {
                let release = ChannelCommand::Release { direction: StreamDirection::Outbound, stream_id };
                let closing = self.set_outbound(i, OutboundStream { state: OutboundStreamState::Closing, ..s }).push_command(
                    ChannelCommand::CloseOutbound { stream_id },
                );
                match frame {
                    None => self.remove_outbound(i).push_command(release).push_event(
                        HandlerEvent::Received(Box::new(ReqRespMessageReceived::EndOfStream { request_id })),
                    ),
                    Some(Err(err)) => self.remove_outbound(i).push_command(release).push_event(
                        HandlerEvent::Failed(ReqRespMessageError::Outbound { request_id, err }),
                    ),
                    Some(Ok(RespMessage::Response(message))) => self.push_command(
                        ChannelCommand::RefreshTimeout { direction: StreamDirection::Outbound, stream_id },
                    ).push_event(
                        HandlerEvent::Received(Box::new(ReqRespMessageReceived::Response { request_id, message })),
                    ),
                    Some(Ok(RespMessage::Error(err))) => closing.push_event(
                        HandlerEvent::Failed(ReqRespMessageError::Outbound { request_id, err }),
                    ),
                    Some(Ok(RespMessage::EndOfStream)) => closing,
                }
            }
        }
    }

    /// A close of outbound stream `stream_id` finished: the stream leaves the
    /// registry and its request ends.
    pub open spec fn after_outbound_close(self, stream_id: u64) -> Self {
        if !self.has_outbound(stream_id) {
            self
        } else {
            let i = self.outbound_index(stream_id);
            let s = self.outbound[i];
            if s.state is Closing {
                self.remove_outbound(i).push_command(
                    ChannelCommand::Release { direction: StreamDirection::Outbound, stream_id },
                ).push_event(
                    HandlerEvent::Received(
                        Box::new(ReqRespMessageReceived::EndOfStream { request_id: s.request_id }),
                    ),
                )
            } else {
                self
            }
        }
    }

    /// The idle timeout of a stream elapsed: the stream is evicted with a
    /// timeout error, whatever it still had queued.
    pub open spec fn after_timeout(self, direction: StreamDirection, stream_id: u64) -> Self {
        let release = ChannelCommand::Release { direction, stream_id };
        match direction {
            StreamDirection::Inbound => if self.has_inbound(stream_id) {
                self.remove_inbound(self.inbound_index(stream_id)).push_command(release).push_event(
                    HandlerEvent::Failed(
                        ReqRespMessageError::Inbound { stream_id, err: ReqRespError::StreamTimedOut },
                    ),
                )
            } else {
                self
            },
            StreamDirection::Outbound => if self.has_outbound(stream_id) {
                let request_id = self.outbound[self.outbound_index(stream_id)].request_id;
                self.remove_outbound(self.outbound_index(stream_id)).push_command(release).push_event(
                    HandlerEvent::Failed(
                        ReqRespMessageError::Outbound { request_id, err: ReqRespError::StreamTimedOut },
                    ),
                )
            } else {
                self
            },
        }
    }

    /// Once the connection is no longer live, streams that wait for a
    /// response are closed with a disconnection error, and so are requests
    /// that never got a stream.
    pub open spec fn wind_down_outbound(self) -> Self {
        if self.is_live() {
            self
        } else {
            HandlerView {
                outbound: close_pending_streams(self.outbound),
                events: self.events + disconnect_events(self.outbound) + refused_requests(
                    self.pending_outbound,
                ),
                commands: self.commands + disconnect_commands(self.outbound),
                pending_outbound: Seq::empty(),
                ..self
            }
        }
    }

    /// Every idle inbound stream starts its next operation.
    pub open spec fn sweep_inbound(self) -> Self {
        HandlerView {
            inbound: sweep_streams(self.inbound, self.is_live()),
            commands: self.commands + sweep_commands(self.inbound, self.is_live()),
            ..self
        }
    }

    /// The connection may close: it is shutting down and nothing is left.
    pub open spec fn drained(self) -> bool {
        &&& self.connection_state == ConnectionState::ShuttingDown
        &&& self.inbound.len() == 0
        &&& self.outbound.len() == 0
        &&& self.pending_outbound.len() == 0
        &&& self.events.len() == 0
    }

    /// One step of the driver: the oldest event if there is one; else, after
    /// advancing both registries, the oldest event they produced, a request
    /// to negotiate an outbound stream, or the close of a drained connection.
    pub open spec fn after_poll(self) -> (Self, Option<ConnectionHandlerEvent<Q, R>>) {
        if self.events.len() > 0 {
            (
                HandlerView { events: self.events.drop_first(), ..self },
                Some(ConnectionHandlerEvent::NotifyBehaviour(self.events[0])),
            )
        } else {
            let v = self.wind_down_outbound().sweep_inbound();
            if v.events.len() > 0 {
                (
                    HandlerView { events: v.events.drop_first(), ..v },
                    Some(ConnectionHandlerEvent::NotifyBehaviour(v.events[0])),
                )
            } else if v.pending_outbound.len() > 0 {
                (
                    HandlerView { pending_outbound: v.pending_outbound.drop_last(), ..v },
                    Some(ConnectionHandlerEvent::OutboundSubstreamRequest(v.pending_outbound.last())),
                )
            } else if v.drained() {
                (
                    HandlerView { connection_state: ConnectionState::Closed, ..v },
                    Some(ConnectionHandlerEvent::NotifyBehaviour(HandlerEvent::Close)),
                )
            } else {
                (v, None)
            }
        }
    }

    /// The driver takes the oldest command.
    pub open spec fn after_take_command(self) -> (Self, Option<ChannelCommand<R>>) {
        if self.commands.len() > 0 {
            (HandlerView { commands: self.commands.drop_first(), ..self }, Some(self.commands[0]))
        } else {
            (self, None)
        }
    }
}

pub proof fn lemma_set_inbound_wf<Q, R>(v: HandlerView<Q, R>, i: int, s: InboundStreamView<R>)
    requires
        v.wf(),
        0 <= i < v.inbound.len(),
        s.wf(),
        s.stream_id == v.inbound[i].stream_id,
    ensures
        v.set_inbound(i, s).wf(),
{
    let n = v.set_inbound(i, s);
    assert forall|a: int, b: int| 0 <= a < b < n.inbound.len() implies (#[trigger] n.inbound[a]).stream_id
        < (#[trigger] n.inbound[b]).stream_id by {
        assert(v.inbound[a].stream_id < v.inbound[b].stream_id);
    }
    assert forall|a: int| 0 <= a < n.inbound.len() implies (#[trigger] n.inbound[a]).stream_id
        < n.next_inbound_id && n.inbound[a].wf() by {
        assert(v.inbound[a].stream_id < v.next_inbound_id);
    }
}

pub proof fn lemma_remove_inbound_wf<Q, R>(v: HandlerView<Q, R>, i: int)
    requires
        v.wf(),
        0 <= i < v.inbound.len(),
    ensures
        v.remove_inbound(i).wf(),
{
    let n = v.remove_inbound(i);
    assert forall|a: int, b: int| 0 <= a < b < n.inbound.len() implies (#[trigger] n.inbound[a]).stream_id
        < (#[trigger] n.inbound[b]).stream_id by {
        let a1 = if a < i { a } else { a + 1 };
        let b1 = if b < i { b } else { b + 1 };
        assert(v.inbound[a1].stream_id < v.inbound[b1].stream_id);
    }
    assert forall|a: int| 0 <= a < n.inbound.len() implies (#[trigger] n.inbound[a]).stream_id
        < n.next_inbound_id && n.inbound[a].wf() by {
        let a1 = if a < i { a } else { a + 1 };
        assert(v.inbound[a1].stream_id < v.next_inbound_id);
    }
}

pub proof fn lemma_set_outbound_wf<Q, R>(v: HandlerView<Q, R>, i: int, s: OutboundStream<Q>)
    requires
        v.wf(),
        0 <= i < v.outbound.len(),
        s.stream_id == v.outbound[i].stream_id,
    ensures
        v.set_outbound(i, s).wf(),
{
    let n = v.set_outbound(i, s);
    assert forall|a: int, b: int| 0 <= a < b < n.outbound.len() implies (#[trigger] n.outbound[a]).stream_id
        < (#[trigger] n.outbound[b]).stream_id by {
        assert(v.outbound[a].stream_id < v.outbound[b].stream_id);
    }
    assert forall|a: int| 0 <= a < n.outbound.len() implies (#[trigger] n.outbound[a]).stream_id
        < n.next_outbound_id by {
        assert(v.outbound[a].stream_id < v.next_outbound_id);
    }
}

pub proof fn lemma_remove_outbound_wf<Q, R>(v: HandlerView<Q, R>, i: int)
    requires
        v.wf(),
        0 <= i < v.outbound.len(),
    ensures
        v.remove_outbound(i).wf(),
{
    let n = v.remove_outbound(i);
    assert forall|a: int, b: int| 0 <= a < b < n.outbound.len() implies (#[trigger] n.outbound[a]).stream_id
        < (#[trigger] n.outbound[b]).stream_id by {
        let a1 = if a < i { a } else { a + 1 };
        let b1 = if b < i { b } else { b + 1 };
        assert(v.outbound[a1].stream_id < v.outbound[b1].stream_id);
    }
    assert forall|a: int| 0 <= a < n.outbound.len() implies (#[trigger] n.outbound[a]).stream_id
        < n.next_outbound_id by {
        let a1 = if a < i { a } else { a + 1 };
        assert(v.outbound[a1].stream_id < v.next_outbound_id);
    }
}

pub proof fn lemma_push_event_wf<Q, R>(v: HandlerView<Q, R>, e: HandlerEvent<Q, R>)
    requires
        v.wf(),
        !(e is Close),
    ensures
        v.push_event(e).wf(),
{
    let n = v.push_event(e);
    assert forall|a: int| 0 <= a < n.events.len() implies !(#[trigger] n.events[a] is Close) by {
        if a < v.events.len() {
            assert(n.events[a] == v.events[a]);
        }
    }
}

/// A stream that is not busy has handed nothing to the channel but responses.
pub proof fn lemma_idle_dispatched_only_responses<R>(s: InboundStreamView<R>)
    requires
        s.wf(),
        s.state is Idle,
    ensures
        forall|k: int| 0 <= k < s.dispatched.len() ==> (#[trigger] s.dispatched[k]).is_response(),
{
    assert forall|k: int| 0 <= k < s.dispatched.len() implies (#[trigger] s.dispatched[k]).is_response() by {
        if k < s.dispatched.len() - 1 {
        } else {
            assert(s.dispatched[k] == s.dispatched.last());
        }
    }
}

pub proof fn lemma_start_next_wf<R>(s: InboundStreamView<R>, live: bool)
    requires
        s.wf(),
        s.state is Idle,
    ensures
        s.start_next(live).0.wf(),
        s.start_next(live).0.stream_id == s.stream_id,
{
    lemma_idle_dispatched_only_responses(s);
    let n = s.start_next(live).0;
    if live && s.queue.len() > 0 {
        assert(n.dispatched + n.queue =~= s.dispatched + s.queue);
        assert forall|k: int| 0 <= k < n.dispatched.len() - 1 implies (#[trigger] n.dispatched[k]).is_response() by {
            assert(n.dispatched[k] == s.dispatched[k]);
        }
    }
}

pub proof fn lemma_enqueue_wf<R>(s: InboundStreamView<R>, m: RespMessage<R>)
    requires
        s.wf(),
    ensures
        s.enqueue(m).wf(),
{
    let n = s.enqueue(m);
    assert(n.dispatched + n.queue =~= (s.dispatched + s.queue).push(m));
}

} // verus!
