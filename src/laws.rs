//! Properties of the connection handler that hold over sequences of
//! operations or in every state it can reach.
use vstd::prelude::*;

use crate::error::ReqRespError;
use crate::handler::{
    ConnectionHandlerEvent, ConnectionState, InboundStreamState, OutboundStream,
    StreamDirection,
};
use crate::message::{
    HandlerEvent, OutboundOpenInfo, ReqRespMessageError, ReqRespMessageReceived, RespMessage,
};
use crate::model::{
    disconnect_events, lifecycle_rank, refused_requests, sweep_streams, HandlerView,
    InboundStreamView,
};

verus! {

/// Every operation of the handler moves forward: the lifecycle never goes
/// back and the next identifiers never shrink.
pub proof fn lemma_every_operation_advances<Q, R>(v: HandlerView<Q, R>)
    ensures
        forall|request_id: u64, message: Q| v.advances_to(#[trigger] v.after_request(request_id, message)),
        forall|stream_id: u64, message: RespMessage<R>|
            v.advances_to(#[trigger] v.after_response(stream_id, message)),
        v.advances_to(v.after_shutdown()),
        v.next_inbound_id < u64::MAX ==> forall|message: Q|
            v.advances_to(#[trigger] v.after_inbound_negotiated(message)),
        v.next_outbound_id < u64::MAX ==> forall|info: OutboundOpenInfo<Q>|
            v.advances_to(#[trigger] v.after_outbound_negotiated(info)),
        forall|stream_id: u64, result: Result<(), ReqRespError>|
            v.advances_to(#[trigger] v.after_inbound_send(stream_id, result)),
        forall|stream_id: u64, result: Result<(), ReqRespError>|
            v.advances_to(#[trigger] v.after_inbound_close(stream_id, result)),
        forall|stream_id: u64, frame: Option<Result<RespMessage<R>, ReqRespError>>|
            v.advances_to(#[trigger] v.after_outbound_frame(stream_id, frame)),
        forall|stream_id: u64| v.advances_to(#[trigger] v.after_outbound_close(stream_id)),
        forall|direction: StreamDirection, stream_id: u64|
            v.advances_to(#[trigger] v.after_timeout(direction, stream_id)),
        v.advances_to(v.after_poll().0),
        v.advances_to(v.after_take_command().0),
{
    assert forall|stream_id: u64, result: Result<(), ReqRespError>|
        v.advances_to(#[trigger] v.after_inbound_send(stream_id, result)) by {
        if v.has_inbound(stream_id) {
            let s = v.inbound[v.inbound_index(stream_id)];
            let live = v.is_live();
            let idle = InboundStreamView { state: InboundStreamState::Idle, ..s };
            let _ = idle.start_next(live);
        }
    }
}

/// Inbound stream identifiers strictly increase over the life of a
/// connection and are never reused: a stream accepted after another, with
/// any operations in between, gets a larger identifier, and the identifier
/// handed out next belongs to no registered stream.
pub proof fn lemma_inbound_ids_never_reused<Q, R>(
    first: HandlerView<Q, R>,
    first_message: Q,
    later: HandlerView<Q, R>,
)
    requires
        first.next_inbound_id < u64::MAX,
        first.after_inbound_negotiated(first_message).advances_to(later),
    ensures
        first.next_inbound_id < later.next_inbound_id,
        later.wf() ==> !later.has_inbound(later.next_inbound_id),
{
    if later.wf() && later.has_inbound(later.next_inbound_id) {
        let i = later.inbound_index(later.next_inbound_id);
        assert(later.inbound[i].stream_id < later.next_inbound_id);
    }
}

/// Responses leave an inbound stream in the order in which they were
/// queued, and nothing is handed to the channel after an error response or
/// the end of the stream.
pub proof fn lemma_responses_leave_in_order<Q, R>(v: HandlerView<Q, R>, i: int)
    requires
        v.wf(),
        0 <= i < v.inbound.len(),
    ensures
        v.inbound[i].submitted == v.inbound[i].dispatched + v.inbound[i].queue,
        forall|k: int|
            0 <= k < v.inbound[i].dispatched.len() - 1 ==> (#[trigger] v.inbound[i].dispatched[k]).is_response(),
{
    assert(v.inbound[i].wf());
}

/// No inbound stream ever has two channel operations in flight.
pub proof fn lemma_one_operation_per_stream<Q, R>(v: HandlerView<Q, R>, i: int)
    requires
        v.wf(),
        0 <= i < v.inbound.len(),
    ensures
        v.inbound[i].operations_started <= v.inbound[i].operations_completed + 1,
        v.inbound[i].operations_started == v.inbound[i].operations_completed + 1 <==> v.inbound[i].state is Busy,
{
    assert(v.inbound[i].wf());
}

proof fn lemma_sweep_keeps_ids<R>(streams: Seq<InboundStreamView<R>>, live: bool)
    ensures
        sweep_streams(streams, live).len() == streams.len(),
        forall|k: int|
            0 <= k < streams.len() ==> (#[trigger] sweep_streams(streams, live)[k]).stream_id
                == streams[k].stream_id,
{
    assert forall|k: int| 0 <= k < streams.len() implies (#[trigger] sweep_streams(
        streams,
        live,
    )[k]).stream_id == streams[k].stream_id by {
        let s = streams[k];
        if s.state is Idle {
            let _ = s.start_next(live);
        }
    }
}

/// When the idle timeout of a registered inbound stream elapses, exactly
/// one `StreamTimedOut` error is reported for it, and the stream is gone,
/// also after the next poll.
pub proof fn lemma_timeout_evicts_inbound<Q, R>(v: HandlerView<Q, R>, stream_id: u64)
    requires
        v.wf(),
        v.has_inbound(stream_id),
    ensures
        v.after_timeout(StreamDirection::Inbound, stream_id).events == v.events.push(
            HandlerEvent::Failed(
                ReqRespMessageError::Inbound { stream_id, err: ReqRespError::StreamTimedOut },
            ),
        ),
        !v.after_timeout(StreamDirection::Inbound, stream_id).has_inbound(stream_id),
        !v.after_timeout(StreamDirection::Inbound, stream_id).after_poll().0.has_inbound(stream_id),
{
    let n = v.after_timeout(StreamDirection::Inbound, stream_id);
    let i = v.inbound_index(stream_id);
    if n.has_inbound(stream_id) {
        let j = n.inbound_index(stream_id);
        let j1 = if j < i { j } else { j + 1 };
        assert(v.inbound[j1].stream_id == stream_id);
        if j1 < i {
            assert(v.inbound[j1].stream_id < v.inbound[i].stream_id);
        } else {
            assert(v.inbound[i].stream_id < v.inbound[j1].stream_id);
        }
    }
    let w = n.wind_down_outbound();
    assert(w.inbound == n.inbound);
    lemma_sweep_keeps_ids(w.inbound, w.is_live());
    let p = n.after_poll().0;
    if p.has_inbound(stream_id) {
        let j = p.inbound_index(stream_id);
        if n.events.len() == 0 {
            assert(p.inbound[j].stream_id == n.inbound[j].stream_id);
        }
        assert(n.inbound[j].stream_id == stream_id);
    }
}

proof fn lemma_disconnect_events_not_close<Q, R>(streams: Seq<OutboundStream<Q>>)
    ensures
        forall|k: int|
            0 <= k < disconnect_events::<Q, R>(streams).len() ==> !(
            #[trigger] disconnect_events::<Q, R>(streams)[k] is Close),
    decreases streams.len(),
{
    if streams.len() > 0 {
        lemma_disconnect_events_not_close::<Q, R>(streams.drop_last());
        let rest = disconnect_events::<Q, R>(streams.drop_last());
        assert forall|k: int|
            0 <= k < disconnect_events::<Q, R>(streams).len() implies !(
            #[trigger] disconnect_events::<Q, R>(streams)[k] is Close) by {
            if k < rest.len() {
                assert(disconnect_events::<Q, R>(streams)[k] == rest[k]);
            }
        }
    }
}

/// Once shutdown is asked for, the connection is never live again, and a
/// request made at any later point fails at once with `Disconnected`
/// without ever waiting for a stream.
pub proof fn lemma_shutdown_refuses_requests<Q, R>(
    v: HandlerView<Q, R>,
    later: HandlerView<Q, R>,
    request_id: u64,
    message: Q,
)
    requires
        v.after_shutdown().advances_to(later),
    ensures
        !later.is_live(),
        later.after_request(request_id, message).events == later.events.push(
            HandlerEvent::Failed(
                ReqRespMessageError::Outbound { request_id, err: ReqRespError::Disconnected },
            ),
        ),
        later.after_request(request_id, message).pending_outbound == later.pending_outbound,
        !(later.after_poll().1 matches Some(ConnectionHandlerEvent::OutboundSubstreamRequest(_))),
{
    assert(lifecycle_rank(v.after_shutdown().connection_state) >= 1);
}

/// The connection is reported closeable only while no stream is registered
/// and no request waits for one.
pub proof fn lemma_close_only_when_drained<Q, R>(v: HandlerView<Q, R>)
    requires
        v.wf(),
        v.after_poll().1 == Some(ConnectionHandlerEvent::<Q, R>::NotifyBehaviour(HandlerEvent::Close)),
    ensures
        v.after_poll().0.inbound.len() == 0,
        v.after_poll().0.outbound.len() == 0,
        v.after_poll().0.pending_outbound.len() == 0,
        v.after_poll().0.connection_state == ConnectionState::Closed,
{
    if v.events.len() > 0 {
        assert(!(v.events[0] is Close));
    } else {
        let w = v.wind_down_outbound();
        let s = w.sweep_inbound();
        if s.events.len() > 0 {
            if !v.is_live() {
                lemma_disconnect_events_not_close::<Q, R>(v.outbound);
                let d = disconnect_events::<Q, R>(v.outbound);
                let f = refused_requests::<Q, R>(v.pending_outbound);
                assert(s.events == v.events + d + f);
                if d.len() > 0 {
                    assert(s.events[0] == d[0]);
                } else {
                    assert(s.events[0] == f[0]);
                }
            }
        }
    }
}

/// A request on a live connection with nothing else to report makes a full
/// round trip: the next poll asks for its stream; once the stream is
/// negotiated and the peer sends one response and then ends the stream, the
/// application sees exactly that response followed by the end of the
/// request, with no error, and the stream is gone.
pub proof fn lemma_request_round_trip<Q, R>(
    v: HandlerView<Q, R>,
    request_id: u64,
    message: Q,
    response: Box<R>,
)
    requires
        v.wf(),
        v.is_live(),
        v.events.len() == 0,
        v.pending_outbound.len() == 0,
        v.next_outbound_id < u64::MAX,
    ensures
        ({
            let asked = v.after_request(request_id, message);
            let (polled, out) = asked.after_poll();
            let stream_id = polled.next_outbound_id;
            let info = OutboundOpenInfo { request_id, message };
            let negotiated = polled.after_outbound_negotiated(info);
            let answered = negotiated.after_outbound_frame(
                stream_id,
                Some(Ok(RespMessage::Response(response))),
            );
            let ended = answered.after_outbound_frame(stream_id, None);
            &&& out == Some(ConnectionHandlerEvent::<Q, R>::OutboundSubstreamRequest(info))
            &&& ended.events == seq![
                HandlerEvent::<Q, R>::Received(
                    Box::new(ReqRespMessageReceived::Response { request_id, message: response }),
                ),
                HandlerEvent::Received(Box::new(ReqRespMessageReceived::EndOfStream { request_id })),
            ]
            &&& !ended.has_outbound(stream_id)
        }),
{
    let asked = v.after_request(request_id, message);
    let (polled, out) = asked.after_poll();
    let stream_id = polled.next_outbound_id;
    let info = OutboundOpenInfo { request_id, message };
    assert(asked.wind_down_outbound() == asked);
    assert(polled.outbound == v.outbound);
    assert(polled.events.len() == 0);
    let negotiated = polled.after_outbound_negotiated(info);
    let last = v.outbound.len() as int;
    assert(negotiated.outbound[last].stream_id == stream_id);
    assert(negotiated.has_outbound(stream_id));
    let i = negotiated.outbound_index(stream_id);
    if i != last {
        assert(v.outbound[i].stream_id < v.next_outbound_id);
    }
    assert(i == last);
    let answered = negotiated.after_outbound_frame(
        stream_id,
        Some(Ok(RespMessage::Response(response))),
    );
    assert(answered.outbound == negotiated.outbound);
    let ended = answered.after_outbound_frame(stream_id, None);
    assert(ended.outbound =~= v.outbound);
    if ended.has_outbound(stream_id) {
        let j = ended.outbound_index(stream_id);
        assert(v.outbound[j].stream_id < v.next_outbound_id);
    }
    assert(ended.events =~= seq![
        HandlerEvent::<Q, R>::Received(
            Box::new(ReqRespMessageReceived::Response { request_id, message: response }),
        ),
        HandlerEvent::Received(Box::new(ReqRespMessageReceived::EndOfStream { request_id })),
    ]);
}

} // verus!
