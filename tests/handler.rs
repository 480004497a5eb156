use ream::error::{ReqRespError, ResponseCode};
use ream::handler::{
    ChannelCommand, ConnectionEvent, ConnectionHandlerEvent, ConnectionState,
    ReqRespConnectionHandler, StreamDirection,
};
use ream::message::{
    ConnectionRequest, HandlerEvent, OutboundOpenInfo, ReqRespMessageError,
    ReqRespMessageReceived, RespMessage,
};

type Handler = ReqRespConnectionHandler<u32, u64>;

fn drain_commands(h: &mut Handler) -> Vec<ChannelCommand<u64>> {
    let mut out = Vec::new();
    while let Some(c) = h.take_command() {
        out.push(c);
    }
    out
}

fn drain_events(h: &mut Handler) -> Vec<ConnectionHandlerEvent<u32, u64>> {
    let mut out = Vec::new();
    while let Some(e) = h.poll() {
        out.push(e);
        if out.len() > 1000 {
            panic!("poll never settles");
        }
    }
    out
}

fn response(v: u64) -> RespMessage<u64> {
    RespMessage::Response(Box::new(v))
}

#[test]
fn response_codes_follow_the_error_kind() {
    assert_eq!(response(1).as_response_code(), Some(ResponseCode::Success));
    assert_eq!(RespMessage::<u64>::EndOfStream.as_response_code(), None);
    let cases = vec![
        (ReqRespError::InvalidData("bad".to_string()), ResponseCode::InvalidRequest),
        (ReqRespError::IncompleteStream, ResponseCode::ServerError),
        (ReqRespError::RawError("x".to_string()), ResponseCode::ServerError),
        (ReqRespError::IoError("reset".to_string()), ResponseCode::ServerError),
        (ReqRespError::Anyhow("boom".to_string()), ResponseCode::ServerError),
        (ReqRespError::Disconnected, ResponseCode::ResourceUnavailable),
        (ReqRespError::StreamTimedOut, ResponseCode::ResourceUnavailable),
        (ReqRespError::TokioTimedOut, ResponseCode::ResourceUnavailable),
    ];
    for (err, code) in cases {
        assert_eq!(RespMessage::<u64>::Error(err).as_response_code(), Some(code));
    }
}

#[test]
fn duplicate_error_is_equal() {
    let e = ReqRespError::IoError("reset".to_string());
    assert_eq!(e.duplicate(), e);
}

#[test]
fn inbound_ids_increase_and_are_never_reused() {
    let mut h = Handler::new();
    assert_eq!(h.on_fully_negotiated_inbound(10), 0);
    assert_eq!(h.on_fully_negotiated_inbound(11), 1);
    h.on_timeout(StreamDirection::Inbound, 0);
    h.on_timeout(StreamDirection::Inbound, 1);
    assert_eq!(h.on_fully_negotiated_inbound(12), 2);
    assert_eq!(h.next_inbound_stream_id(), 3);
    let events = drain_events(&mut h);
    let ids: Vec<u64> = events
        .iter()
        .filter_map(|e| match e {
            ConnectionHandlerEvent::NotifyBehaviour(HandlerEvent::Received(r)) => match r.as_ref() {
                ReqRespMessageReceived::Request { stream_id, .. } => Some(*stream_id),
                _ => None,
            },
            _ => None,
        })
        .collect();
    assert_eq!(ids, vec![0, 1, 2]);
}

#[test]
fn accepted_stream_reports_request_and_arms_timeout() {
    let mut h = Handler::new();
    let id = h.on_fully_negotiated_inbound(7);
    let cmds = drain_commands(&mut h);
    assert_eq!(cmds.len(), 1);
    assert!(matches!(
        cmds[0],
        ChannelCommand::RefreshTimeout { direction: StreamDirection::Inbound, stream_id } if stream_id == id
    ));
    match h.poll() {
        Some(ConnectionHandlerEvent::NotifyBehaviour(HandlerEvent::Received(r))) => match *r {
            ReqRespMessageReceived::Request { stream_id, message } => {
                assert_eq!(stream_id, id);
                assert_eq!(*message, 7);
            }
            other => panic!("unexpected {other:?}"),
        },
        other => panic!("unexpected {other:?}"),
    }
    assert!(h.poll().is_none());
}

#[test]
fn queued_responses_leave_in_order_and_stop_after_error() {
    let mut h = Handler::new();
    let id = h.on_fully_negotiated_inbound(1);
    drain_events(&mut h);
    drain_commands(&mut h);
    h.response(id, response(100));
    h.response(id, RespMessage::Error(ReqRespError::InvalidData("no".to_string())));
    h.response(id, response(300));

    // The error is reported to the application as well.
    let events = drain_events(&mut h);
    assert_eq!(events.len(), 1);
    assert!(matches!(
        &events[0],
        ConnectionHandlerEvent::NotifyBehaviour(HandlerEvent::Failed(ReqRespMessageError::Inbound {
            stream_id,
            err: ReqRespError::InvalidData(_)
        })) if *stream_id == id
    ));

    let mut sent = Vec::new();
    let mut closed = false;
    for _ in 0..10 {
        drain_events(&mut h);
        for c in drain_commands(&mut h) {
            match c {
                ChannelCommand::SendResponse { stream_id, message } => {
                    assert_eq!(stream_id, id);
                    assert!(!closed);
                    sent.push(message.as_response_code());
                    if let RespMessage::Response(v) = &message {
                        assert_eq!(**v, 100);
                    }
                    h.on_inbound_send_done(id, Ok(()));
                }
                ChannelCommand::CloseInbound { stream_id } => {
                    assert_eq!(stream_id, id);
                    closed = true;
                    h.on_inbound_close_done(id, Ok(()));
                }
                _ => {}
            }
        }
    }
    assert_eq!(
        sent,
        vec![Some(ResponseCode::Success), Some(ResponseCode::InvalidRequest)]
    );
    assert!(closed);
    // The stream is gone: further responses are ignored.
    h.response(id, response(400));
    drain_events(&mut h);
    assert!(drain_commands(&mut h).is_empty());
}

#[test]
fn end_of_stream_closes_without_a_frame() {
    let mut h = Handler::new();
    let id = h.on_fully_negotiated_inbound(1);
    drain_events(&mut h);
    drain_commands(&mut h);
    h.response(id, RespMessage::EndOfStream);
    h.response(id, response(5));
    assert!(drain_events(&mut h).is_empty());
    let cmds = drain_commands(&mut h);
    assert_eq!(cmds.len(), 1);
    assert!(matches!(cmds[0], ChannelCommand::CloseInbound { stream_id } if stream_id == id));
    h.on_inbound_close_done(id, Ok(()));
    let cmds = drain_commands(&mut h);
    assert!(matches!(
        cmds[0],
        ChannelCommand::Release { direction: StreamDirection::Inbound, stream_id } if stream_id == id
    ));
    assert!(drain_events(&mut h).is_empty());
    assert!(drain_commands(&mut h).is_empty());
}

#[test]
fn failed_send_is_reported_before_the_close() {
    let mut h = Handler::new();
    let id = h.on_fully_negotiated_inbound(1);
    drain_events(&mut h);
    h.response(id, response(1));
    drain_events(&mut h);
    drain_commands(&mut h);
    h.on_inbound_send_done(id, Err(ReqRespError::IoError("reset".to_string())));
    let cmds = drain_commands(&mut h);
    assert!(matches!(cmds[0], ChannelCommand::CloseInbound { stream_id } if stream_id == id));
    let events = drain_events(&mut h);
    assert!(matches!(
        &events[0],
        ConnectionHandlerEvent::NotifyBehaviour(HandlerEvent::Failed(ReqRespMessageError::Inbound {
            err: ReqRespError::IoError(_),
            ..
        }))
    ));
    h.on_inbound_close_done(id, Err(ReqRespError::IncompleteStream));
    let events = drain_events(&mut h);
    assert_eq!(events.len(), 1);
}

#[test]
fn interleaved_work_never_runs_two_operations_on_one_stream() {
    let mut h = Handler::new();
    let mut in_flight: Vec<(u64, bool)> = Vec::new();
    let mut seed: u64 = 0x2545_f491_4f6c_dd1d;
    let mut ids: Vec<u64> = Vec::new();
    for step in 0..2000 {
        seed ^= seed << 13;
        seed ^= seed >> 7;
        seed ^= seed << 17;
        match seed % 6 {
            0 if ids.len() < 8 => ids.push(h.on_fully_negotiated_inbound(step as u32)),
            1 | 2 if !ids.is_empty() => {
                let id = ids[(seed >> 8) as usize % ids.len()];
                let msg = match (seed >> 16) % 5 {
                    0 => RespMessage::Error(ReqRespError::Anyhow("e".to_string())),
                    1 => RespMessage::EndOfStream,
                    _ => response(step),
                };
                h.response(id, msg);
            }
            3 => {
                if let Some(&(id, sending)) = in_flight.first() {
                    in_flight.remove(0);
                    let ok = (seed >> 20) % 4 != 0;
                    let result = if ok { Ok(()) } else { Err(ReqRespError::IncompleteStream) };
                    if sending {
                        h.on_inbound_send_done(id, result);
                    } else {
                        h.on_inbound_close_done(id, result);
                    }
                }
            }
            4 if !ids.is_empty() && (seed >> 24) % 5 == 0 => {
                let id = ids[(seed >> 8) as usize % ids.len()];
                h.on_timeout(StreamDirection::Inbound, id);
                in_flight.retain(|(s, _)| *s != id);
            }
            _ => {
                h.poll();
            }
        }
        for c in drain_commands(&mut h) {
            match c {
                ChannelCommand::SendResponse { stream_id, .. } => {
                    assert!(in_flight.iter().all(|(s, _)| *s != stream_id));
                    in_flight.push((stream_id, true));
                }
                ChannelCommand::CloseInbound { stream_id } => {
                    assert!(in_flight.iter().all(|(s, _)| *s != stream_id));
                    in_flight.push((stream_id, false));
                }
                ChannelCommand::Release { direction: StreamDirection::Inbound, stream_id } => {
                    ids.retain(|s| *s != stream_id);
                }
                _ => {}
            }
        }
    }
}

#[test]
fn idle_inbound_stream_times_out_once() {
    let mut h = Handler::new();
    let id = h.on_fully_negotiated_inbound(1);
    drain_events(&mut h);
    drain_commands(&mut h);
    h.on_timeout(StreamDirection::Inbound, id);
    let events = drain_events(&mut h);
    assert_eq!(events.len(), 1);
    assert!(matches!(
        &events[0],
        ConnectionHandlerEvent::NotifyBehaviour(HandlerEvent::Failed(ReqRespMessageError::Inbound {
            stream_id,
            err: ReqRespError::StreamTimedOut
        })) if *stream_id == id
    ));
    let cmds = drain_commands(&mut h);
    assert!(matches!(
        cmds[0],
        ChannelCommand::Release { direction: StreamDirection::Inbound, stream_id } if stream_id == id
    ));
    // The stream is absent: a second expiry and a late response do nothing.
    h.on_timeout(StreamDirection::Inbound, id);
    h.response(id, response(1));
    assert!(drain_events(&mut h).is_empty());
    assert!(drain_commands(&mut h).is_empty());
}

#[test]
fn timeout_drops_queued_responses() {
    let mut h = Handler::new();
    let id = h.on_fully_negotiated_inbound(1);
    drain_events(&mut h);
    h.response(id, response(1));
    h.response(id, response(2));
    h.on_timeout(StreamDirection::Inbound, id);
    let events = drain_events(&mut h);
    assert_eq!(events.len(), 1);
    let cmds = drain_commands(&mut h);
    assert!(cmds.iter().all(|c| !matches!(c, ChannelCommand::SendResponse { .. })));
}

#[test]
fn outbound_timeout_fails_the_request() {
    let mut h = Handler::new();
    let sid = h.on_fully_negotiated_outbound(OutboundOpenInfo { request_id: 42, message: 9 });
    h.on_timeout(StreamDirection::Outbound, sid);
    let events = drain_events(&mut h);
    assert_eq!(events.len(), 1);
    assert!(matches!(
        &events[0],
        ConnectionHandlerEvent::NotifyBehaviour(HandlerEvent::Failed(ReqRespMessageError::Outbound {
            request_id: 42,
            err: ReqRespError::StreamTimedOut
        }))
    ));
}

#[test]
fn shutdown_refuses_requests_and_closes_only_when_drained() {
    let mut h = Handler::new();
    let id = h.on_fully_negotiated_inbound(1);
    let sid = h.on_fully_negotiated_outbound(OutboundOpenInfo { request_id: 5, message: 2 });
    drain_events(&mut h);
    drain_commands(&mut h);
    h.shutdown();
    assert_eq!(h.connection_state(), ConnectionState::ShuttingDown);
    h.shutdown();
    assert_eq!(h.connection_state(), ConnectionState::ShuttingDown);
    h.request(77, 3);

    let events = drain_events(&mut h);
    let is_close = |e: &ConnectionHandlerEvent<u32, u64>| {
        matches!(e, ConnectionHandlerEvent::NotifyBehaviour(HandlerEvent::Close))
    };
    assert!(!events.iter().any(is_close));
    assert!(events.iter().any(|e| matches!(
        e,
        ConnectionHandlerEvent::NotifyBehaviour(HandlerEvent::Failed(ReqRespMessageError::Outbound {
            request_id: 77,
            err: ReqRespError::Disconnected
        }))
    )));
    assert!(events.iter().any(|e| matches!(
        e,
        ConnectionHandlerEvent::NotifyBehaviour(HandlerEvent::Failed(ReqRespMessageError::Outbound {
            request_id: 5,
            err: ReqRespError::Disconnected
        }))
    )));
    assert!(!events
        .iter()
        .any(|e| matches!(e, ConnectionHandlerEvent::OutboundSubstreamRequest(_))));

    let cmds = drain_commands(&mut h);
    assert!(cmds.iter().any(|c| matches!(c, ChannelCommand::CloseInbound { stream_id } if *stream_id == id)));
    assert!(cmds.iter().any(|c| matches!(c, ChannelCommand::CloseOutbound { stream_id } if *stream_id == sid)));

    h.on_inbound_close_done(id, Ok(()));
    assert!(!drain_events(&mut h).iter().any(is_close));
    assert_eq!(h.connection_state(), ConnectionState::ShuttingDown);
    assert!(h.connection_keep_alive());

    h.on_outbound_close_done(sid);
    let events = drain_events(&mut h);
    assert!(matches!(
        &events[0],
        ConnectionHandlerEvent::NotifyBehaviour(HandlerEvent::Received(r))
            if matches!(r.as_ref(), ReqRespMessageReceived::EndOfStream { request_id: 5 })
    ));
    assert!(is_close(events.last().unwrap()));
    assert_eq!(events.iter().filter(|e| is_close(e)).count(), 1);
    assert_eq!(h.connection_state(), ConnectionState::Closed);
    assert!(!h.connection_keep_alive());
    h.request(78, 4);
    assert!(matches!(
        h.poll(),
        Some(ConnectionHandlerEvent::NotifyBehaviour(HandlerEvent::Failed(
            ReqRespMessageError::Outbound { request_id: 78, err: ReqRespError::Disconnected }
        )))
    ));
}

#[test]
fn empty_connection_closes_right_after_shutdown() {
    let mut h = Handler::new();
    assert!(h.poll().is_none());
    h.on_behaviour_event(ConnectionRequest::Shutdown);
    assert!(matches!(
        h.poll(),
        Some(ConnectionHandlerEvent::NotifyBehaviour(HandlerEvent::Close))
    ));
    assert!(h.poll().is_none());
}

#[test]
fn request_round_trip() {
    let mut h = Handler::new();
    h.on_behaviour_event(ConnectionRequest::Request { request_id: 9, message: 33 });
    let info = match h.poll() {
        Some(ConnectionHandlerEvent::OutboundSubstreamRequest(info)) => info,
        other => panic!("unexpected {other:?}"),
    };
    assert_eq!(info.request_id, 9);
    assert_eq!(info.message, 33);
    assert!(h.poll().is_none());
    h.on_connection_event(ConnectionEvent::FullyNegotiatedOutbound(info));
    let sid = 0;
    h.on_connection_event(ConnectionEvent::OutboundFrame {
        stream_id: sid,
        frame: Some(Ok(response(500))),
    });
    h.on_connection_event(ConnectionEvent::OutboundFrame { stream_id: sid, frame: None });
    let events = drain_events(&mut h);
    assert_eq!(events.len(), 2);
    match &events[0] {
        ConnectionHandlerEvent::NotifyBehaviour(HandlerEvent::Received(r)) => match r.as_ref() {
            ReqRespMessageReceived::Response { request_id, message } => {
                assert_eq!(*request_id, 9);
                assert_eq!(**message, 500);
            }
            other => panic!("unexpected {other:?}"),
        },
        other => panic!("unexpected {other:?}"),
    }
    assert!(matches!(
        &events[1],
        ConnectionHandlerEvent::NotifyBehaviour(HandlerEvent::Received(r))
            if matches!(r.as_ref(), ReqRespMessageReceived::EndOfStream { request_id: 9 })
    ));
    let cmds = drain_commands(&mut h);
    assert_eq!(cmds.len(), 3);
    assert!(matches!(
        cmds[2],
        ChannelCommand::Release { direction: StreamDirection::Outbound, stream_id: 0 }
    ));
}

#[test]
fn end_marker_frame_closes_then_ends_the_request() {
    let mut h = Handler::new();
    let sid = h.on_fully_negotiated_outbound(OutboundOpenInfo { request_id: 3, message: 1 });
    drain_commands(&mut h);
    h.on_outbound_frame(sid, Some(Ok(response(1))));
    h.on_outbound_frame(sid, Some(Ok(RespMessage::EndOfStream)));
    let cmds = drain_commands(&mut h);
    assert!(matches!(cmds[1], ChannelCommand::CloseOutbound { stream_id } if stream_id == sid));
    // Frames on a closing stream are ignored.
    h.on_outbound_frame(sid, Some(Ok(response(2))));
    h.on_outbound_close_done(sid);
    let events = drain_events(&mut h);
    assert_eq!(events.len(), 2);
    assert!(matches!(
        &events[1],
        ConnectionHandlerEvent::NotifyBehaviour(HandlerEvent::Received(r))
            if matches!(r.as_ref(), ReqRespMessageReceived::EndOfStream { request_id: 3 })
    ));
}

#[test]
fn error_frame_is_reported_then_the_request_ends() {
    let mut h = Handler::new();
    let sid = h.on_fully_negotiated_outbound(OutboundOpenInfo { request_id: 4, message: 1 });
    h.on_outbound_frame(sid, Some(Ok(RespMessage::Error(ReqRespError::RawError("r".to_string())))));
    h.on_outbound_close_done(sid);
    let events = drain_events(&mut h);
    assert_eq!(events.len(), 2);
    assert!(matches!(
        &events[0],
        ConnectionHandlerEvent::NotifyBehaviour(HandlerEvent::Failed(ReqRespMessageError::Outbound {
            request_id: 4,
            err: ReqRespError::RawError(_)
        }))
    ));
}

#[test]
fn failed_read_ends_the_request_with_its_error() {
    let mut h = Handler::new();
    let sid = h.on_fully_negotiated_outbound(OutboundOpenInfo { request_id: 8, message: 1 });
    h.on_outbound_frame(sid, Some(Err(ReqRespError::IncompleteStream)));
    let events = drain_events(&mut h);
    assert_eq!(events.len(), 1);
    assert!(matches!(
        &events[0],
        ConnectionHandlerEvent::NotifyBehaviour(HandlerEvent::Failed(ReqRespMessageError::Outbound {
            request_id: 8,
            err: ReqRespError::IncompleteStream
        }))
    ));
    h.on_outbound_close_done(sid);
    assert!(drain_events(&mut h).is_empty());
}

#[test]
fn request_made_live_then_shut_down_is_never_negotiated() {
    let mut h = Handler::new();
    h.request(1, 10);
    h.request(2, 20);
    h.shutdown();
    let events = drain_events(&mut h);
    assert!(!events
        .iter()
        .any(|e| matches!(e, ConnectionHandlerEvent::OutboundSubstreamRequest(_))));
    let refused: Vec<u64> = events
        .iter()
        .filter_map(|e| match e {
            ConnectionHandlerEvent::NotifyBehaviour(HandlerEvent::Failed(
                ReqRespMessageError::Outbound { request_id, err: ReqRespError::Disconnected },
            )) => Some(*request_id),
            _ => None,
        })
        .collect();
    assert_eq!(refused, vec![1, 2]);
    assert!(matches!(
        events.last(),
        Some(ConnectionHandlerEvent::NotifyBehaviour(HandlerEvent::Close))
    ));
}

#[test]
fn pending_requests_are_negotiated_latest_first() {
    let mut h = Handler::new();
    h.request(1, 10);
    h.request(2, 20);
    let ids: Vec<u64> = drain_events(&mut h)
        .into_iter()
        .filter_map(|e| match e {
            ConnectionHandlerEvent::OutboundSubstreamRequest(info) => Some(info.request_id),
            _ => None,
        })
        .collect();
    assert_eq!(ids, vec![2, 1]);
}

#[test]
fn response_to_unknown_stream_is_ignored() {
    let mut h = Handler::new();
    h.response(3, RespMessage::Error(ReqRespError::Disconnected));
    assert!(h.poll().is_none());
    assert!(h.take_command().is_none());
}

#[test]
fn responses_after_shutdown_are_not_queued() {
    let mut h = Handler::new();
    let id = h.on_fully_negotiated_inbound(1);
    drain_events(&mut h);
    drain_commands(&mut h);
    h.shutdown();
    h.on_behaviour_event(ConnectionRequest::Response {
        stream_id: id,
        message: Box::new(response(1)),
    });
    drain_events(&mut h);
    let cmds = drain_commands(&mut h);
    assert_eq!(cmds.len(), 1);
    assert!(matches!(cmds[0], ChannelCommand::CloseInbound { stream_id } if stream_id == id));
}
