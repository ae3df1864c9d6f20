use opensrf_edge::buswatch::{expiring_keys, key_stats, KeyObservation, DEFAULT_KEY_EXPIRE_SECS};
use opensrf_edge::checkin::{blocked_checkin, checkin_backdate, checkin_outcome, hold_alert, AlertType};
use opensrf_edge::json_value::Json;
use opensrf_edge::message::MessageStatus;
use opensrf_edge::params::{FeeType, ParamSet, PayType};
use opensrf_edge::ws::{
    admits_client, Frame, FrameAction, ReplyMessage, TextOutcome, TransportReply, WsError,
    WsSession, MAX_ACTIVE_REQUESTS, MAX_BACKLOG_SIZE, MAX_MESSAGE_SIZE, MAX_WS_CLIENTS,
};

fn connect_frame(thread: &str) -> String {
    format!(
        "{{\"thread\":\"{thread}\",\"service\":\"svc\",\"osrf_msg\":{{\"__c\":\"osrfMessage\",\"__p\":{{\"threadTrace\":1,\"type\":\"CONNECT\"}}}}}}"
    )
}

fn request_frame(thread: &str) -> String {
    format!(
        "{{\"thread\":\"{thread}\",\"service\":\"svc\",\"log_xid\":\"x1\",\"osrf_msg\":[{{\"__c\":\"osrfMessage\",\"__p\":{{\"threadTrace\":2,\"type\":\"REQUEST\",\"payload\":{{\"__c\":\"osrfMethod\",\"__p\":{{\"method\":\"m\",\"params\":[]}}}}}}}}]}}"
    )
}

fn status_reply(from: &str, thread: &str, status: MessageStatus) -> TransportReply {
    TransportReply {
        from: from.to_string(),
        thread: thread.to_string(),
        osrf_xid: "xid".to_string(),
        body: vec![ReplyMessage { status: Some(status), json: Json::Null }],
    }
}

#[test]
fn websocket_session_stickiness() {
    let mut s = WsSession::new(MAX_ACTIVE_REQUESTS);
    let plan = s.plan_relay(&connect_frame("T1"), "localhost").unwrap();
    assert_eq!(plan.router.as_deref(), Some("opensrf:router:localhost"));
    assert_eq!(plan.recipient, "opensrf:service:svc");
    assert_eq!(plan.messages.len(), 1);
    assert_eq!(s.reqs_in_flight(), 1);

    let out = s.relay_reply(status_reply("workerW", "T1", MessageStatus::Okay));
    assert_eq!(out.dump(), "{\"oxrf_xid\":\"xid\",\"thread\":\"T1\",\"osrf_msg\":[null]}");
    assert_eq!(s.reqs_in_flight(), 0);

    let plan = s.plan_relay(&request_frame("T1"), "localhost").unwrap();
    assert_eq!(plan.recipient, "workerW");
    assert!(plan.router.is_none());
    assert_eq!(plan.log_xid.as_deref(), Some("x1"));
    assert_eq!(s.reqs_in_flight(), 1);
}

#[test]
fn failure_status_evicts_peer_and_flags_error() {
    let mut s = WsSession::new(MAX_ACTIVE_REQUESTS);
    s.plan_relay(&connect_frame("T1"), "d").unwrap();
    s.relay_reply(status_reply("workerW", "T1", MessageStatus::Okay));
    let out = s.relay_reply(status_reply("workerW", "T1", MessageStatus::InternalServerError));
    assert!(out.dump().ends_with(",\"transport_error\":true}"));
    assert_eq!(s.reqs_in_flight(), 0);
    let plan = s.plan_relay(&request_frame("T1"), "d").unwrap();
    assert_eq!(plan.recipient, "opensrf:service:svc");
}

#[test]
fn websocket_backlog_drop() {
    let mut s = WsSession::new(MAX_ACTIVE_REQUESTS);
    for i in 0..MAX_ACTIVE_REQUESTS {
        assert_eq!(s.handle_text(connect_frame(&format!("T{i}"))), TextOutcome::Queued);
        let frame = s.next_frame().unwrap();
        s.plan_relay(&frame, "d").unwrap();
    }
    assert_eq!(s.reqs_in_flight(), 8);
    for i in 0..MAX_BACKLOG_SIZE {
        assert_eq!(s.handle_text(connect_frame(&format!("Q{i}"))), TextOutcome::Queued);
    }
    assert!(s.next_frame().is_none());
    assert_eq!(s.handle_text(connect_frame("late")), TextOutcome::BacklogFull);
    assert_eq!(s.queue_len(), 1000);
    assert!(matches!(
        s.handle_frame(Frame::Text(connect_frame("later"))),
        FrameAction::Text(TextOutcome::BacklogFull)
    ));
    match s.handle_frame(Frame::Ping(vec![7, 8])) {
        FrameAction::Pong(d) => assert_eq!(d, vec![7, 8]),
        other => panic!("{other:?}"),
    }

    s.relay_reply(status_reply("w", "T0", MessageStatus::Complete));
    assert_eq!(s.reqs_in_flight(), 7);
    assert!(s.next_frame().unwrap().contains("\"Q0\""));
}

#[test]
fn huge_frames_are_dropped() {
    let mut s = WsSession::new(MAX_ACTIVE_REQUESTS);
    assert_eq!(s.handle_text("x".repeat(MAX_MESSAGE_SIZE)), TextOutcome::TooLarge);
    assert_eq!(s.queue_len(), 0);
}

#[test]
fn in_flight_never_underflows() {
    let mut s = WsSession::new(MAX_ACTIVE_REQUESTS);
    s.relay_reply(status_reply("w", "T", MessageStatus::Okay));
    s.relay_reply(status_reply("w", "T", MessageStatus::Okay));
    assert_eq!(s.reqs_in_flight(), 0);
}

#[test]
fn frame_errors() {
    let mut s = WsSession::new(MAX_ACTIVE_REQUESTS);
    assert_eq!(s.plan_relay("{", "d").unwrap_err(), WsError::BadJson);
    assert_eq!(s.plan_relay("{\"service\":\"s\"}", "d").unwrap_err(), WsError::NoThread);
    let long = format!("{{\"thread\":\"{}\",\"service\":\"s\"}}", "t".repeat(257));
    assert_eq!(s.plan_relay(&long, "d").unwrap_err(), WsError::ThreadTooLong);
    assert_eq!(s.plan_relay("{\"thread\":\"t\"}", "d").unwrap_err(), WsError::NoService);
    assert_eq!(
        s.plan_relay("{\"thread\":\"t\",\"service\":\"s\",\"osrf_msg\":[{\"x\":1}]}", "d").unwrap_err(),
        WsError::BadMessage
    );
    assert_eq!(
        s.plan_relay("{\"thread\":\"t\",\"service\":\"s\",\"osrf_msg\":[{\"__p\":{\"type\":\"REQUEST\"}}]}", "d")
            .unwrap_err(),
        WsError::NoPayload
    );
    assert_eq!(
        s.plan_relay("{\"thread\":\"t\",\"service\":\"s\",\"osrf_msg\":[{\"__p\":{\"type\":\"RESULT\"}}]}", "d")
            .unwrap_err(),
        WsError::UnexpectedType
    );
    assert_eq!(s.reqs_in_flight(), 0);
}

#[test]
fn disconnect_clears_cached_peer() {
    let mut s = WsSession::new(MAX_ACTIVE_REQUESTS);
    s.plan_relay(&connect_frame("T1"), "d").unwrap();
    s.relay_reply(status_reply("workerW", "T1", MessageStatus::Okay));
    let frame = "{\"thread\":\"T1\",\"service\":\"svc\",\"osrf_msg\":[{\"__p\":{\"type\":\"DISCONNECT\"}},null,{\"x\":1}]}";
    let plan = s.plan_relay(frame, "d").unwrap();
    assert_eq!(plan.recipient, "workerW");
    assert_eq!(plan.messages.len(), 1);
    let plan = s.plan_relay(&request_frame("T1"), "d").unwrap();
    assert_eq!(plan.recipient, "opensrf:service:svc");
}

#[test]
fn buswatch_sets_ttl_on_keys_without_one() {
    let obs = vec![
        KeyObservation { key: "opensrf:a".to_string(), count: 2, next_value: Some("v".to_string()), ttl: Some(-1) },
        KeyObservation { key: "opensrf:b".to_string(), count: 0, next_value: None, ttl: Some(42) },
    ];
    assert_eq!(expiring_keys(&obs), vec!["opensrf:a".to_string()]);
    assert_eq!(DEFAULT_KEY_EXPIRE_SECS, 1800);
    assert_eq!(key_stats(&obs[0]).dump(), "{\"count\":2,\"next_value\":\"v\",\"ttl\":-1}");
    assert_eq!(key_stats(&obs[1]).dump(), "{\"ttl\":42}");
}

#[test]
fn alert_codes() {
    assert_eq!(AlertType::from_code("00"), AlertType::Unknown);
    assert_eq!(AlertType::from_code("04"), AlertType::Transit);
    assert_eq!(AlertType::from_code("99"), AlertType::Other);
    assert_eq!(AlertType::LocalHold.code(), "01");
    assert_eq!(AlertType::RemoteHold.code(), "02");
    assert_eq!(AlertType::Ill.code(), "03");
}

#[test]
fn checkin_outcomes() {
    assert_eq!(checkin_outcome("SUCCESS", None), (true, None));
    assert_eq!(checkin_outcome("NO_CHANGE", None), (true, None));
    assert_eq!(checkin_outcome("ROUTE_ITEM", None), (true, Some(AlertType::Transit)));
    assert_eq!(
        checkin_outcome("ROUTE_ITEM", Some(AlertType::LocalHold)),
        (true, Some(AlertType::LocalHold))
    );
    assert_eq!(checkin_outcome("ITEM_NOT_FOUND", None), (false, Some(AlertType::Unknown)));
    assert_eq!(hold_alert(4, 4), AlertType::LocalHold);
    assert_eq!(hold_alert(4, 5), AlertType::RemoteHold);
    let r = blocked_checkin("BR1".to_string(), "BR2".to_string());
    assert!(!r.ok);
    assert_eq!(r.alert_type, Some(AlertType::Other));
    assert_eq!(r.current_loc, "BR1");
}

#[test]
fn param_set_getters_and_setters() {
    let mut p = ParamSet::new();
    assert!(p.institution().is_none());
    p.set_institution("inst").set_sip_user("u").set_start_item(3).set_pay_type(PayType::Cash);
    p.set_fee_type(FeeType::Overdue).set_summary(2).set_pay_amount("1.50");
    p.set_terminal_pwd("tp").set_sip_pass("sp").set_location("loc").set_patron_id("pid");
    p.set_patron_pwd("ppw").set_item_id("item").set_end_item(9).set_transaction_id("tx").set_fee_id("f");
    assert_eq!(p.institution(), Some("inst"));
    assert_eq!(p.sip_user(), Some("u"));
    assert_eq!(p.start_item(), Some(3));
    assert_eq!(p.end_item(), Some(9));
    assert_eq!(p.summary(), Some(2));
    assert_eq!(p.pay_type(), Some(PayType::Cash));
    assert_eq!(p.fee_type(), Some(FeeType::Overdue));
    assert_eq!(p.pay_amount(), Some("1.50"));
    assert_eq!(p.terminal_pwd(), Some("tp"));
    assert_eq!(p.sip_pass(), Some("sp"));
    assert_eq!(p.location(), Some("loc"));
    assert_eq!(p.patron_id(), Some("pid"));
    assert_eq!(p.patron_pwd(), Some("ppw"));
    assert_eq!(p.item_id(), Some("item"));
    assert_eq!(p.transaction_id(), Some("tx"));
    assert_eq!(p.fee_id(), Some("f"));
    assert!(ParamSet::default().item_id().is_none());
}

#[test]
fn frames_and_client_cap() {
    let mut s = WsSession::new(MAX_ACTIVE_REQUESTS);
    assert!(matches!(s.handle_frame(Frame::Close), FrameAction::Close));
    assert!(matches!(s.handle_frame(Frame::Binary(vec![1])), FrameAction::Ignore));
    assert!(matches!(s.handle_frame(Frame::Pong(vec![])), FrameAction::Ignore));
    assert!(admits_client(255, MAX_WS_CLIENTS));
    assert!(!admits_client(256, MAX_WS_CLIENTS));
}

#[test]
fn checkin_backdate_from_sip_date() {
    assert_eq!(checkin_backdate("20240131    101112"), Some("2024-01-31".to_string()));
    assert_eq!(checkin_backdate(" 20240131    101112 "), None);
    assert_eq!(checkin_backdate("                  "), None);
    assert_eq!(checkin_backdate("2024013x    101112"), None);
    assert_eq!(checkin_backdate("20240131"), None);
}

#[test]
fn relayed_messages_carry_the_ingress_tag() {
    let mut s = WsSession::new(MAX_ACTIVE_REQUESTS);
    let plan = s.plan_relay(&request_frame("T9"), "d").unwrap();
    let p = plan.messages[0].get("__p").unwrap();
    assert_eq!(p.get("ingress").unwrap().dump(), "\"ws-translator-v3\"");
    assert_eq!(p.get("type").unwrap().dump(), "\"REQUEST\"");
    assert_eq!(opensrf_edge::ws::WEBSOCKET_INGRESS, "ws-translator-v3");
}

#[test]
fn frame_without_messages_is_refused() {
    let mut s = WsSession::new(MAX_ACTIVE_REQUESTS);
    assert_eq!(s.plan_relay("{\"thread\":\"t\",\"service\":\"s\"}", "d").unwrap_err(), WsError::NoMessages);
    assert_eq!(
        s.plan_relay("{\"thread\":\"t\",\"service\":\"s\",\"osrf_msg\":[]}", "d").unwrap_err(),
        WsError::NoMessages
    );
    assert_eq!(s.reqs_in_flight(), 0);
}

#[test]
fn drain_backlog_relays_in_order_up_to_the_limit() {
    let mut s = WsSession::new(2);
    for t in ["A", "B", "C"] {
        s.handle_text(connect_frame(t));
    }
    let (plans, err) = s.drain_backlog("d");
    assert!(err.is_none());
    let threads: Vec<&str> = plans.iter().map(|p| p.thread.as_str()).collect();
    assert_eq!(threads, vec!["A", "B"]);
    assert_eq!(s.queue_len(), 1);
    let (plans, err) = s.drain_backlog("d");
    assert!(plans.is_empty() && err.is_none());
    assert_eq!(s.queue_len(), 1);

    let mut s = WsSession::new(4);
    s.handle_text(connect_frame("A"));
    s.handle_text("{".to_string());
    s.handle_text(connect_frame("C"));
    let (plans, err) = s.drain_backlog("d");
    assert_eq!(plans.len(), 1);
    assert_eq!(err, Some(WsError::BadJson));
    assert_eq!(s.queue_len(), 1);
}
