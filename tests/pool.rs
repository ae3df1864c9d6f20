use opensrf_edge::demux::{DeliveryError, Demux};
use opensrf_edge::json_value::Json;
use opensrf_edge::message::{MessageStatus, Payload};
use opensrf_edge::pool::{Completion, Dispatch, WorkerPool};

fn text(s: &str) -> Json {
    Json::Str(s.to_string())
}

#[test]
fn demux_routes_interleaved_replies_by_trace() {
    let mut d = Demux::new();
    let a = d.open_request().unwrap();
    let b = d.open_request().unwrap();
    assert_eq!((a, b), (1, 2));
    d.deliver(vec![
        (a, Payload::Result(MessageStatus::Partial, text("[1,"))),
        (b, Payload::Result(MessageStatus::Partial, text("{\"x\":"))),
        (a, Payload::Result(MessageStatus::PartialComplete, text("2]"))),
        (b, Payload::Result(MessageStatus::PartialComplete, text("3}"))),
        (b, Payload::Result(MessageStatus::Okay, text("after"))),
        (a, Payload::Status(MessageStatus::Complete)),
    ])
    .unwrap();
    assert_eq!(Json::Array(d.replies_of(a).unwrap().clone_items()).dump(), "[[1,2]]");
}

trait CloneItems {
    fn clone_items(&self) -> Vec<Json>;
}

impl CloneItems for Vec<Json> {
    fn clone_items(&self) -> Vec<Json> {
        self.iter().map(|v| Json::parse(&v.dump()).unwrap()).collect()
    }
}

#[test]
fn demux_keeps_order_within_a_request() {
    let mut d = Demux::new();
    let a = d.open_request().unwrap();
    let b = d.open_request().unwrap();
    d.deliver(vec![
        (b, Payload::Result(MessageStatus::Okay, text("b1"))),
        (a, Payload::Result(MessageStatus::Okay, text("a1"))),
        (b, Payload::Result(MessageStatus::Okay, text("b2"))),
        (a, Payload::Result(MessageStatus::Okay, text("a2"))),
    ])
    .unwrap();
    assert_eq!(Json::Array(d.replies_of(a).unwrap().clone_items()).dump(), "[\"a1\",\"a2\"]");
    assert_eq!(Json::Array(d.replies_of(b).unwrap().clone_items()).dump(), "[\"b1\",\"b2\"]");
    assert!(d.replies_of(9).is_none());
}

#[test]
fn demux_errors() {
    let mut d = Demux::new();
    let a = d.open_request().unwrap();
    assert!(matches!(
        d.deliver(vec![(7, Payload::Status(MessageStatus::Complete))]),
        Err(DeliveryError::UnknownTrace(7))
    ));
    d.deliver(vec![(a, Payload::Status(MessageStatus::Complete))]).unwrap();
    assert!(matches!(
        d.deliver(vec![(a, Payload::Result(MessageStatus::Okay, Json::Null))]),
        Err(DeliveryError::AfterComplete(1))
    ));
    let b = d.open_request().unwrap();
    assert!(matches!(
        d.deliver(vec![(b, Payload::Status(MessageStatus::Forbidden))]),
        Err(DeliveryError::Failed(2, _))
    ));
}

#[test]
fn pool_grows_to_max_and_waits() {
    assert!(WorkerPool::new(3, 2, 0).is_none());
    let mut p = WorkerPool::new(1, 2, 0).unwrap();
    assert_eq!(p.active(), 1);
    assert_eq!(p.on_request(), Dispatch::ToWorker(0));
    assert_eq!(p.on_request(), Dispatch::ToNewWorker(1));
    assert_eq!(p.on_request(), Dispatch::Wait);
    assert_eq!(p.active(), 2);
    assert_eq!(p.on_done(1), Some(Completion::Idle));
    assert_eq!(p.on_request(), Dispatch::ToWorker(1));
    assert_eq!(p.on_done(42), None);
}

#[test]
fn pool_retires_and_replaces_at_request_limit() {
    let mut p = WorkerPool::new(1, 2, 2).unwrap();
    assert_eq!(p.on_request(), Dispatch::ToWorker(0));
    assert_eq!(p.on_done(0), Some(Completion::Idle));
    assert_eq!(p.on_request(), Dispatch::ToWorker(0));
    assert_eq!(p.on_done(0), Some(Completion::Replaced(1)));
    assert_eq!(p.active(), 1);
    assert_eq!(p.on_request(), Dispatch::ToWorker(1));
    assert_eq!(p.on_request(), Dispatch::ToNewWorker(2));
    assert_eq!(p.on_done(2), Some(Completion::Idle));
    assert_eq!(p.on_request(), Dispatch::ToWorker(2));
    assert_eq!(p.on_done(2), Some(Completion::Retired));
    assert_eq!(p.active(), 1);
}

#[test]
fn pool_shutdown_ends_idle_workers_then_busy_ones() {
    let mut p = WorkerPool::new(2, 3, 0).unwrap();
    assert_eq!(p.on_request(), Dispatch::ToWorker(0));
    assert_eq!(p.shutdown(), vec![1]);
    assert_eq!(p.active(), 1);
    assert_eq!(p.on_done(0), Some(Completion::Retired));
    assert_eq!(p.active(), 0);
}

#[test]
fn pool_requests_without_limit_never_retire() {
    let mut p = WorkerPool::new(0, 1, 0).unwrap();
    assert_eq!(p.active(), 0);
    assert_eq!(p.on_request(), Dispatch::ToNewWorker(0));
    for _ in 0..5 {
        assert_eq!(p.on_done(0), Some(Completion::Idle));
        assert_eq!(p.on_request(), Dispatch::ToWorker(0));
    }
    assert_eq!(p.on_request(), Dispatch::Wait);
}
