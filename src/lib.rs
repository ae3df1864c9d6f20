//! Transport, session and gateway logic for an OpenSRF-style message bus.
//!
//! The modules hold the decisions of the bus clients and gateways; the
//! sockets, the broker connection and the threads around them stay with
//! the caller, which hands plain values in and performs what comes back.

/// JSON values, null scrubbing, and the JSON text codec.
pub mod json_value;
/// Text helpers: exact comparison, byte prefixes, decimal notation.
pub mod text;
/// Message statuses, kinds and payloads.
pub mod message;
/// Reply collection for one request: partial reassembly and statuses.
pub mod reply;
/// Pending requests of a session, demultiplexed by thread trace.
pub mod demux;
/// HTTP gateway: formats and response framing.
pub mod http;
/// HTTP gateway: reading a request from the bytes received.
pub mod http_read;
/// HTTP gateway: the API call a request names, and its access log.
pub mod gateway_call;
/// WebSocket gateway: backlog, in-flight limit and routing of a session.
pub mod ws;
/// Worker pool accounting: dispatch, retirement and shutdown.
pub mod pool;
/// Bus watcher: which stalled queues get an expiry, and their statistics.
pub mod buswatch;
/// SIP2 checkin rules: alerts, outcome and backdating.
pub mod checkin;
/// Friendly-named SIP request parameters.
pub mod params;
