use opensrf_edge::gateway_call::{access_line, log_params, parse_request, CallError};
use opensrf_edge::http::{build_response, finish_reply, render_response, reply_body, GatewayRequestFormat};
use opensrf_edge::http_read::{examine_request, parse_usize, HttpRequest, ReadError, ReadProgress};
use opensrf_edge::json_value::{scrub_nulls, Json};
use opensrf_edge::message::{MessageStatus, Payload};
use opensrf_edge::reply::{relay_error_json, RelayError, ReplyAssembler};

fn text(s: &str) -> Json {
    Json::Str(s.to_string())
}

fn dump(v: &Json) -> String {
    v.dump()
}

fn relay(batches: Vec<Vec<Payload>>) -> Result<Vec<Json>, RelayError> {
    let mut collector = ReplyAssembler::new();
    for batch in batches {
        collector.absorb(batch)?;
        if collector.is_complete() {
            break;
        }
    }
    Ok(collector.into_replies())
}

#[test]
fn http_echo_collects_every_reply() {
    let replies = relay(vec![
        vec![Payload::Result(MessageStatus::Okay, text("Hello"))],
        vec![Payload::Result(MessageStatus::Okay, text("World"))],
        vec![Payload::Status(MessageStatus::Complete)],
    ])
    .unwrap();
    let (ok, body) = reply_body(Ok(replies));
    assert!(ok);
    assert_eq!(dump(&body), "[\"Hello\",\"World\"]");
    let resp = render_response(ok, "GET", &body);
    assert_eq!(
        resp,
        "HTTP/1.1 200 OK\r\nContent-Type: text/json\r\nContent-Length: 17\r\n\r\n[\"Hello\",\"World\"]"
    );
}

#[test]
fn http_partial_reassembly() {
    let replies = relay(vec![
        vec![Payload::Result(MessageStatus::Partial, text("{\"a\":"))],
        vec![Payload::Result(MessageStatus::Partial, text("1"))],
        vec![
            Payload::Result(MessageStatus::PartialComplete, text("}")),
            Payload::Status(MessageStatus::Complete),
        ],
    ])
    .unwrap();
    let (_, body) = reply_body(Ok(replies));
    assert_eq!(dump(&body), "[{\"a\":1}]");
}

#[test]
fn partial_reassembly_equals_single_result() {
    let split = relay(vec![vec![
        Payload::Result(MessageStatus::Partial, text("[1,")),
        Payload::Result(MessageStatus::PartialComplete, text("2]")),
    ]])
    .unwrap();
    let whole = relay(vec![vec![Payload::Result(
        MessageStatus::Okay,
        Json::parse("[1,2]").unwrap(),
    )]])
    .unwrap();
    assert_eq!(dump(&Json::Array(split)), dump(&Json::Array(whole)));
}

#[test]
fn broken_partial_is_an_error() {
    let r = relay(vec![vec![
        Payload::Result(MessageStatus::Partial, text("{\"a\":")),
        Payload::Result(MessageStatus::PartialComplete, text("")),
    ]]);
    assert!(matches!(r, Err(RelayError::BadPartial)));
}

#[test]
fn failure_status_ends_the_relay() {
    let r = relay(vec![vec![
        Payload::Result(MessageStatus::Okay, text("x")),
        Payload::Status(MessageStatus::NotFound),
    ]]);
    assert!(matches!(r, Err(RelayError::Status(MessageStatus::NotFound))));
    assert_eq!(MessageStatus::NotFound.code(), 404);
    assert!(MessageStatus::BadRequest.is_error());
    assert!(!MessageStatus::Complete.is_error());
}

#[test]
fn continue_and_ok_statuses_are_ignored() {
    let replies = relay(vec![vec![
        Payload::Status(MessageStatus::Continue),
        Payload::Status(MessageStatus::Okay),
        Payload::Result(MessageStatus::Okay, Json::Null),
    ]])
    .unwrap();
    assert_eq!(dump(&Json::Array(replies)), "[null]");
}

#[test]
fn http_put_is_not_allowed() {
    assert_eq!(build_response(true, "PUT", "[]"), "HTTP/1.1 405 Method Not Allowed\r\n");
}

#[test]
fn head_has_get_headers_and_no_body() {
    let get = build_response(true, "GET", "[\"é\"]");
    let head = build_response(true, "HEAD", "[\"é\"]");
    assert!(get.contains("Content-Length: 6\r\n"));
    assert_eq!(format!("{head}[\"é\"]"), get);
    assert_eq!(build_response(true, "POST", "[\"é\"]"), get);
}

#[test]
fn failure_goes_out_as_bad_request() {
    let (ok, body) = reply_body(Err(text("boom")));
    assert!(!ok);
    let resp = render_response(ok, "GET", &body);
    assert_eq!(
        resp,
        "HTTP/1.1 400 Bad Request\r\nContent-Type: text/json\r\nContent-Length: 8\r\n\r\n[\"boom\"]"
    );
}

#[test]
fn empty_reply_on_timeout() {
    let (_, body) = reply_body(Ok(Vec::new()));
    assert_eq!(render_response(true, "GET", &body), "HTTP/1.1 200 OK\r\nContent-Type: text/json\r\nContent-Length: 2\r\n\r\n[]");
}

#[test]
fn scrub_nulls_removes_null_leaves() {
    let v = Json::parse("{\"a\":null,\"b\":[1,null,{\"c\":null,\"d\":2}],\"e\":\"x\"}").unwrap();
    assert_eq!(dump(&scrub_nulls(v)), "{\"b\":[1,{\"d\":2}],\"e\":\"x\"}");
    assert_eq!(dump(&scrub_nulls(Json::Null)), "null");
    assert_eq!(dump(&scrub_nulls(text("s"))), "\"s\"");
    assert_eq!(dump(&scrub_nulls(Json::parse("[null,null]").unwrap())), "[]");
}

#[test]
fn rawslim_scrubs_and_raw_keeps() {
    let v = Json::parse("[1,null]").unwrap();
    assert_eq!(dump(&finish_reply(GatewayRequestFormat::RawSlim, v)), "[1]");
    let v = Json::parse("[1,null]").unwrap();
    assert_eq!(dump(&finish_reply(GatewayRequestFormat::Raw, v)), "[1,null]");
}

#[test]
fn format_names() {
    assert_eq!(GatewayRequestFormat::from_name("raw"), GatewayRequestFormat::Raw);
    assert_eq!(GatewayRequestFormat::from_name("rawslim"), GatewayRequestFormat::RawSlim);
    assert_eq!(GatewayRequestFormat::from_name("other"), GatewayRequestFormat::Fieldmapper);
    assert!(GatewayRequestFormat::Raw.is_raw());
    assert!(GatewayRequestFormat::RawSlim.is_raw());
    assert!(!GatewayRequestFormat::Fieldmapper.is_raw());
}

#[test]
fn json_parse_and_dump() {
    assert!(Json::parse("{").is_none());
    let v = Json::parse("{\"n\":-12.5,\"t\":true}").unwrap();
    assert_eq!(dump(&v), "{\"n\":-12.5,\"t\":true}");
    assert_eq!(v.get("t").map(|t| dump(t)), Some("true".to_string()));
    assert!(v.get("x").is_none());
}

fn done(p: ReadProgress) -> HttpRequest {
    match p {
        ReadProgress::Done(r) => r,
        other => panic!("not done: {other:?}"),
    }
}

#[test]
fn get_request_is_read_and_parsed() {
    let raw = b"GET /?service=opensrf.settings&method=opensrf.system.echo&param=%22Hello%22&param=%22World%22 HTTP/1.1\r\nHost: x\r\n\r\n";
    let req = done(examine_request(raw));
    assert_eq!(req.method, "GET");
    assert!(req.body.is_none());
    let call = parse_request(req).unwrap();
    assert_eq!(call.service, "opensrf.settings");
    assert_eq!(call.method, "opensrf.system.echo");
    assert_eq!(dump(&Json::Array(call.params)), "[\"Hello\",\"World\"]");
    assert_eq!(call.format, GatewayRequestFormat::Fieldmapper);
    assert_eq!(call.http_method, "GET");
}

#[test]
fn post_body_waits_for_content_length() {
    let head = "POST / HTTP/1.1\r\ncontent-LENGTH: 30\r\n\r\n";
    let body = "service=s&method=m&format=raw";
    let partial = format!("{head}{body}");
    assert!(matches!(examine_request(partial.as_bytes()), ReadProgress::NeedMore));
    let full = format!("{head}{body}&");
    let req = done(examine_request(full.as_bytes()));
    assert_eq!(req.body.as_deref(), Some("service=s&method=m&format=raw&"));
    let call = parse_request(req).unwrap();
    assert_eq!(call.format, GatewayRequestFormat::Raw);
    let over = format!("{head}{body}&xx");
    assert!(matches!(examine_request(over.as_bytes()), ReadProgress::Failed(ReadError::TooLong)));
}

#[test]
fn incomplete_and_broken_heads() {
    assert!(matches!(examine_request(b"GET / HTTP/1.1\r\nHost"), ReadProgress::NeedMore));
    assert!(matches!(examine_request(b"GET / HTTP/1.1\r\nContent-Length: 3\r\n\r\n"), ReadProgress::NeedMore));
    assert!(matches!(
        examine_request(b"\x01\x02 junk\r\n\r\n"),
        ReadProgress::Failed(ReadError::BadHead)
    ));
}

#[test]
fn call_errors() {
    let req = |path: &str| HttpRequest { method: "GET".to_string(), path: path.to_string(), body: None };
    assert!(matches!(parse_request(req("/?service=s")), Err(CallError::NoMethod)));
    assert!(matches!(parse_request(req("/?method=m")), Err(CallError::NoService)));
    match parse_request(req("/?service=s&method=m&param=nope")) {
        Err(CallError::BadParam(v)) => assert_eq!(v, "nope"),
        other => panic!("{other:?}"),
    }
    assert!(matches!(parse_request(req("not a path")), Err(CallError::BadUrl)));
}

#[test]
fn decimal_parsing() {
    assert_eq!(parse_usize(b"0"), Some(0));
    assert_eq!(parse_usize(b"+42"), Some(42));
    assert_eq!(parse_usize(b"18446744073709551615"), Some(usize::MAX));
    assert_eq!(parse_usize(b"18446744073709551616"), None);
    assert_eq!(parse_usize(b""), None);
    assert_eq!(parse_usize(b"+"), None);
    assert_eq!(parse_usize(b"1a"), None);
}

#[test]
fn log_protect_redacts_params() {
    let params = vec![text("secret"), Json::Null];
    let protect = vec!["open-ils.auth".to_string()];
    assert_eq!(log_params("open-ils.auth.login", &params, &protect), "**PARAMS REDACTED**");
    assert_eq!(log_params("open-ils.actor.x", &params, &protect), "\"secret\", null");
    assert_eq!(
        access_line("127.0.0.1:5", "123", "svc", "m", "1"),
        "ACT:[127.0.0.1:5:123] svc m 1"
    );
}

#[test]
fn call_errors_get_a_bad_request_response() {
    let r = opensrf_edge::gateway_call::call_failure_response("GET", CallError::NoMethod);
    assert_eq!(
        r,
        "HTTP/1.1 400 Bad Request\r\nContent-Type: text/json\r\nContent-Length: 35\r\n\r\n[\"Request contains no method name\"]"
    );
    let v = opensrf_edge::gateway_call::call_error_json(CallError::BadParam("x".to_string()));
    assert_eq!(v.dump(), "\"Cannot parse parameter: x\"");
}

#[test]
fn relay_errors_as_json() {
    assert_eq!(
        relay_error_json(RelayError::Status(MessageStatus::NotFound)).dump(),
        "{\"status\":\"Not Found\",\"statusCode\":404}"
    );
    assert_eq!(relay_error_json(RelayError::BadPartial).dump(), "\"Error reconstituting partial message\"");
    assert_eq!(MessageStatus::Okay.label(), "OK");
}
