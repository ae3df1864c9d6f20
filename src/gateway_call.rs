use vstd::prelude::*;
use vstd::string::*;
use crate::http::GatewayRequestFormat;
use crate::http_read::HttpRequest;
use crate::json_value::{Json, json_text, json_text_value, parse_json, dump_json};
use crate::http::{response_text, reply_body, render_response};
use crate::text::{same_text, starts_with_bytes, utf8};

verus! {

/// Decoded query pairs of a URL, or `None` where the text is not a URL.
pub uninterp spec fn url_query_pairs(s: Seq<char>) -> Option<Seq<(Seq<char>, Seq<char>)>>;

pub open spec fn pairs_view(v: Seq<(String, String)>) -> Seq<(Seq<char>, Seq<char>)> {
    v.map_values(|p: (String, String)| (p.0@, p.1@))
}

/// Relies on `url::Url::parse` and `Url::query_pairs`: the percent-decoded
/// key/value pairs of the query, in order; `None` where parsing fails.
#[verifier::external_body]
fn query_pairs(s: &str) -> (r: Option<Vec<(String, String)>>)
    ensures
        match r {
            Some(v) => url_query_pairs(s@) == Some(pairs_view(v@)),
            None => url_query_pairs(s@) is None,
        },
{
    url::Url::parse(s).ok().map(
        |u| u.query_pairs().map(|(k, v)| (k.into_owned(), v.into_owned())).collect(),
    )
}

/// The URL whose query holds the call: the body of a `POST`, else the path.
pub open spec fn request_url(req: HttpRequest) -> Seq<char> {
    match req.body {
        Some(b) => "http://localhost?"@ + b@,
        None => "http://localhost"@ + req.path@,
    }
}

/// What the query pairs name so far.
pub struct CallScan {
    pub method: Option<Seq<char>>,
    pub service: Option<Seq<char>>,
    pub format: GatewayRequestFormat,
    pub params: Seq<Json>,
    /// The first `param` value that is not JSON.
    pub bad: Option<Seq<char>>,
}

pub open spec fn format_named(v: Seq<char>) -> GatewayRequestFormat {
    if v == "raw"@ {
        GatewayRequestFormat::Raw
    } else if v == "rawslim"@ {
        GatewayRequestFormat::RawSlim
    } else {
        GatewayRequestFormat::Fieldmapper
    }
}

/// One query pair: `method`, `service` and `format` keep their last value,
/// each `param` adds a JSON value, other keys are ignored.
pub open spec fn scan_pair(s: CallScan, k: Seq<char>, v: Seq<char>) -> CallScan {
    if k == "method"@ {
        CallScan { method: Some(v), ..s }
    } else if k == "service"@ {
        CallScan { service: Some(v), ..s }
    } else if k == "format"@ {
        CallScan { format: format_named(v), ..s }
    } else if k == "param"@ {
        match json_text_value(v) {
            Some(j) => CallScan { params: s.params.push(j), ..s },
            None => CallScan { bad: Some(v), ..s },
        }
    } else {
        s
    }
}

/// All query pairs, in order, up to the first `param` that is not JSON.
pub open spec fn scan_pairs(ps: Seq<(Seq<char>, Seq<char>)>) -> CallScan
    decreases ps.len(),
{
    if ps.len() == 0 {
        CallScan {
            method: None,
            service: None,
            format: GatewayRequestFormat::Fieldmapper,
            params: Seq::empty(),
            bad: None,
        }
    } else {
        let s = scan_pairs(ps.drop_last());
        if s.bad is Some {
            s
        } else {
            scan_pair(s, ps.last().0, ps.last().1)
        }
    }
}

/// An API call read from an HTTP request.
#[derive(Debug)]
pub struct GatewayCall {
    pub service: String,
    pub method: String,
    pub params: Vec<Json>,
    pub format: GatewayRequestFormat,
    pub http_method: String,
}

#[derive(Debug)]
pub enum CallError {
    /// The request does not form a URL.
    BadUrl,
    /// A `param` value is not JSON.
    BadParam(String),
    NoMethod,
    NoService,
}

/// The message of a call error.
pub open spec fn call_error_text(e: CallError) -> Seq<char> {
    match e {
        CallError::BadUrl => "Error parsing request params"@,
        CallError::BadParam(v) => "Cannot parse parameter: "@ + v@,
        CallError::NoMethod => "Request contains no method name"@,
        CallError::NoService => "Request contains no service name"@,
    }
}

/// A call error as the JSON string the caller receives.
pub fn call_error_json(e: CallError) -> (r: Json)
    ensures
        r is Str && r->Str_0@ == call_error_text(e),
{
    match e {
        CallError::BadUrl => Json::Str(String::from_str("Error parsing request params")),
        CallError::BadParam(v) => Json::Str(
            String::from_str("Cannot parse parameter: ").concat(v.as_str()),
        ),
        CallError::NoMethod => Json::Str(String::from_str("Request contains no method name")),
        CallError::NoService => Json::Str(String::from_str("Request contains no service name")),
    }
}

/// The response to a request whose call cannot be read: `400`, with the
/// error alone in a JSON array as the body.
pub fn call_failure_response(http_method: &str, e: CallError) -> (r: String)
    ensures
        exists|body: Json|
            {
                &&& body is Array
                &&& body->Array_0@.len() == 1
                &&& body->Array_0@[0] is Str
                &&& body->Array_0@[0]->Str_0@ == call_error_text(e)
                &&& r@ == response_text(false, http_method@, json_text(body))
            },
{
    let (ok, body) = reply_body(Err(call_error_json(e)));
    render_response(ok, http_method, &body)
}

/// Reads service, method, parameters and format from the query of a
/// request: from the body of a `POST`, else from the path.
pub fn parse_request(req: HttpRequest) -> (r: Result<GatewayCall, CallError>)
    ensures
        match url_query_pairs(request_url(req)) {
            None => r matches Err(CallError::BadUrl),
            Some(ps) => {
                let s = scan_pairs(ps);
                if s.bad is Some {
                    r is Err && r->Err_0 is BadParam && r->Err_0->BadParam_0@ == s.bad->Some_0
                } else if s.method is None {
                    r matches Err(CallError::NoMethod)
                } else if s.service is None {
                    r matches Err(CallError::NoService)
                } else {
                    &&& r is Ok
                    &&& r->Ok_0.method@ == s.method->Some_0
                    &&& r->Ok_0.service@ == s.service->Some_0
                    &&& r->Ok_0.params@ == s.params
                    &&& r->Ok_0.format == s.format
                    &&& r->Ok_0.http_method == req.method
                }
            },
        },
{
    let HttpRequest { method: http_method, path, body } = req;
    let url = match body {
        Some(b) => String::from_str("http://localhost?").concat(b.as_str()),
        None => String::from_str("http://localhost").concat(path.as_str()),
    };
    let pairs = match query_pairs(url.as_str()) {
        Some(p) => p,
        None => {
            return Err(CallError::BadUrl);
        },
    };
    let ghost ps = pairs_view(pairs@);
    let mut method: Option<String> = None;
    let mut service: Option<String> = None;
    let mut format = GatewayRequestFormat::Fieldmapper;
    let mut params: Vec<Json> = Vec::new();
    let mut i: usize = 0;
    while i < pairs.len()
        invariant
            i <= pairs@.len(),
            ps == pairs_view(pairs@),
            url_query_pairs(request_url(req)) == Some(ps),
            scan_pairs(ps.take(i as int)).bad is None,
            ({
                let s = scan_pairs(ps.take(i as int));
                &&& s.method == match method {
                    Some(m) => Some(m@),
                    None => None::<Seq<char>>,
                }
                &&& s.service == match service {
                    Some(m) => Some(m@),
                    None => None::<Seq<char>>,
                }
                &&& s.format == format
                &&& s.params == params@
            }),
        decreases pairs@.len() - i,
    {
        assert(ps.take(i + 1).drop_last() == ps.take(i as int));
        assert(ps.take(i + 1).last() == (pairs@[i as int].0@, pairs@[i as int].1@));
        let k = pairs[i].0.as_str();
        let v = pairs[i].1.as_str();
        if same_text(k, "method") {
            method = Some(v.to_owned());
        } else if same_text(k, "service") {
            service = Some(v.to_owned());
        } else if same_text(k, "format") {
            format = GatewayRequestFormat::from_name(v);
        } else if same_text(k, "param") {
            match parse_json(v) {
                Some(j) => params.push(j),
                None => {
                    proof {
                        let s0 = scan_pairs(ps.take(i as int));
                        assert(k@ == "param"@);
                        assert(scan_pair(s0, k@, v@).bad == Some(v@));
                        assert(scan_pairs(ps.take(i + 1)).bad == Some(v@));
                        lemma_scan_stops(ps, i as int + 1);
                    }
                    return Err(CallError::BadParam(v.to_owned()));
                },
            }
        }
        i = i + 1;
    }
    assert(ps.take(pairs@.len() as int) == ps);
    let method = match method {
        Some(m) => m,
        None => {
            return Err(CallError::NoMethod);
        },
    };
    let service = match service {
        Some(s) => s,
        None => {
            return Err(CallError::NoService);
        },
    };
    Ok(GatewayCall { service, method, params, format, http_method })
}

/// Once a `param` fails, the scan stays where it stopped.
proof fn lemma_scan_stops(ps: Seq<(Seq<char>, Seq<char>)>, k: int)
    requires
        0 <= k <= ps.len(),
        scan_pairs(ps.take(k)).bad is Some,
    ensures
        scan_pairs(ps) == scan_pairs(ps.take(k)),
    decreases ps.len() - k,
{
    if k < ps.len() {
        assert(ps.take(k + 1).drop_last() == ps.take(k));
        lemma_scan_stops(ps, k + 1);
    } else {
        assert(ps.take(k) == ps);
    }
}

/// A method whose name starts with one of the protected prefixes.
pub open spec fn is_protected(method: Seq<char>, log_protect: Seq<String>) -> bool {
    exists|i: int| 0 <= i < log_protect.len() && utf8(log_protect[i]@).is_prefix_of(utf8(method))
}

/// The parameters' JSON texts joined by `", "`.
pub open spec fn joined_params(ps: Seq<Json>) -> Seq<char>
    decreases ps.len(),
{
    if ps.len() == 0 {
        Seq::empty()
    } else if ps.len() == 1 {
        json_text(ps[0])
    } else {
        joined_params(ps.drop_last()) + ", "@ + json_text(ps.last())
    }
}

/// What the access log shows of a call's parameters: their JSON texts, or
/// a redaction marker where the method is protected.
pub open spec fn logged_params(method: Seq<char>, params: Seq<Json>, log_protect: Seq<String>) -> Seq<
    char,
> {
    if is_protected(method, log_protect) {
        "**PARAMS REDACTED**"@
    } else {
        joined_params(params)
    }
}

pub fn log_params(method: &str, params: &Vec<Json>, log_protect: &Vec<String>) -> (r: String)
    ensures
        r@ == logged_params(method@, params@, log_protect@),
{
    let mut j: usize = 0;
    while j < log_protect.len()
        invariant
            j <= log_protect@.len(),
            forall|t: int| 0 <= t < j ==> !utf8(log_protect@[t]@).is_prefix_of(utf8(method@)),
        decreases log_protect@.len() - j,
    {
        if starts_with_bytes(method.as_bytes(), log_protect[j].as_str().as_bytes()) {
            return String::from_str("**PARAMS REDACTED**");
        }
        j = j + 1;
    }
    let mut out = String::new();
    let mut i: usize = 0;
    while i < params.len()
        invariant
            i <= params@.len(),
            out@ == joined_params(params@.take(i as int)),
        decreases params@.len() - i,
    {
        assert(params@.take(i + 1).drop_last() == params@.take(i as int));
        let text = dump_json(&params[i]);
        if i > 0 {
            out.append(", ");
        }
        out.append(text.as_str());
        i = i + 1;
    }
    assert(params@.take(params@.len() as int) == params@);
    out
}

/// The access-log line of a call.
pub fn access_line(client: &str, trace: &str, service: &str, method: &str, params: &str) -> (r: String)
    ensures
        r@ == "ACT:["@ + client@ + ":"@ + trace@ + "] "@ + service@ + " "@ + method@ + " "@ + params@,
{
    String::from_str("ACT:[").concat(client).concat(":").concat(trace).concat("] ").concat(
        service,
    ).concat(" ").concat(method).concat(" ").concat(params)
}

} // verus!
