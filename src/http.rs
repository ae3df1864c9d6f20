use vstd::prelude::*;
use vstd::string::*;
use crate::json_value::{Json, json_text, dump_json, scrub_nulls, is_scrubbed};
use crate::text::{same_text, decimal, decimal_text, utf8};

verus! {

/// How reply values are encoded for the caller.
#[derive(Clone, Copy, Debug, PartialEq, Eq, Structural)]
pub enum GatewayRequestFormat {
    Fieldmapper,
    RawSlim,
    Raw,
}

impl GatewayRequestFormat {
    /// `raw` and `rawslim` name their formats; anything else means `Fieldmapper`.
    pub fn from_name(s: &str) -> (r: GatewayRequestFormat)
        ensures
            r == (if s@ == "raw"@ {
                GatewayRequestFormat::Raw
            } else if s@ == "rawslim"@ {
                GatewayRequestFormat::RawSlim
            } else {
                GatewayRequestFormat::Fieldmapper
            }),
    {
        if same_text(s, "raw") {
            GatewayRequestFormat::Raw
        } else if same_text(s, "rawslim") {
            GatewayRequestFormat::RawSlim
        } else {
            GatewayRequestFormat::Fieldmapper
        }
    }

    pub fn is_raw(&self) -> (r: bool)
        ensures
            r == (*self is Raw || *self is RawSlim),
    {
        match self {
            GatewayRequestFormat::Fieldmapper => false,
            _ => true,
        }
    }
}

/// The last encoding step of a reply value, after the object-model unpacking
/// that raw formats go through: `RawSlim` drops every null inside it.
pub fn finish_reply(format: GatewayRequestFormat, value: Json) -> (r: Json)
    ensures
        format is RawSlim ==> is_scrubbed(r, value),
        !(format is RawSlim) ==> r == value,
{
    match format {
        GatewayRequestFormat::RawSlim => scrub_nulls(value),
        _ => value,
    }
}

/// First line of a response: success, or a gateway-level failure.
pub open spec fn leader(ok: bool) -> Seq<char> {
    if ok {
        "HTTP/1.1 200 OK"@
    } else {
        "HTTP/1.1 400 Bad Request"@
    }
}

/// Status line and headers of a `GET`, `POST` or `HEAD` response whose
/// body is `body_len` bytes long.
pub open spec fn response_head(ok: bool, body_len: nat) -> Seq<char> {
    leader(ok) + "\r\n"@ + "Content-Type: text/json"@ + "\r\n"@ + "Content-Length: "@ + decimal(
        body_len,
    ) + "\r\n\r\n"@
}

/// The full response to an HTTP method, for a JSON body `data`.
pub open spec fn response_text(ok: bool, http_method: Seq<char>, data: Seq<char>) -> Seq<char> {
    if http_method == "HEAD"@ {
        response_head(ok, utf8(data).len())
    } else if http_method == "GET"@ || http_method == "POST"@ {
        response_head(ok, utf8(data).len()) + data
    } else {
        "HTTP/1.1 405 Method Not Allowed\r\n"@
    }
}

/// The response text for a body `data`: headers with its byte length,
/// then the body itself except for `HEAD`; `405` for other methods.
pub fn build_response(ok: bool, http_method: &str, data: &str) -> (r: String)
    ensures
        r@ == response_text(ok, http_method@, data@),
{
    let is_head = same_text(http_method, "HEAD");
    let is_get = same_text(http_method, "GET");
    let is_post = same_text(http_method, "POST");
    if !is_head && !is_get && !is_post {
        return String::from_str("HTTP/1.1 405 Method Not Allowed\r\n");
    }
    let first = if ok {
        "HTTP/1.1 200 OK"
    } else {
        "HTTP/1.1 400 Bad Request"
    };
    let length = decimal_text(data.as_bytes().len());
    let head = String::from_str(first).concat("\r\n").concat("Content-Type: text/json").concat(
        "\r\n",
    ).concat("Content-Length: ").concat(length.as_str()).concat("\r\n\r\n");
    if is_head {
        head
    } else {
        head.concat(data)
    }
}

/// A `HEAD` response carries exactly the headers of the `GET` response for
/// the same body, and no body; its `Content-Length` is the body's byte length.
pub proof fn lemma_head_matches_get(ok: bool, data: Seq<char>)
    ensures
        response_text(ok, "HEAD"@, data) + data == response_text(ok, "GET"@, data),
        response_text(ok, "GET"@, data) == response_text(ok, "POST"@, data),
        response_text(ok, "HEAD"@, data) == response_head(ok, utf8(data).len()),
{
    reveal_strlit("HEAD");
    reveal_strlit("GET");
    reveal_strlit("POST");
    assert("HEAD"@ != "GET"@) by {
        assert("HEAD"@.len() != "GET"@.len());
    }
    assert("HEAD"@ != "POST"@) by {
        assert("HEAD"@[0] != "POST"@[0]);
    }
}

/// The body of the response to a relayed request: the reply values as one
/// JSON array, or the failure value alone in an array, which goes out
/// under `400`.
pub fn reply_body(outcome: Result<Vec<Json>, Json>) -> (r: (bool, Json))
    ensures
        match outcome {
            Ok(vals) => r.0 && r.1 == Json::Array(vals),
            Err(e) => !r.0 && r.1 is Array && r.1->Array_0@ == seq![e],
        },
{
    match outcome {
        Ok(vals) => (true, Json::Array(vals)),
        Err(e) => {
            let mut v: Vec<Json> = Vec::new();
            v.push(e);
            (false, Json::Array(v))
        },
    }
}

/// The response that carries `body` as JSON text.
pub fn render_response(ok: bool, http_method: &str, body: &Json) -> (r: String)
    ensures
        r@ == response_text(ok, http_method@, json_text(*body)),
{
    let data = dump_json(body);
    build_response(ok, http_method, data.as_str())
}

} // verus!
