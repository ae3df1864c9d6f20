use vstd::prelude::*;
use vstd::slice::slice_subrange;
use crate::text::utf8;

verus! {

/// What the HTTP parser makes of the bytes read so far.
#[derive(Debug)]
pub enum HeadParse {
    /// The request head is not complete yet.
    Partial,
    /// The head is complete and `size` bytes long.
    Complete {
        size: usize,
        method: Option<String>,
        path: Option<String>,
        headers: Vec<(String, Vec<u8>)>,
    },
    /// The bytes are not an HTTP request head.
    Invalid,
}

/// What the HTTP parser makes of a byte buffer.
pub uninterp spec fn http_head(b: Seq<u8>) -> HeadParse;

/// Relies on `httparse::Request::parse` with room for 64 headers: `Partial`
/// until the head is complete, then the head's byte count, which is the
/// position in the buffer where the head ends.
#[verifier::external_body]
fn parse_head(b: &[u8]) -> (r: HeadParse)
    ensures
        r == http_head(b@),
        match r {
            HeadParse::Complete { size, .. } => size <= b@.len(),
            _ => true,
        },
{
    let mut headers = [httparse::EMPTY_HEADER; 64];
    let mut req = httparse::Request::new(&mut headers);
    match req.parse(b) {
        Ok(httparse::Status::Complete(size)) => HeadParse::Complete {
            size,
            method: req.method.map(|m| m.to_string()),
            path: req.path.map(|p| p.to_string()),
            headers: req.headers.iter().map(|h| (h.name.to_string(), h.value.to_vec())).collect(),
        },
        Ok(httparse::Status::Partial) => HeadParse::Partial,
        Err(_) => HeadParse::Invalid,
    }
}

/// The text of bytes read as UTF-8, invalid sequences replaced.
pub uninterp spec fn utf8_lossy(b: Seq<u8>) -> Seq<char>;

/// Relies on `String::from_utf8_lossy`: the result depends on the bytes alone.
#[verifier::external_body]
fn lossy_text(b: &[u8]) -> (r: String)
    ensures
        r@ == utf8_lossy(b@),
{
    String::from_utf8_lossy(b).to_string()
}

/// ASCII lower case of a byte.
pub open spec fn ascii_lower(c: u8) -> u8 {
    if 65 <= c <= 90 {
        (c + 32) as u8
    } else {
        c
    }
}

/// The bytes of `content-length`.
pub open spec fn content_length_name() -> Seq<u8> {
    seq![99u8, 111, 110, 116, 101, 110, 116, 45, 108, 101, 110, 103, 116, 104]
}

/// A header name that reads `content-length` in any letter case. Header
/// names are ASCII tokens, so ASCII case folding is all there is to it.
pub open spec fn is_content_length(name: Seq<u8>) -> bool {
    &&& name.len() == content_length_name().len()
    &&& forall|i: int| 0 <= i < name.len() ==> ascii_lower(#[trigger] name[i]) == content_length_name()[i]
}

fn names_content_length(name: &[u8]) -> (r: bool)
    ensures
        r == is_content_length(name@),
{
    let target: Vec<u8> = vec![99u8, 111, 110, 116, 101, 110, 116, 45, 108, 101, 110, 103, 116, 104];
    assert(target@ == content_length_name());
    if name.len() != target.len() {
        return false;
    }
    let mut i: usize = 0;
    while i < name.len()
        invariant
            name@.len() == target@.len(),
            target@ == content_length_name(),
            i <= name@.len(),
            forall|j: int| 0 <= j < i ==> ascii_lower(#[trigger] name@[j]) == target@[j],
        decreases name@.len() - i,
    {
        let c = name[i];
        let lower = if 65 <= c && c <= 90 {
            c + 32
        } else {
            c
        };
        if lower != target[i] {
            return false;
        }
        i = i + 1;
    }
    true
}

/// Value of a run of decimal digits.
pub open spec fn digits_value(b: Seq<u8>) -> nat
    decreases b.len(),
{
    if b.len() == 0 {
        0
    } else {
        digits_value(b.drop_last()) * 10 + (b.last() - 48) as nat
    }
}

pub open spec fn all_digits(b: Seq<u8>) -> bool {
    forall|i: int| 0 <= i < b.len() ==> 48 <= #[trigger] b[i] <= 57
}

/// The digits of an unsigned number: an optional `+`, then digits.
pub open spec fn unsigned_digits(b: Seq<u8>) -> Seq<u8> {
    if b.len() > 0 && b[0] == 43 {
        b.drop_first()
    } else {
        b
    }
}

/// The `usize` that text denotes: at least one decimal digit after an
/// optional `+`, with a value that fits.
pub open spec fn usize_value(b: Seq<u8>) -> Option<nat> {
    let d = unsigned_digits(b);
    if d.len() > 0 && all_digits(d) && digits_value(d) <= usize::MAX {
        Some(digits_value(d))
    } else {
        None
    }
}

proof fn lemma_digits_grow(b: Seq<u8>, i: int, j: int)
    requires
        0 <= i <= j <= b.len(),
        all_digits(b),
    ensures
        digits_value(b.take(i)) <= digits_value(b.take(j)),
    decreases j - i,
{
    if i < j {
        lemma_digits_grow(b, i, j - 1);
        assert(b.take(j).drop_last() == b.take(j - 1));
    }
}

/// Reads an unsigned decimal number.
pub fn parse_usize(b: &[u8]) -> (r: Option<usize>)
    ensures
        match usize_value(b@) {
            Some(v) => r == Some(v as usize),
            None => r is None,
        },
{
    let start: usize = if b.len() > 0 && b[0] == 43 {
        1
    } else {
        0
    };
    let ghost d = unsigned_digits(b@);
    assert(d == b@.subrange(start as int, b@.len() as int));
    if start >= b.len() {
        return None;
    }
    let mut v: usize = 0;
    let mut i: usize = start;
    while i < b.len()
        invariant
            start <= i <= b@.len(),
            d == unsigned_digits(b@),
            d == b@.subrange(start as int, b@.len() as int),
            forall|j: int| 0 <= j < i - start ==> 48 <= #[trigger] d[j] <= 57,
            v == digits_value(d.take(i - start)),
        decreases b@.len() - i,
    {
        let c = b[i];
        if c < 48 || c > 57 {
            assert(!all_digits(d)) by {
                let k = (i - start) as int;
                assert(d[k] == b@[i as int]);
                assert(!(48 <= d[k] <= 57));
            }
            return None;
        }
        let digit = (c - 48) as usize;
        assert(d.take(i - start + 1).drop_last() == d.take(i - start));
        assert(d.take(i - start + 1).last() == c);
        assert(digits_value(d.take(i - start + 1)) == v * 10 + digit);
        if v > (usize::MAX - digit) / 10 {
            proof {
                assert(digits_value(d.take(i - start + 1)) > usize::MAX) by (nonlinear_arith)
                    requires
                        digits_value(d.take(i - start + 1)) == v * 10 + digit,
                        v > (usize::MAX - digit) / 10,
                        digit <= 9,
                ;
                if all_digits(d) {
                    lemma_digits_grow(d, i - start + 1, d.len() as int);
                    assert(d.take(d.len() as int) == d);
                    assert(digits_value(d) > usize::MAX);
                }
            }
            return None;
        }
        v = v * 10 + digit;
        i = i + 1;
    }
    assert(d.take(d.len() as int) == d);
    Some(v)
}

/// The `Content-Length` of a request: the first such header whose value
/// is a number, else zero.
pub open spec fn content_length_of(hs: Seq<(String, Vec<u8>)>) -> nat
    decreases hs.len(),
{
    if hs.len() == 0 {
        0
    } else if is_content_length(utf8(hs[0].0@)) && usize_value(hs[0].1@) is Some {
        usize_value(hs[0].1@)->Some_0
    } else {
        content_length_of(hs.drop_first())
    }
}

fn find_content_length(hs: &Vec<(String, Vec<u8>)>) -> (r: usize)
    ensures
        r == content_length_of(hs@),
{
    let mut i: usize = 0;
    assert(hs@.subrange(0, hs@.len() as int) == hs@);
    while i < hs.len()
        invariant
            i <= hs@.len(),
            content_length_of(hs@) == content_length_of(hs@.subrange(i as int, hs@.len() as int)),
        decreases hs@.len() - i,
    {
        let ghost rest = hs@.subrange(i as int, hs@.len() as int);
        assert(rest.drop_first() == hs@.subrange(i + 1, hs@.len() as int));
        let name_match = names_content_length(hs[i].0.as_str().as_bytes());
        if name_match {
            if let Some(v) = parse_usize(hs[i].1.as_slice()) {
                return v;
            }
        }
        i = i + 1;
    }
    0
}

/// The parts of an HTTP request that the gateway reads.
#[derive(Debug)]
pub struct HttpRequest {
    pub method: String,
    pub path: String,
    /// The request body, where `Content-Length` announced one.
    pub body: Option<String>,
}

#[derive(Clone, Copy, Debug, PartialEq, Eq, Structural)]
pub enum ReadError {
    /// The bytes are not an HTTP request head.
    BadHead,
    /// The head has no method or no path.
    Incomplete,
    /// More body bytes came than `Content-Length` announced.
    TooLong,
}

/// Where reading a request stands after the bytes seen so far.
#[derive(Debug)]
pub enum ReadProgress {
    NeedMore,
    Done(HttpRequest),
    Failed(ReadError),
}

/// Decides, from all bytes read so far, whether the request is complete,
/// needs more bytes, or is malformed. The body is the `Content-Length`
/// bytes after the head.
pub fn examine_request(b: &[u8]) -> (r: ReadProgress)
    ensures
        match http_head(b@) {
            HeadParse::Invalid => r == ReadProgress::Failed(ReadError::BadHead),
            HeadParse::Partial => r is NeedMore,
            HeadParse::Complete { size, method, path, headers } => {
                let cl = content_length_of(headers@);
                let body_len = b@.len() - size;
                if method is None || path is None {
                    r == ReadProgress::Failed(ReadError::Incomplete)
                } else if body_len == 0 && cl == 0 {
                    r is Done && r->Done_0.method == method->Some_0 && r->Done_0.path
                        == path->Some_0 && r->Done_0.body is None
                } else if body_len == cl {
                    r is Done && r->Done_0.method == method->Some_0 && r->Done_0.path
                        == path->Some_0 && r->Done_0.body is Some && r->Done_0.body->Some_0@
                        == utf8_lossy(b@.subrange(size as int, b@.len() as int))
                } else if body_len > cl && body_len > 0 {
                    r == ReadProgress::Failed(ReadError::TooLong)
                } else {
                    r is NeedMore
                }
            },
        },
{
    match parse_head(b) {
        HeadParse::Invalid => ReadProgress::Failed(ReadError::BadHead),
        HeadParse::Partial => ReadProgress::NeedMore,
        HeadParse::Complete { size, method, path, headers } => {
            let cl = find_content_length(&headers);
            let (method, path) = match (method, path) {
                (Some(m), Some(p)) => (m, p),
                _ => {
                    return ReadProgress::Failed(ReadError::Incomplete);
                },
            };
            let body_len = b.len() - size;
            if body_len == 0 {
                if cl == 0 {
                    return ReadProgress::Done(HttpRequest { method, path, body: None });
                }
                return ReadProgress::NeedMore;
            }
            if body_len == cl {
                let body = lossy_text(slice_subrange(b, size, b.len()));
                return ReadProgress::Done(HttpRequest { method, path, body: Some(body) });
            }
            if body_len > cl {
                return ReadProgress::Failed(ReadError::TooLong);
            }
            ReadProgress::NeedMore
        },
    }
}

} // verus!
