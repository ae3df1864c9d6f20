use vstd::prelude::*;
use vstd::string::*;
use crate::json_value::{Json, JsonNumber, field, member_of, str_field, json_text_value, parse_json};
use crate::message::{MessageStatus, Payload, status_code, status_label};

verus! {

/// Why a relayed request failed.
#[derive(Debug)]
pub enum RelayError {
    /// The service answered with a status that ends the request.
    Status(MessageStatus),
    /// The collected partial chunks are not JSON.
    BadPartial,
}

/// The JSON value a failed relay hands to the caller: a failure status as
/// its reason phrase and code, or the text of a partial-reassembly failure.
pub fn relay_error_json(e: RelayError) -> (r: Json)
    ensures
        match e {
            RelayError::Status(st) => {
                &&& str_field(r, "status"@) == Some(status_label(st))
                &&& field(r, "statusCode"@) == Some(
                    Json::Number(JsonNumber { positive: true, mantissa: status_code(st) as u64, exponent: 0 }),
                )
            },
            RelayError::BadPartial => r is Str && r->Str_0@ == "Error reconstituting partial message"@,
        },
{
    match e {
        RelayError::Status(st) => {
            let mut members: Vec<(String, Json)> = Vec::new();
            members.push((String::from_str("status"), Json::Str(String::from_str(st.label()))));
            members.push(
                (
                    String::from_str("statusCode"),
                    Json::Number(JsonNumber { positive: true, mantissa: st.code() as u64, exponent: 0 }),
                ),
            );
            let r = Json::Object(members);
            proof {
                reveal_strlit("status");
                reveal_strlit("statusCode");
                assert(members@[0].0@ == "status"@);
                assert(members@[1].0@ == "statusCode"@);
                assert("status"@ != "statusCode"@) by {
                    assert("status"@.len() != "statusCode"@.len());
                }
                assert(members@.drop_first().drop_first().len() == 0);
                assert(members@.drop_first()[0] == members@[1]);
                assert(member_of(members@, "status"@) == Some(members@[0].1));
                assert(member_of(members@.drop_first(), "statusCode"@) == Some(members@[1].1));
                assert(member_of(members@, "statusCode"@) == Some(members@[1].1));
            }
            r
        },
        RelayError::BadPartial => Json::Str(String::from_str("Error reconstituting partial message")),
    }
}

/// What a reply assembler holds: the partial text collected so far,
/// the reply values delivered so far, and whether `Complete` was seen.
pub struct AssemblyState {
    pub buffer: Option<Seq<char>>,
    pub replies: Seq<Json>,
    pub complete: bool,
}

/// The text that a partial chunk adds: a JSON string's characters, or nothing.
pub open spec fn chunk_of(content: Json) -> Seq<char> {
    match content {
        Json::Str(t) => t@,
        _ => Seq::empty(),
    }
}

/// The text held in the partial buffer, empty where there is none.
pub open spec fn buffered(s: AssemblyState) -> Seq<char> {
    match s.buffer {
        Some(b) => b,
        None => Seq::empty(),
    }
}

/// The effect of one sub-message on the assembly.
pub open spec fn assemble_step(s: AssemblyState, p: Payload) -> Result<AssemblyState, RelayError> {
    match p {
        Payload::Result(MessageStatus::Partial, content) => Ok(
            AssemblyState { buffer: Some(buffered(s) + chunk_of(content)), ..s },
        ),
        Payload::Result(MessageStatus::PartialComplete, content) => match json_text_value(
            buffered(s) + chunk_of(content),
        ) {
            Some(v) => Ok(AssemblyState { buffer: None, replies: s.replies.push(v), ..s }),
            None => Err(RelayError::BadPartial),
        },
        Payload::Result(_, content) => Ok(
            AssemblyState { buffer: None, replies: s.replies.push(content), ..s },
        ),
        Payload::Status(MessageStatus::Complete) => Ok(AssemblyState { complete: true, ..s }),
        Payload::Status(MessageStatus::Okay) => Ok(s),
        Payload::Status(MessageStatus::Continue) => Ok(s),
        Payload::Status(st) => Err(RelayError::Status(st)),
        _ => Ok(s),
    }
}

/// The effect of a sequence of sub-messages, in order; the first failure wins.
pub open spec fn assemble_all(s: AssemblyState, ps: Seq<Payload>) -> Result<
    AssemblyState,
    RelayError,
>
    decreases ps.len(),
{
    if ps.len() == 0 {
        Ok(s)
    } else {
        match assemble_all(s, ps.drop_last()) {
            Ok(t) => assemble_step(t, ps.last()),
            Err(e) => Err(e),
        }
    }
}

/// Collects the reply values of one relayed request.
pub struct ReplyAssembler {
    buffer: Option<String>,
    replies: Vec<Json>,
    complete: bool,
}

impl ReplyAssembler {
    pub closed spec fn view(&self) -> AssemblyState {
        AssemblyState {
            buffer: match self.buffer {
                Some(b) => Some(b@),
                None => None,
            },
            replies: self.replies@,
            complete: self.complete,
        }
    }

    pub fn new() -> (r: ReplyAssembler)
        ensures
            r.view() == (AssemblyState { buffer: None, replies: Seq::empty(), complete: false }),
    {
        ReplyAssembler { buffer: None, replies: Vec::new(), complete: false }
    }

    /// `Complete` has been seen: no more replies will come.
    pub fn is_complete(&self) -> (r: bool)
        ensures
            r == self.view().complete,
    {
        self.complete
    }

    /// The reply values delivered so far, in order.
    pub fn replies(&self) -> (r: &Vec<Json>)
        ensures
            r@ == self.view().replies,
    {
        &self.replies
    }

    /// The reply values delivered so far, in order.
    pub fn into_replies(self) -> (r: Vec<Json>)
        ensures
            r@ == self.view().replies,
    {
        self.replies
    }

    fn apply(&mut self, p: Payload) -> (r: Result<(), RelayError>)
        ensures
            match assemble_step(old(self).view(), p) {
                Ok(t) => r is Ok && final(self).view() == t,
                Err(e) => r == Err::<(), RelayError>(e),
            },
    {
        match p {
            Payload::Result(status, content) => {
                match status {
                    MessageStatus::Partial => {
                        let mut buf = match self.buffer.take() {
                            Some(b) => b,
                            None => String::new(),
                        };
                        if let Some(chunk) = content.as_str() {
                            buf.append(chunk);
                        }
                        self.buffer = Some(buf);
                        Ok(())
                    },
                    MessageStatus::PartialComplete => {
                        let mut buf = match self.buffer.take() {
                            Some(b) => b,
                            None => String::new(),
                        };
                        if let Some(chunk) = content.as_str() {
                            buf.append(chunk);
                        }
                        match parse_json(buf.as_str()) {
                            Some(v) => {
                                self.replies.push(v);
                                Ok(())
                            },
                            None => Err(RelayError::BadPartial),
                        }
                    },
                    _ => {
                        self.buffer = None;
                        self.replies.push(content);
                        Ok(())
                    },
                }
            },
            Payload::Status(st) => match st {
                MessageStatus::Complete => {
                    self.complete = true;
                    Ok(())
                },
                MessageStatus::Okay => Ok(()),
                MessageStatus::Continue => Ok(()),
                _ => Err(RelayError::Status(st)),
            },
            _ => Ok(()),
        }
    }

    /// Takes in the sub-messages of one transport message, in order.
    /// Partial chunks are collected and parsed once `PartialComplete`
    /// arrives; any other result is delivered as it is; `Complete`
    /// ends the request; a failure status ends it with an error.
    pub fn absorb(&mut self, body: Vec<Payload>) -> (r: Result<(), RelayError>)
        ensures
            match assemble_all(old(self).view(), body@) {
                Ok(t) => r is Ok && final(self).view() == t,
                Err(e) => r == Err::<(), RelayError>(e),
            },
    {
        let ghost orig = body@;
        let ghost start = self.view();
        let mut rest = body;
        let n = rest.len();
        let mut i: usize = 0;
        while rest.len() > 0
            invariant
                orig.len() == n,
                start == old(self).view(),
                orig == body@,
                i + rest@.len() == n,
                rest@ == orig.subrange(i as int, n as int),
                assemble_all(start, orig.take(i as int)) == Ok::<AssemblyState, RelayError>(
                    self.view(),
                ),
            decreases rest@.len(),
        {
            let p = rest.remove(0);
            assert(orig.take(i + 1).drop_last() == orig.take(i as int));
            assert(p == orig[i as int]);
            assert(orig.take(i + 1).last() == orig[i as int]);
            let step = self.apply(p);
            if let Err(e) = step {
                proof {
                    assert(assemble_all(start, orig.take(i + 1)) == Err::<AssemblyState, RelayError>(
                        e,
                    ));
                    lemma_failure_persists(start, orig, i as int + 1);
                }
                return Err(e);
            }
            i = i + 1;
        }
        assert(orig.take(n as int) == orig);
        Ok(())
    }
}

/// Once a prefix fails, every longer prefix fails with the same error.
proof fn lemma_failure_persists(s: AssemblyState, ps: Seq<Payload>, k: int)
    requires
        0 <= k <= ps.len(),
        assemble_all(s, ps.take(k)) is Err,
    ensures
        assemble_all(s, ps) == assemble_all(s, ps.take(k)),
    decreases ps.len() - k,
{
    if k < ps.len() {
        assert(ps.take(k + 1).drop_last() == ps.take(k));
        lemma_failure_persists(s, ps, k + 1);
    } else {
        assert(ps.take(k) == ps);
    }
}

/// A reply split into chunks: one `Partial` result per chunk, then a
/// `PartialComplete` result that carries the last chunk.
pub open spec fn partial_stream(chunks: Seq<String>, last: String) -> Seq<Payload> {
    Seq::new(
        chunks.len(),
        |i: int| Payload::Result(MessageStatus::Partial, Json::Str(chunks[i])),
    ).push(Payload::Result(MessageStatus::PartialComplete, Json::Str(last)))
}

/// The chunks' text, joined in order.
pub open spec fn joined(chunks: Seq<String>) -> Seq<char>
    decreases chunks.len(),
{
    if chunks.len() == 0 {
        Seq::empty()
    } else {
        joined(chunks.drop_last()) + chunks.last()@
    }
}

proof fn lemma_partial_prefix(s: AssemblyState, chunks: Seq<String>, last: String, k: int)
    requires
        s.buffer is None,
        0 <= k <= chunks.len(),
    ensures
        assemble_all(s, partial_stream(chunks, last).take(k)) == Ok::<AssemblyState, RelayError>(
            AssemblyState { buffer: if k == 0 { None } else { Some(joined(chunks.take(k))) }, ..s },
        ),
    decreases k,
{
    let ps = partial_stream(chunks, last);
    if k > 0 {
        lemma_partial_prefix(s, chunks, last, k - 1);
        assert(ps.take(k).drop_last() == ps.take(k - 1));
        assert(chunks.take(k).drop_last() == chunks.take(k - 1));
        if k == 1 {
            assert(chunks.take(0).len() == 0);
        }
    }
}

/// A reply that arrives as partial chunks is delivered as the one value
/// that the joined chunk text denotes: the same outcome as a single
/// result carrying that value.
pub proof fn lemma_partials_reassemble(s: AssemblyState, chunks: Seq<String>, last: String, v: Json)
    requires
        s.buffer is None,
        json_text_value(joined(chunks) + last@) == Some(v),
    ensures
        assemble_all(s, partial_stream(chunks, last)) == assemble_all(
            s,
            seq![Payload::Result(MessageStatus::Okay, v)],
        ),
        assemble_all(s, partial_stream(chunks, last)) == Ok::<AssemblyState, RelayError>(
            AssemblyState { buffer: None, replies: s.replies.push(v), ..s },
        ),
{
    let ps = partial_stream(chunks, last);
    let n = chunks.len() as int;
    lemma_partial_prefix(s, chunks, last, n);
    assert(ps.drop_last() == ps.take(n));
    assert(chunks.take(n) == chunks);
    let one = seq![Payload::Result(MessageStatus::Okay, v)];
    assert(one.drop_last() =~= Seq::<Payload>::empty());
    assert(assemble_all(s, one.drop_last()) == Ok::<AssemblyState, RelayError>(s));
    assert(one.last() == Payload::Result(MessageStatus::Okay, v));
}

/// Taking in `a` and then `b` is the same as taking in `a + b`: replies
/// spread over several transport messages assemble as one stream.
pub proof fn lemma_assemble_concat(s: AssemblyState, a: Seq<Payload>, b: Seq<Payload>)
    ensures
        assemble_all(s, a + b) == match assemble_all(s, a) {
            Ok(t) => assemble_all(t, b),
            Err(e) => Err(e),
        },
    decreases b.len(),
{
    if b.len() == 0 {
        assert(a + b == a);
    } else {
        lemma_assemble_concat(s, a, b.drop_last());
        assert((a + b).drop_last() == a + b.drop_last());
        assert((a + b).last() == b.last());
    }
}

/// A partial stream split anywhere across calls still yields the one
/// reassembled value: the calls before the split succeed, and the rest
/// ends in the state of a single result carrying the value.
pub proof fn lemma_partials_across_calls(
    s: AssemblyState,
    chunks: Seq<String>,
    last: String,
    v: Json,
    k: int,
)
    requires
        s.buffer is None,
        json_text_value(joined(chunks) + last@) == Some(v),
        0 <= k <= chunks.len() + 1,
    ensures
        assemble_all(s, partial_stream(chunks, last).take(k)) is Ok,
        assemble_all(
            assemble_all(s, partial_stream(chunks, last).take(k))->Ok_0,
            partial_stream(chunks, last).skip(k),
        ) == Ok::<AssemblyState, RelayError>(
            AssemblyState { buffer: None, replies: s.replies.push(v), ..s },
        ),
{
    let ps = partial_stream(chunks, last);
    lemma_partials_reassemble(s, chunks, last, v);
    lemma_assemble_concat(s, ps.take(k), ps.skip(k));
    assert(ps.take(k) + ps.skip(k) == ps);
}

/// A sub-message that neither splits a reply nor ends the request with a
/// failure.
pub open spec fn is_plain(p: Payload) -> bool {
    match p {
        Payload::Result(st, _) => st != MessageStatus::Partial && st != MessageStatus::PartialComplete,
        Payload::Status(st) => st == MessageStatus::Okay || st == MessageStatus::Continue || st
            == MessageStatus::Complete,
        _ => true,
    }
}

/// The contents of the results, in order.
pub open spec fn results_of(ps: Seq<Payload>) -> Seq<Json>
    decreases ps.len(),
{
    if ps.len() == 0 {
        Seq::empty()
    } else {
        match ps.last() {
            Payload::Result(_, c) => results_of(ps.drop_last()).push(c),
            _ => results_of(ps.drop_last()),
        }
    }
}

/// Some sub-message is `Status(Complete)`.
pub open spec fn completes(ps: Seq<Payload>) -> bool {
    exists|i: int| 0 <= i < ps.len() && ps[i] == Payload::Status(MessageStatus::Complete)
}

/// Without partial chunks or failure statuses, every result is delivered
/// once, in order, and nothing else adds a reply.
pub proof fn lemma_plain_body(s: AssemblyState, ps: Seq<Payload>)
    requires
        s.buffer is None,
        forall|i: int| 0 <= i < ps.len() ==> is_plain(#[trigger] ps[i]),
    ensures
        assemble_all(s, ps) == Ok::<AssemblyState, RelayError>(
            AssemblyState {
                buffer: None,
                replies: s.replies + results_of(ps),
                complete: s.complete || completes(ps),
            },
        ),
    decreases ps.len(),
{
    if ps.len() == 0 {
        assert(s.replies + results_of(ps) == s.replies);
    } else {
        let init = ps.drop_last();
        assert forall|i: int| 0 <= i < init.len() implies is_plain(#[trigger] init[i]) by {
            assert(init[i] == ps[i]);
        }
        lemma_plain_body(s, init);
        assert(is_plain(ps[ps.len() - 1]));
        match ps.last() {
            Payload::Result(_, c) => {
                assert(s.replies + results_of(init).push(c) == (s.replies + results_of(init)).push(c));
            },
            _ => {},
        }
        if completes(ps) && !completes(init) {
            let i = choose|i: int| 0 <= i < ps.len() && ps[i] == Payload::Status(MessageStatus::Complete);
            if i < ps.len() - 1 {
                assert(init[i] == ps[i]);
            }
        }
        if completes(init) {
            let i = choose|i: int| 0 <= i < init.len() && init[i] == Payload::Status(MessageStatus::Complete);
            assert(ps[i] == init[i]);
        }
    }
}

} // verus!
