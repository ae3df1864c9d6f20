use vstd::prelude::*;
use crate::message::Payload;
use crate::reply::{AssemblyState, RelayError, ReplyAssembler, assemble_all, assemble_step};

verus! {

/// Why a sub-message could not be delivered.
#[derive(Debug)]
pub enum DeliveryError {
    /// No pending request has the message's thread trace.
    UnknownTrace(u64),
    /// The request had already completed.
    AfterComplete(u64),
    /// The request failed.
    Failed(u64, RelayError),
}

/// Position of the pending request with trace `t`.
pub open spec fn index_of(traces: Seq<u64>, t: u64) -> Option<int>
    decreases traces.len(),
{
    if traces.len() == 0 {
        None
    } else if traces.last() == t {
        Some(traces.len() - 1)
    } else {
        index_of(traces.drop_last(), t)
    }
}

/// The payloads of the messages addressed to trace `t`, in order.
pub open spec fn payloads_for(msgs: Seq<(u64, Payload)>, t: u64) -> Seq<Payload>
    decreases msgs.len(),
{
    if msgs.len() == 0 {
        Seq::empty()
    } else if msgs.last().0 == t {
        payloads_for(msgs.drop_last(), t).push(msgs.last().1)
    } else {
        payloads_for(msgs.drop_last(), t)
    }
}

/// One message delivered to the request that its trace names.
pub open spec fn deliver_step(
    traces: Seq<u64>,
    states: Seq<AssemblyState>,
    m: (u64, Payload),
) -> Result<Seq<AssemblyState>, DeliveryError> {
    match index_of(traces, m.0) {
        None => Err(DeliveryError::UnknownTrace(m.0)),
        Some(i) => if states[i].complete {
            Err(DeliveryError::AfterComplete(m.0))
        } else {
            match assemble_step(states[i], m.1) {
                Ok(s) => Ok(states.update(i, s)),
                Err(e) => Err(DeliveryError::Failed(m.0, e)),
            }
        },
    }
}

/// Messages delivered in order; the first failure wins.
pub open spec fn deliver_all(
    traces: Seq<u64>,
    states: Seq<AssemblyState>,
    msgs: Seq<(u64, Payload)>,
) -> Result<Seq<AssemblyState>, DeliveryError>
    decreases msgs.len(),
{
    if msgs.len() == 0 {
        Ok(states)
    } else {
        match deliver_all(traces, states, msgs.drop_last()) {
            Ok(s) => deliver_step(traces, s, msgs.last()),
            Err(e) => Err(e),
        }
    }
}

/// The pending requests of one session, each with its own reply
/// assembler, so partial streams of different requests never mix.
pub struct Demux {
    next_trace: u64,
    traces: Vec<u64>,
    collectors: Vec<ReplyAssembler>,
}

impl Demux {
    pub closed spec fn traces(&self) -> Seq<u64> {
        self.traces@
    }

    pub closed spec fn states(&self) -> Seq<AssemblyState> {
        self.collectors@.map_values(|c: ReplyAssembler| c.view())
    }

    pub closed spec fn next(&self) -> u64 {
        self.next_trace
    }

    /// Traces are handed out in increasing order, one assembler each.
    pub closed spec fn wf(&self) -> bool {
        &&& self.traces@.len() == self.collectors@.len()
        &&& forall|i: int, j: int|
            0 <= i < j < self.traces@.len() ==> self.traces@[i] < self.traces@[j]
        &&& forall|i: int| 0 <= i < self.traces@.len() ==> self.traces@[i] < self.next_trace
    }

    pub fn new() -> (r: Demux)
        ensures
            r.wf(),
            r.traces().len() == 0,
            r.next() == 1,
    {
        Demux { next_trace: 1, traces: Vec::new(), collectors: Vec::new() }
    }

    /// Opens a request under the next thread trace.
    pub fn open_request(&mut self) -> (r: Option<u64>)
        requires
            old(self).wf(),
        ensures
            final(self).wf(),
            old(self).next() < u64::MAX ==> {
                &&& r == Some(old(self).next())
                &&& final(self).next() == old(self).next() + 1
                &&& final(self).traces() == old(self).traces().push(old(self).next())
                &&& final(self).states() == old(self).states().push(
                    AssemblyState { buffer: None, replies: Seq::empty(), complete: false },
                )
            },
            old(self).next() == u64::MAX ==> r is None && *final(self) == *old(self),
    {
        if self.next_trace == u64::MAX {
            return None;
        }
        let t = self.next_trace;
        let ghost before = self.collectors@;
        self.traces.push(t);
        self.collectors.push(ReplyAssembler::new());
        self.next_trace = t + 1;
        proof {
            assert(self.states() =~= before.map_values(|c: ReplyAssembler| c.view()).push(
                AssemblyState { buffer: None, replies: Seq::empty(), complete: false },
            ));
        }
        Some(t)
    }

    fn find(&self, t: u64) -> (r: Option<usize>)
        ensures
            match index_of(self.traces(), t) {
                Some(i) => r is Some && r->Some_0 as int == i && 0 <= i < self.traces().len(),
                None => r is None,
            },
    {
        proof {
            lemma_index_below(self.traces@, t);
        }
        let mut i: usize = self.traces.len();
        assert(self.traces@.take(i as int) == self.traces@);
        while i > 0
            invariant
                i <= self.traces@.len(),
                index_of(self.traces@, t) == index_of(self.traces@.take(i as int), t),
            decreases i,
        {
            assert(self.traces@.take(i as int).drop_last() == self.traces@.take(i - 1));
            if self.traces[i - 1] == t {
                return Some(i - 1);
            }
            i = i - 1;
        }
        None
    }

    /// Delivers the sub-messages of one transport message, each to the
    /// pending request whose trace it carries, in order.
    pub fn deliver(&mut self, msgs: Vec<(u64, Payload)>) -> (r: Result<(), DeliveryError>)
        requires
            old(self).wf(),
        ensures
            final(self).wf(),
            final(self).traces() == old(self).traces(),
            final(self).next() == old(self).next(),
            match deliver_all(old(self).traces(), old(self).states(), msgs@) {
                Ok(s) => r is Ok && final(self).states() == s,
                Err(e) => r == Err::<(), DeliveryError>(e),
            },
    {
        let ghost orig = msgs@;
        let ghost start = self.states();
        let mut rest = msgs;
        let n = rest.len();
        let mut k: usize = 0;
        while rest.len() > 0
            invariant
                self.wf(),
                self.traces() == old(self).traces(),
                self.next() == old(self).next(),
                start == old(self).states(),
                orig == msgs@,
                orig.len() == n,
                k + rest@.len() == n,
                rest@ == orig.subrange(k as int, n as int),
                deliver_all(self.traces(), start, orig.take(k as int)) == Ok::<
                    Seq<AssemblyState>,
                    DeliveryError,
                >(self.states()),
            decreases rest@.len(),
        {
            let m = rest.remove(0);
            assert(m == orig[k as int]);
            assert(orig.take(k + 1).drop_last() == orig.take(k as int));
            assert(orig.take(k + 1).last() == m);
            let ghost gm = m;
            let (t, p) = m;
            assert(gm.0 == t && gm.1 == p);
            let i = match self.find(t) {
                Some(i) => i,
                None => {
                    proof {
                        assert(deliver_step(self.traces(), self.states(), gm) is Err);
                        assert(deliver_all(self.traces(), start, orig.take(k + 1)) is Err);
                        lemma_delivery_failure_stays(self.traces(), start, orig, k as int + 1);
                    }
                    return Err(DeliveryError::UnknownTrace(t));
                },
            };
            assert(self.states()[i as int] == self.collectors@[i as int].view());
            if self.collectors[i].is_complete() {
                proof {
                    assert(self.states()[i as int].complete);
                    assert(deliver_step(self.traces(), self.states(), gm) is Err);
                    lemma_delivery_failure_stays(self.traces(), start, orig, k as int + 1);
                }
                return Err(DeliveryError::AfterComplete(t));
            }
            let mut single: Vec<Payload> = Vec::new();
            single.push(p);
            let ghost before = self.collectors@;
            let ghost s0 = self.collectors@[i as int].view();
            let outcome = self.collectors[i].absorb(single);
            proof {
                assert(single@.drop_last() =~= Seq::<Payload>::empty());
                assert(assemble_all(s0, single@.drop_last()) == Ok::<AssemblyState, RelayError>(s0));
            }
            match outcome {
                Ok(()) => {
                    proof {
                        assert(self.states() =~= before.map_values(|c: ReplyAssembler| c.view()).update(
                            i as int,
                            self.collectors@[i as int].view(),
                        ));
                    }
                },
                Err(e) => {
                    proof {
                        lemma_delivery_failure_stays(self.traces(), start, orig, k as int + 1);
                    }
                    return Err(DeliveryError::Failed(t, e));
                },
            }
            k = k + 1;
        }
        assert(orig.take(n as int) == orig);
        Ok(())
    }

    /// The replies collected so far for the request with trace `t`.
    pub fn replies_of(&self, t: u64) -> (r: Option<&Vec<crate::json_value::Json>>)
        requires
            self.wf(),
        ensures
            match index_of(self.traces(), t) {
                Some(i) => r is Some && r->Some_0@ == self.states()[i].replies,
                None => r is None,
            },
    {
        match self.find(t) {
            Some(i) => {
                assert(self.states()[i as int] == self.collectors@[i as int].view());
                Some(self.collectors[i].replies())
            },
            None => None,
        }
    }
}

proof fn lemma_delivery_failure_stays(
    traces: Seq<u64>,
    states: Seq<AssemblyState>,
    msgs: Seq<(u64, Payload)>,
    k: int,
)
    requires
        0 <= k <= msgs.len(),
        deliver_all(traces, states, msgs.take(k)) is Err,
    ensures
        deliver_all(traces, states, msgs) == deliver_all(traces, states, msgs.take(k)),
    decreases msgs.len() - k,
{
    if k < msgs.len() {
        assert(msgs.take(k + 1).drop_last() == msgs.take(k));
        lemma_delivery_failure_stays(traces, states, msgs, k + 1);
    } else {
        assert(msgs.take(k) == msgs);
    }
}

/// Demultiplexing loses, duplicates and reorders nothing: where delivery
/// succeeds, each pending request ends in the state that its own
/// messages, taken alone and in order, lead to.
pub proof fn lemma_demux_routes_by_trace(
    traces: Seq<u64>,
    states: Seq<AssemblyState>,
    msgs: Seq<(u64, Payload)>,
    i: int,
)
    requires
        0 <= i < traces.len(),
        traces.len() == states.len(),
        index_of(traces, traces[i]) == Some(i),
        deliver_all(traces, states, msgs) is Ok,
    ensures
        deliver_all(traces, states, msgs)->Ok_0.len() == states.len(),
        Ok::<AssemblyState, RelayError>(deliver_all(traces, states, msgs)->Ok_0[i]) == assemble_all(
            states[i],
            payloads_for(msgs, traces[i]),
        ),
    decreases msgs.len(),
{
    if msgs.len() > 0 {
        let init = msgs.drop_last();
        let m = msgs.last();
        assert(deliver_all(traces, states, init) is Ok);
        lemma_demux_routes_by_trace(traces, states, init, i);
        let before = deliver_all(traces, states, init)->Ok_0;
        let ps = payloads_for(msgs, traces[i]);
        lemma_index_below(traces, m.0);
        if m.0 == traces[i] {
            assert(ps.drop_last() == payloads_for(init, traces[i]));
            assert(ps.last() == m.1);
        } else {
            lemma_index_differs(traces, m.0, i);
        }
    }
}

proof fn lemma_index_differs(traces: Seq<u64>, t: u64, i: int)
    requires
        0 <= i < traces.len(),
        t != traces[i],
    ensures
        index_of(traces, t) != Some(i),
{
    lemma_index_below(traces, t);
}

proof fn lemma_index_below(traces: Seq<u64>, t: u64)
    ensures
        index_of(traces, t) matches Some(j) ==> 0 <= j < traces.len() && traces[j] == t,
    decreases traces.len(),
{
    if traces.len() > 0 {
        lemma_index_below(traces.drop_last(), t);
    }
}

} // verus!
