use vstd::prelude::*;
use vstd::string::*;
use std::collections::VecDeque;
use crate::json_value::{Json, agrees_except, field, str_field, json_text_value, parse_json};
use crate::message::{MessageStatus, MessageType, status_code};
use crate::text::{same_text, utf8};

verus! {

/// Connections beyond this many are closed at once.
pub const MAX_WS_CLIENTS: usize = 256;

/// Longest accepted thread token, in bytes.
pub const MAX_THREAD_SIZE: usize = 256;

/// Text frames of this many bytes or more are dropped.
pub const MAX_MESSAGE_SIZE: usize = 10485760;

/// Default bound on requests relayed and not yet answered.
pub const MAX_ACTIVE_REQUESTS: usize = 8;

/// Text frames are dropped while this many wait.
pub const MAX_BACKLOG_SIZE: usize = 1000;

/// Ingress tag that relayed messages carry.
pub const WEBSOCKET_INGRESS: &'static str = "ws-translator-v3";

/// The peer cached for a thread: the last entry for it.
pub open spec fn lookup(ss: Seq<(Seq<char>, Seq<char>)>, k: Seq<char>) -> Option<Seq<char>>
    decreases ss.len(),
{
    if ss.len() == 0 {
        None
    } else if ss.last().0 == k {
        Some(ss.last().1)
    } else {
        lookup(ss.drop_last(), k)
    }
}

/// The entries whose thread is not `k`, in order.
pub open spec fn without(ss: Seq<(Seq<char>, Seq<char>)>, k: Seq<char>) -> Seq<(Seq<char>, Seq<char>)>
    decreases ss.len(),
{
    if ss.len() == 0 {
        ss
    } else if ss.last().0 == k {
        without(ss.drop_last(), k)
    } else {
        without(ss.drop_last(), k).push(ss.last())
    }
}

proof fn lemma_without(ss: Seq<(Seq<char>, Seq<char>)>, k: Seq<char>, k2: Seq<char>)
    ensures
        lookup(without(ss, k), k) is None,
        k2 != k ==> lookup(without(ss, k), k2) == lookup(ss, k2),
    decreases ss.len(),
{
    if ss.len() > 0 {
        lemma_without(ss.drop_last(), k, k2);
        let w = without(ss.drop_last(), k);
        if ss.last().0 != k {
            assert(w.push(ss.last()).drop_last() == w);
        }
    }
}

pub open spec fn entries_view(v: Seq<(String, String)>) -> Seq<(Seq<char>, Seq<char>)> {
    v.map_values(|p: (String, String)| (p.0@, p.1@))
}

pub open spec fn queue_view(v: Seq<String>) -> Seq<Seq<char>> {
    v.map_values(|s: String| s@)
}

/// The routing of one relayed frame.
#[derive(Debug)]
pub struct RelayPlan {
    pub thread: String,
    /// Final address of the messages.
    pub recipient: String,
    /// Router queue to post to, where the thread has no cached peer.
    pub router: Option<String>,
    pub log_xid: Option<String>,
    /// The frame's messages, in order.
    pub messages: Vec<Json>,
}

#[derive(Clone, Copy, Debug, PartialEq, Eq, Structural)]
pub enum WsError {
    BadJson,
    NoThread,
    ThreadTooLong,
    NoService,
    BadMessage,
    NoPayload,
    UnexpectedType,
    /// The frame holds no message.
    NoMessages,
}

/// What became of an inbound text frame.
#[derive(Clone, Copy, Debug, PartialEq, Eq, Structural)]
pub enum TextOutcome {
    Queued,
    TooLarge,
    BacklogFull,
}

/// A frame read from the client's socket.
#[derive(Debug)]
pub enum Frame {
    Text(String),
    Binary(Vec<u8>),
    Ping(Vec<u8>),
    Pong(Vec<u8>),
    Close,
}

/// What the session does with an inbound frame.
#[derive(Debug)]
pub enum FrameAction {
    /// A text frame went to the backlog, or was dropped.
    Text(TextOutcome),
    /// Answer with a pong that carries the ping's data.
    Pong(Vec<u8>),
    /// The client closes the session.
    Close,
    /// Frames of other kinds are ignored.
    Ignore,
}

/// A new connection is served while fewer than `max_clients` sessions run
/// or wait; otherwise it is closed at once.
pub fn admits_client(sessions: usize, max_clients: usize) -> (r: bool)
    ensures
        r == (sessions < max_clients),
{
    sessions < max_clients
}

/// A message kind from its wire name.
pub open spec fn type_named(t: Seq<char>) -> Option<MessageType> {
    if t == "CONNECT"@ {
        Some(MessageType::Connect)
    } else if t == "REQUEST"@ {
        Some(MessageType::Request)
    } else if t == "RESULT"@ {
        Some(MessageType::Result)
    } else if t == "STATUS"@ {
        Some(MessageType::Status)
    } else if t == "DISCONNECT"@ {
        Some(MessageType::Disconnect)
    } else {
        None
    }
}

/// The kind of a message in its JSON form (`{"__p": {"type": ...}}`).
pub open spec fn msg_type(m: Json) -> Option<MessageType> {
    match field(m, "__p"@) {
        Some(p) => match str_field(p, "type"@) {
            Some(t) => type_named(t),
            None => None,
        },
        None => None,
    }
}

/// A message that carries a method call (`__p.payload.__p.method`).
pub open spec fn has_method(m: Json) -> bool {
    match field(m, "__p"@) {
        Some(p) => match field(p, "payload"@) {
            Some(pl) => match field(pl, "__p"@) {
                Some(mp) => str_field(mp, "method"@) is Some,
                None => false,
            },
            None => false,
        },
        None => false,
    }
}

/// What one message of a frame does: how many answers it awaits, whether
/// it ends the stateful session, or why it cannot be relayed.
pub open spec fn message_effect(m: Json) -> Result<(nat, bool), WsError> {
    match msg_type(m) {
        None => Err(WsError::BadMessage),
        Some(MessageType::Connect) => Ok((1, false)),
        Some(MessageType::Request) => if has_method(m) {
            Ok((1, false))
        } else {
            Err(WsError::NoPayload)
        },
        Some(MessageType::Disconnect) => Ok((0, true)),
        _ => Err(WsError::UnexpectedType),
    }
}

/// The messages of a frame together: answers awaited, whether one ends
/// the session; the first failure wins.
pub open spec fn frame_effect(ms: Seq<Json>) -> Result<(nat, bool), WsError>
    decreases ms.len(),
{
    if ms.len() == 0 {
        Ok((0, false))
    } else {
        match frame_effect(ms.drop_last()) {
            Err(e) => Err(e),
            Ok((n, d)) => match message_effect(ms.last()) {
                Err(e) => Err(e),
                Ok((n2, d2)) => Ok((n + n2, d || d2)),
            },
        }
    }
}

/// Position of the first null, or the length.
pub open spec fn first_null(xs: Seq<Json>) -> nat
    decreases xs.len(),
{
    if xs.len() == 0 {
        0
    } else if first_null(xs.drop_last()) < xs.len() - 1 {
        first_null(xs.drop_last())
    } else if xs.last() is Null {
        (xs.len() - 1) as nat
    } else {
        xs.len()
    }
}

/// The messages a frame's `osrf_msg` holds: a list, or one message taken
/// as a list of one; a null ends the list.
pub open spec fn frame_messages(list: Json) -> Seq<Json> {
    let xs = match list {
        Json::Array(xs) => xs@,
        other => seq![other],
    };
    xs.take(first_null(xs) as int)
}

pub open spec fn sat_add(a: nat, b: nat) -> nat {
    if a + b > usize::MAX {
        usize::MAX as nat
    } else {
        a + b
    }
}

/// The session's state as the policy sees it.
pub struct WsView {
    pub in_flight: nat,
    pub max_parallel: nat,
    pub queue: Seq<Seq<char>>,
    pub peers: Seq<(Seq<char>, Seq<char>)>,
}

/// State of one WebSocket client session.
pub struct WsSession {
    reqs_in_flight: usize,
    max_parallel: usize,
    request_queue: VecDeque<String>,
    osrf_sessions: Vec<(String, String)>,
}

/// The outcome of relaying frame `text` from state `s`.
pub open spec fn relay_outcome(s: WsView, text: Seq<char>, domain: Seq<char>) -> Result<
    (WsView, Seq<char>, Option<Seq<char>>),
    WsError,
> {
    match json_text_value(text) {
        None => Err(WsError::BadJson),
        Some(v) => match str_field(v, "thread"@) {
            None => Err(WsError::NoThread),
            Some(t) => if utf8(t).len() > MAX_THREAD_SIZE {
                Err(WsError::ThreadTooLong)
            } else {
                match str_field(v, "service"@) {
                    None => Err(WsError::NoService),
                    Some(svc) => {
                        let list = match field(v, "osrf_msg"@) {
                            Some(l) => l,
                            None => Json::Null,
                        };
                        if frame_messages(list).len() == 0 {
                            Err(WsError::NoMessages)
                        } else {
                        match frame_effect(frame_messages(list)) {
                            Err(e) => Err(e),
                            Ok((n, d)) => {
                                let next = WsView {
                                    in_flight: sat_add(s.in_flight, n),
                                    peers: if d {
                                        without(s.peers, t)
                                    } else {
                                        s.peers
                                    },
                                    ..s
                                };
                                match lookup(s.peers, t) {
                                    Some(peer) => Ok((next, peer, None)),
                                    None => Ok(
                                        (
                                            next,
                                            "opensrf:service:"@ + svc,
                                            Some("opensrf:router:"@ + domain),
                                        ),
                                    ),
                                }
                            },
                        }
                        }
                    },
                }
            },
        },
    }
}

/// The effect of one reply status on the in-flight count, the thread's
/// cached peer, and the transport-error flag.
pub open spec fn reply_step(
    n: nat,
    peer: Option<Seq<char>>,
    err: bool,
    st: Option<MessageStatus>,
    from: Seq<char>,
) -> (nat, Option<Seq<char>>, bool) {
    let dec = if n > 0 { (n - 1) as nat } else { 0 };
    match st {
        Some(MessageStatus::Okay) => (dec, Some(from), err),
        Some(MessageStatus::Complete) => (dec, peer, err),
        Some(s) => if status_code(s) >= 400 {
            (dec, None, true)
        } else {
            (n, peer, err)
        },
        None => (n, peer, err),
    }
}

pub open spec fn reply_effect(
    n: nat,
    peer: Option<Seq<char>>,
    sts: Seq<Option<MessageStatus>>,
    from: Seq<char>,
) -> (nat, Option<Seq<char>>, bool)
    decreases sts.len(),
{
    if sts.len() == 0 {
        (n, peer, false)
    } else {
        let (n1, p1, e1) = reply_effect(n, peer, sts.drop_last(), from);
        reply_step(n1, p1, e1, sts.last(), from)
    }
}

/// A message of a reply: its status, where it is a `Status` message, and
/// its JSON form.
#[derive(Debug)]
pub struct ReplyMessage {
    pub status: Option<MessageStatus>,
    pub json: Json,
}

/// A transport message that arrived for the session's client.
#[derive(Debug)]
pub struct TransportReply {
    pub from: String,
    pub thread: String,
    pub osrf_xid: String,
    pub body: Vec<ReplyMessage>,
}

pub open spec fn reply_statuses(body: Seq<ReplyMessage>) -> Seq<Option<MessageStatus>> {
    body.map_values(|m: ReplyMessage| m.status)
}

impl WsSession {
    pub closed spec fn view(&self) -> WsView {
        WsView {
            in_flight: self.reqs_in_flight as nat,
            max_parallel: self.max_parallel as nat,
            queue: queue_view(self.request_queue@),
            peers: entries_view(self.osrf_sessions@),
        }
    }

    /// The peer cached for `thread`.
    pub open spec fn peer_of(&self, thread: Seq<char>) -> Option<Seq<char>> {
        lookup(self.view().peers, thread)
    }

    pub fn new(max_parallel: usize) -> (r: WsSession)
        ensures
            r.view() == (WsView {
                in_flight: 0,
                max_parallel: max_parallel as nat,
                queue: Seq::empty(),
                peers: Seq::empty(),
            }),
    {
        let r = WsSession {
            reqs_in_flight: 0,
            max_parallel,
            request_queue: VecDeque::new(),
            osrf_sessions: Vec::new(),
        };
        proof {
            assert(queue_view(r.request_queue@) =~= Seq::empty());
            assert(entries_view(r.osrf_sessions@) =~= Seq::empty());
        }
        r
    }

    pub fn reqs_in_flight(&self) -> (r: usize)
        ensures
            r == self.view().in_flight,
    {
        self.reqs_in_flight
    }

    pub fn queue_len(&self) -> (r: usize)
        ensures
            r == self.view().queue.len(),
    {
        self.request_queue.len()
    }

    /// A text frame joins the backlog unless it is too large or the
    /// backlog is full; either way the connection stays open.
    pub fn handle_text(&mut self, text: String) -> (r: TextOutcome)
        ensures
            utf8(text@).len() >= MAX_MESSAGE_SIZE ==> r == TextOutcome::TooLarge
                && final(self).view() == old(self).view(),
            utf8(text@).len() < MAX_MESSAGE_SIZE && old(self).view().queue.len()
                >= MAX_BACKLOG_SIZE ==> r == TextOutcome::BacklogFull && final(self).view()
                == old(self).view(),
            utf8(text@).len() < MAX_MESSAGE_SIZE && old(self).view().queue.len()
                < MAX_BACKLOG_SIZE ==> r == TextOutcome::Queued && final(self).view() == (WsView {
                queue: old(self).view().queue.push(text@),
                ..old(self).view()
            }),
    {
        if text.as_str().as_bytes().len() >= MAX_MESSAGE_SIZE {
            return TextOutcome::TooLarge;
        }
        if self.request_queue.len() >= MAX_BACKLOG_SIZE {
            return TextOutcome::BacklogFull;
        }
        let ghost before = self.request_queue@;
        self.request_queue.push_back(text);
        proof {
            assert(queue_view(self.request_queue@) =~= queue_view(before).push(text@));
        }
        TextOutcome::Queued
    }

    /// Text frames go to the backlog, a ping is answered with a pong, a
    /// close ends the session, and other frames are ignored.
    pub fn handle_frame(&mut self, frame: Frame) -> (r: FrameAction)
        ensures
            match frame {
                Frame::Text(t) => r is Text && (utf8(t@).len() >= MAX_MESSAGE_SIZE ==> r->Text_0
                    == TextOutcome::TooLarge) && (utf8(t@).len() < MAX_MESSAGE_SIZE
                    && old(self).view().queue.len() >= MAX_BACKLOG_SIZE ==> r->Text_0
                    == TextOutcome::BacklogFull) && (utf8(t@).len() < MAX_MESSAGE_SIZE
                    && old(self).view().queue.len() < MAX_BACKLOG_SIZE ==> r->Text_0
                    == TextOutcome::Queued && final(self).view() == (WsView {
                    queue: old(self).view().queue.push(t@),
                    ..old(self).view()
                })) && (r->Text_0 != TextOutcome::Queued ==> final(self).view() == old(
                    self,
                ).view()),
                Frame::Ping(d) => r == FrameAction::Pong(d) && final(self).view() == old(self).view(),
                Frame::Close => r is Close && final(self).view() == old(self).view(),
                _ => r is Ignore && final(self).view() == old(self).view(),
            },
    {
        match frame {
            Frame::Text(t) => FrameAction::Text(self.handle_text(t)),
            Frame::Ping(d) => FrameAction::Pong(d),
            Frame::Close => FrameAction::Close,
            _ => FrameAction::Ignore,
        }
    }

    fn forget_peer(&mut self, thread: &str)
        ensures
            final(self).view() == (WsView {
                peers: without(old(self).view().peers, thread@),
                ..old(self).view()
            }),
    {
        let ghost ss = entries_view(self.osrf_sessions@);
        let mut kept: Vec<(String, String)> = Vec::new();
        let mut i: usize = 0;
        while i < self.osrf_sessions.len()
            invariant
                i <= self.osrf_sessions@.len(),
                ss == entries_view(self.osrf_sessions@),
                entries_view(kept@) == without(ss.take(i as int), thread@),
            decreases self.osrf_sessions@.len() - i,
        {
            assert(ss.take(i + 1).drop_last() == ss.take(i as int));
            let entry = &self.osrf_sessions[i];
            if !same_text(entry.0.as_str(), thread) {
                let ghost prev = kept@;
                kept.push((entry.0.clone(), entry.1.clone()));
                proof {
                    assert(entries_view(kept@) =~= entries_view(prev).push(ss[i as int]));
                }
            }
            i = i + 1;
        }
        assert(ss.take(ss.len() as int) == ss);
        self.osrf_sessions = kept;
    }

    fn remember_peer(&mut self, thread: &str, peer: &str)
        ensures
            final(self).view() == (WsView {
                peers: without(old(self).view().peers, thread@).push((thread@, peer@)),
                ..old(self).view()
            }),
    {
        self.forget_peer(thread);
        let ghost before = self.osrf_sessions@;
        self.osrf_sessions.push((thread.to_owned(), peer.to_owned()));
        proof {
            assert(entries_view(self.osrf_sessions@) =~= entries_view(before).push(
                (thread@, peer@),
            ));
        }
    }

    /// Routes one text frame: checks its envelope and messages, counts the
    /// requests it opens, drops the cached peer on `Disconnect`, and sends
    /// it to the cached peer of its thread or else through the router.
    pub fn plan_relay(&mut self, text: &str, domain: &str) -> (r: Result<RelayPlan, WsError>)
        ensures
            match relay_outcome(old(self).view(), text@, domain@) {
                Err(e) => r == Err::<RelayPlan, WsError>(e) && final(self).view() == old(self).view(),
                Ok((next, recipient, router)) => {
                    &&& r is Ok
                    &&& final(self).view() == next
                    &&& r->Ok_0.recipient@ == recipient
                    &&& match router {
                        Some(q) => r->Ok_0.router is Some && r->Ok_0.router->Some_0@ == q,
                        None => r->Ok_0.router is None,
                    }
                    &&& r->Ok_0.thread@ == str_field(json_text_value(text@)->Some_0, "thread"@)->Some_0
                    &&& match str_field(json_text_value(text@)->Some_0, "log_xid"@) {
                        Some(x) => r->Ok_0.log_xid is Some && r->Ok_0.log_xid->Some_0@ == x,
                        None => r->Ok_0.log_xid is None,
                    }
                    &&& ({
                        let ms = frame_messages(
                            match field(json_text_value(text@)->Some_0, "osrf_msg"@) {
                                Some(l) => l,
                                None => Json::Null,
                            },
                        );
                        &&& r->Ok_0.messages@.len() == ms.len()
                        &&& forall|i: int|
                            0 <= i < ms.len() ==> tagged(#[trigger] r->Ok_0.messages@[i], ms[i])
                    })
                },
            },
    {
        let wrapper = match parse_json(text) {
            Some(v) => v,
            None => {
                return Err(WsError::BadJson);
            },
        };
        let thread = match wrapper.get("thread") {
            Some(Json::Str(t)) => t.clone(),
            _ => {
                return Err(WsError::NoThread);
            },
        };
        if thread.as_str().as_bytes().len() > MAX_THREAD_SIZE {
            return Err(WsError::ThreadTooLong);
        }
        let service = match wrapper.get("service") {
            Some(Json::Str(s)) => s.clone(),
            _ => {
                return Err(WsError::NoService);
            },
        };
        let log_xid = match wrapper.get("log_xid") {
            Some(Json::Str(x)) => Some(x.clone()),
            _ => None,
        };
        let list = match wrapper.into_field("osrf_msg") {
            Some(l) => l,
            None => Json::Null,
        };
        let messages = take_messages(list);
        if messages.len() == 0 {
            return Err(WsError::NoMessages);
        }
        let (count, disconnect) = match check_messages(&messages) {
            Ok(e) => e,
            Err(e) => {
                return Err(e);
            },
        };
        proof {
            lemma_frame_types(messages@);
        }
        let messages = tag_all(messages);
        let (recipient, router) = match self.find_peer(thread.as_str()) {
            Some(peer) => (peer, None),
            None => (
                String::from_str("opensrf:service:").concat(service.as_str()),
                Some(String::from_str("opensrf:router:").concat(domain)),
            ),
        };
        self.reqs_in_flight = if count > usize::MAX - self.reqs_in_flight {
            usize::MAX
        } else {
            self.reqs_in_flight + count
        };
        if disconnect {
            self.forget_peer(thread.as_str());
        }
        Ok(RelayPlan { thread, recipient, router, log_xid, messages })
    }

    fn find_peer(&self, thread: &str) -> (r: Option<String>)
        ensures
            match self.peer_of(thread@) {
                Some(p) => r is Some && r->Some_0@ == p,
                None => r is None,
            },
    {
        let ghost ss = entries_view(self.osrf_sessions@);
        let mut i: usize = self.osrf_sessions.len();
        assert(ss.take(ss.len() as int) == ss);
        while i > 0
            invariant
                i <= self.osrf_sessions@.len(),
                ss == entries_view(self.osrf_sessions@),
                lookup(ss, thread@) == lookup(ss.take(i as int), thread@),
            decreases i,
        {
            assert(ss.take(i as int).drop_last() == ss.take(i - 1));
            let entry = &self.osrf_sessions[i - 1];
            if same_text(entry.0.as_str(), thread) {
                return Some(entry.1.clone());
            }
            i = i - 1;
        }
        None
    }

    /// Routes backlog frames, oldest first, while fewer requests than
    /// allowed await an answer. Stops at the first frame that cannot be
    /// routed, which is taken off the backlog and reported.
    pub fn drain_backlog(&mut self, domain: &str) -> (r: (Vec<RelayPlan>, Option<WsError>))
        ensures
            ({
                let k = r.0@.len() + if r.1 is Some { 1int } else { 0int };
                &&& k <= old(self).view().queue.len()
                &&& final(self).view().queue == old(self).view().queue.subrange(
                    k,
                    old(self).view().queue.len() as int,
                )
                &&& final(self).view().max_parallel == old(self).view().max_parallel
                &&& r.1 is None ==> final(self).view().queue.len() == 0 || final(self).view().in_flight
                    >= final(self).view().max_parallel
                &&& old(self).view().in_flight >= old(self).view().max_parallel ==> r.0@.len() == 0
                    && r.1 is None && final(self).view() == old(self).view()
            }),
    {
        let ghost q = self.view().queue;
        let mut plans: Vec<RelayPlan> = Vec::new();
        while self.reqs_in_flight < self.max_parallel && self.request_queue.len() > 0
            invariant
                plans@.len() <= q.len(),
                self.view().queue == q.subrange(plans@.len() as int, q.len() as int),
                self.view().max_parallel == old(self).view().max_parallel,
                q == old(self).view().queue,
                plans@.len() > 0 || self.view() == old(self).view(),
                old(self).view().in_flight < old(self).view().max_parallel || (plans@.len() == 0
                    && self.view() == old(self).view()),
            decreases self.view().queue.len(),
        {
            let ghost before = self.view();
            let ghost p0 = plans@.len() as int;
            let text = self.next_frame().unwrap();
            assert(self.view().queue == q.subrange(p0 + 1, q.len() as int));
            match self.plan_relay(text.as_str(), domain) {
                Ok(p) => plans.push(p),
                Err(e) => {
                    assert(self.view().queue == q.subrange(p0 + 1, q.len() as int));
                    return (plans, Some(e));
                },
            }
        }
        assert(self.view().queue.len() == self.request_queue@.len());
        assert(self.view().in_flight == self.reqs_in_flight as nat);
        (plans, None)
    }

    /// The next backlog frame, where fewer requests than allowed await an
    /// answer.
    pub fn next_frame(&mut self) -> (r: Option<String>)
        ensures
            old(self).view().in_flight < old(self).view().max_parallel && old(self).view().queue.len()
                > 0 ==> {
                &&& r is Some
                &&& r->Some_0@ == old(self).view().queue[0]
                &&& final(self).view() == (WsView {
                    queue: old(self).view().queue.drop_first(),
                    ..old(self).view()
                })
            },
            !(old(self).view().in_flight < old(self).view().max_parallel && old(self).view().queue.len()
                > 0) ==> r is None && final(self).view() == old(self).view(),
    {
        if self.reqs_in_flight >= self.max_parallel || self.request_queue.len() == 0 {
            return None;
        }
        let ghost before = self.request_queue@;
        let text = self.request_queue.pop_front().unwrap();
        proof {
            assert(queue_view(self.request_queue@) =~= queue_view(before).drop_first());
        }
        Some(text)
    }

    /// Accounts for a reply and builds the frame that goes to the client:
    /// `Ok` caches the sender as the thread's peer, failure statuses evict
    /// it and mark the frame as a transport error; `Ok`, `Complete` and
    /// failures each end one awaited answer.
    pub fn relay_reply(&mut self, reply: TransportReply) -> (r: Json)
        ensures
            ({
                let (n, peer, err) = reply_effect(
                    old(self).view().in_flight,
                    old(self).peer_of(reply.thread@),
                    reply_statuses(reply.body@),
                    reply.from@,
                );
                &&& final(self).view().in_flight == n
                &&& final(self).view().max_parallel == old(self).view().max_parallel
                &&& final(self).view().queue == old(self).view().queue
                &&& final(self).peer_of(reply.thread@) == peer
                &&& forall|t: Seq<char>| t != reply.thread@ ==> final(self).peer_of(t) == old(self).peer_of(t)
                &&& r is Object
                &&& r->Object_0@.len() == if err { 4int } else { 3int }
                &&& r->Object_0@[0].0@ == "oxrf_xid"@
                &&& r->Object_0@[0].1 == Json::Str(reply.osrf_xid)
                &&& r->Object_0@[1].0@ == "thread"@
                &&& r->Object_0@[1].1 is Str && r->Object_0@[1].1->Str_0@ == reply.thread@
                &&& r->Object_0@[2].0@ == "osrf_msg"@
                &&& r->Object_0@[2].1 is Array
                &&& r->Object_0@[2].1->Array_0@ == reply.body@.map_values(|m: ReplyMessage| m.json)
                &&& err ==> r->Object_0@[3].0@ == "transport_error"@ && r->Object_0@[3].1 == Json::Bool(true)
            }),
    {
        let TransportReply { from, thread, osrf_xid, body } = reply;
        let ghost sts = reply_statuses(body@);
        let ghost jsons = body@.map_values(|m: ReplyMessage| m.json);
        let ghost start = self.view();
        let ghost start_peer = self.peer_of(thread@);
        let mut body = body;
        let mut out: Vec<Json> = Vec::new();
        let mut transport_error = false;
        let n = body.len();
        let mut i: usize = 0;
        while body.len() > 0
            invariant
                i + body@.len() == n,
                sts.len() == n,
                jsons.len() == n,
                forall|j: int| 0 <= j < body@.len() ==> #[trigger] body@[j].status == sts[i + j],
                forall|j: int| 0 <= j < body@.len() ==> #[trigger] body@[j].json == jsons[i + j],
                out@ == jsons.take(i as int),
                ({
                    let (n1, p1, e1) = reply_effect(start.in_flight, start_peer, sts.take(i as int), from@);
                    &&& self.view().in_flight == n1
                    &&& self.peer_of(thread@) == p1
                    &&& transport_error == e1
                }),
                self.view().max_parallel == start.max_parallel,
                self.view().queue == start.queue,
                forall|t: Seq<char>| t != thread@ ==> lookup(self.view().peers, t) == lookup(start.peers, t),
            decreases body@.len(),
        {
            assert(sts.take(i + 1).drop_last() == sts.take(i as int));
            assert(jsons.take(i + 1) == jsons.take(i as int).push(jsons[i as int]));
            let m = body.remove(0);
            assert(m.status == sts[i as int]);
            let dec = if self.reqs_in_flight > 0 {
                self.reqs_in_flight - 1
            } else {
                0
            };
            match m.status {
                Some(MessageStatus::Okay) => {
                    self.reqs_in_flight = dec;
                    let ghost before = self.view().peers;
                    self.remember_peer(thread.as_str(), from.as_str());
                    proof {
                        let w = without(before, thread@);
                        assert(self.view().peers.drop_last() == w);
                        assert forall|t: Seq<char>| t != thread@ implies lookup(self.view().peers, t)
                            == lookup(before, t) by {
                            lemma_without(before, thread@, t);
                        }
                    }
                },
                Some(MessageStatus::Complete) => {
                    self.reqs_in_flight = dec;
                },
                Some(s) => {
                    if s.is_error() {
                        self.reqs_in_flight = dec;
                        transport_error = true;
                        let ghost before = self.view().peers;
                        self.forget_peer(thread.as_str());
                        proof {
                            lemma_without(before, thread@, thread@);
                            assert forall|t: Seq<char>| t != thread@ implies lookup(
                                self.view().peers,
                                t,
                            ) == lookup(before, t) by {
                                lemma_without(before, thread@, t);
                            }
                        }
                    }
                },
                None => {},
            }
            out.push(m.json);
            i = i + 1;
        }
        assert(sts.take(n as int) == sts);
        assert(jsons.take(n as int) == jsons);
        let mut members: Vec<(String, Json)> = Vec::new();
        members.push((String::from_str("oxrf_xid"), Json::Str(osrf_xid)));
        members.push((String::from_str("thread"), Json::Str(thread)));
        members.push((String::from_str("osrf_msg"), Json::Array(out)));
        if transport_error {
            members.push((String::from_str("transport_error"), Json::Bool(true)));
        }
        Json::Object(members)
    }
}

/// How many answers a frame awaits: its `Connect` and `Request` messages.
pub open spec fn frame_answers(text: Seq<char>) -> nat {
    match json_text_value(text) {
        Some(v) => {
            let list = match field(v, "osrf_msg"@) {
                Some(l) => l,
                None => Json::Null,
            };
            match frame_effect(frame_messages(list)) {
                Ok((n, _)) => n,
                Err(_) => 0,
            }
        },
        None => 0,
    }
}

/// The session hands out a backlog frame only while fewer requests than
/// allowed await an answer, so relaying a frame that awaits at most one
/// answer keeps the count within the bound; replies never raise it.
pub proof fn lemma_in_flight_bounded(
    s: WsView,
    text: Seq<char>,
    domain: Seq<char>,
    sts: Seq<Option<MessageStatus>>,
    peer: Option<Seq<char>>,
    from: Seq<char>,
)
    requires
        s.in_flight < s.max_parallel,
        s.max_parallel <= usize::MAX,
        frame_answers(text) <= 1,
    ensures
        relay_outcome(s, text, domain) is Ok ==> relay_outcome(s, text, domain)->Ok_0.0.in_flight
            <= s.max_parallel,
        relay_outcome(s, text, domain) is Err ==> s.in_flight <= s.max_parallel,
        reply_effect(s.in_flight, peer, sts, from).0 <= s.in_flight,
{
    lemma_replies_never_raise(s.in_flight, peer, sts, from);
}

proof fn lemma_replies_never_raise(
    n: nat,
    peer: Option<Seq<char>>,
    sts: Seq<Option<MessageStatus>>,
    from: Seq<char>,
)
    ensures
        reply_effect(n, peer, sts, from).0 <= n,
    decreases sts.len(),
{
    if sts.len() > 0 {
        lemma_replies_never_raise(n, peer, sts.drop_last(), from);
    }
}

/// A message whose `__p` object carries the ingress tag and is otherwise
/// unchanged.
pub open spec fn tagged(r: Json, m: Json) -> bool {
    &&& agrees_except(r, m, "__p"@)
    &&& match (field(r, "__p"@), field(m, "__p"@)) {
        (Some(rp), Some(mp)) => agrees_except(rp, mp, "ingress"@) && str_field(rp, "ingress"@)
            == Some(WEBSOCKET_INGRESS@),
        _ => false,
    }
}

proof fn lemma_frame_types(ms: Seq<Json>)
    requires
        frame_effect(ms) is Ok,
    ensures
        forall|i: int| 0 <= i < ms.len() ==> (#[trigger] msg_type(ms[i])) is Some,
    decreases ms.len(),
{
    if ms.len() > 0 {
        lemma_frame_types(ms.drop_last());
        assert forall|i: int| 0 <= i < ms.len() implies (#[trigger] msg_type(ms[i])) is Some by {
            if i < ms.len() - 1 {
                assert(ms[i] == ms.drop_last()[i]);
            }
        }
    }
}

/// Tags a message with the gateway's ingress.
fn tag_ingress(m: Json) -> (r: Json)
    requires
        msg_type(m) is Some,
    ensures
        tagged(r, m),
{
    let (rest, p) = m.replace_member("__p", Json::Null);
    let p = p.unwrap();
    let tag = Json::Str(String::from_str(WEBSOCKET_INGRESS));
    let (p2, _) = p.replace_member("ingress", tag);
    let (r, _) = rest.replace_member("__p", p2);
    r
}

fn tag_all(ms: Vec<Json>) -> (r: Vec<Json>)
    requires
        forall|i: int| 0 <= i < ms@.len() ==> (#[trigger] msg_type(ms@[i])) is Some,
    ensures
        r@.len() == ms@.len(),
        forall|i: int| 0 <= i < ms@.len() ==> tagged(#[trigger] r@[i], ms@[i]),
{
    let ghost orig = ms@;
    let mut rest = ms;
    let n = rest.len();
    let mut out: Vec<Json> = Vec::new();
    while rest.len() > 0
        invariant
            orig.len() == n,
            out@.len() + rest@.len() == n,
            rest@ == orig.subrange(out@.len() as int, n as int),
            forall|i: int| 0 <= i < orig.len() ==> (#[trigger] msg_type(orig[i])) is Some,
            forall|i: int| 0 <= i < out@.len() ==> tagged(#[trigger] out@[i], orig[i]),
        decreases rest@.len(),
    {
        let ghost k = out@.len() as int;
        let m = rest.remove(0);
        assert(m == orig[k]);
        let t = tag_ingress(m);
        out.push(t);
        assert(out@[k] == t);
    }
    out
}

/// The messages of a frame's `osrf_msg`: a list, or one message as a list
/// of one, up to the first null.
fn take_messages(list: Json) -> (r: Vec<Json>)
    ensures
        r@ == frame_messages(list),
{
    let ghost whole = list;
    let mut items: Vec<Json> = match list {
        Json::Array(xs) => xs,
        other => {
            let mut v: Vec<Json> = Vec::new();
            v.push(other);
            v
        },
    };
    let ghost xs = items@;
    assert(xs == match whole {
        Json::Array(v) => v@,
        other => seq![other],
    });
    let mut out: Vec<Json> = Vec::new();
    let n = items.len();
    let mut i: usize = 0;
    assert(xs.take(0) =~= Seq::<Json>::empty());
    while items.len() > 0
        invariant
            frame_messages(list) == xs.take(first_null(xs) as int),
            i + items@.len() == n,
            xs.len() == n,
            items@ == xs.subrange(i as int, n as int),
            out@ == xs.take(i as int),
            first_null(xs.take(i as int)) == i,
        decreases items@.len(),
    {
        let item = items.remove(0);
        assert(item == xs[i as int]);
        assert(xs.take(i + 1).drop_last() == xs.take(i as int));
        assert(xs.take(i + 1).last() == item);
        if item.is_null() {
            proof {
                lemma_first_null_stays(xs, i as int, i as int + 1);
            }
            return out;
        }
        out.push(item);
        assert(out@ == xs.take(i + 1));
        i = i + 1;
    }
    assert(xs.take(n as int) == xs);
    out
}

proof fn lemma_first_null_stays(xs: Seq<Json>, j: int, k: int)
    requires
        0 <= j < k <= xs.len(),
        first_null(xs.take(k)) == j,
    ensures
        first_null(xs) == j,
    decreases xs.len() - k,
{
    if k < xs.len() {
        assert(xs.take(k + 1).drop_last() == xs.take(k));
        assert(first_null(xs.take(k + 1)) == j);
        lemma_first_null_stays(xs, j, k + 1);
    } else {
        assert(xs.take(k) == xs);
    }
}

fn type_of(m: &Json) -> (r: Option<MessageType>)
    ensures
        r == msg_type(*m),
{
    let p = match m.get("__p") {
        Some(p) => p,
        None => {
            return None;
        },
    };
    let t = match p.get("type") {
        Some(Json::Str(t)) => t.as_str(),
        _ => {
            return None;
        },
    };
    if same_text(t, "CONNECT") {
        Some(MessageType::Connect)
    } else if same_text(t, "REQUEST") {
        Some(MessageType::Request)
    } else if same_text(t, "RESULT") {
        Some(MessageType::Result)
    } else if same_text(t, "STATUS") {
        Some(MessageType::Status)
    } else if same_text(t, "DISCONNECT") {
        Some(MessageType::Disconnect)
    } else {
        None
    }
}

fn carries_method(m: &Json) -> (r: bool)
    ensures
        r == has_method(*m),
{
    let p = match m.get("__p") {
        Some(p) => p,
        None => {
            return false;
        },
    };
    let pl = match p.get("payload") {
        Some(pl) => pl,
        None => {
            return false;
        },
    };
    let mp = match pl.get("__p") {
        Some(mp) => mp,
        None => {
            return false;
        },
    };
    match mp.get("method") {
        Some(Json::Str(_)) => true,
        _ => false,
    }
}

fn check_messages(ms: &Vec<Json>) -> (r: Result<(usize, bool), WsError>)
    ensures
        match frame_effect(ms@) {
            Err(e) => r == Err::<(usize, bool), WsError>(e),
            Ok((n, d)) => r is Ok && r->Ok_0.0 == n && r->Ok_0.1 == d,
        },
{
    let mut count: usize = 0;
    let mut disconnect = false;
    let mut i: usize = 0;
    while i < ms.len()
        invariant
            i <= ms@.len(),
            count <= i,
            frame_effect(ms@.take(i as int)) == Ok::<(nat, bool), WsError>((count as nat, disconnect)),
        decreases ms@.len() - i,
    {
        assert(ms@.take(i + 1).drop_last() == ms@.take(i as int));
        assert(ms@.take(i + 1).last() == ms@[i as int]);
        match type_of(&ms[i]) {
            None => {
                proof {
                    lemma_frame_failure_stays(ms@, i as int + 1);
                }
                return Err(WsError::BadMessage);
            },
            Some(MessageType::Connect) => {
                count = count + 1;
            },
            Some(MessageType::Request) => {
                if !carries_method(&ms[i]) {
                    proof {
                        lemma_frame_failure_stays(ms@, i as int + 1);
                    }
                    return Err(WsError::NoPayload);
                }
                count = count + 1;
            },
            Some(MessageType::Disconnect) => {
                disconnect = true;
            },
            _ => {
                proof {
                    lemma_frame_failure_stays(ms@, i as int + 1);
                }
                return Err(WsError::UnexpectedType);
            },
        }
        i = i + 1;
    }
    assert(ms@.take(ms@.len() as int) == ms@);
    Ok((count, disconnect))
}

proof fn lemma_frame_failure_stays(ms: Seq<Json>, k: int)
    requires
        0 <= k <= ms.len(),
        frame_effect(ms.take(k)) is Err,
    ensures
        frame_effect(ms) == frame_effect(ms.take(k)),
    decreases ms.len() - k,
{
    if k < ms.len() {
        assert(ms.take(k + 1).drop_last() == ms.take(k));
        lemma_frame_failure_stays(ms, k + 1);
    } else {
        assert(ms.take(k) == ms);
    }
}

} // verus!
