//! The core of a node: the handshake that opens a run, where each inbound
//! line goes, and when the application is given a tick.
//!
//! The program around the library reads the lines, keeps the clock and
//! writes what [`Node::take_output`] hands it. Each line goes to
//! [`Node::dispatch`]; after each line, and whenever the tick period passes
//! without one, [`Node::tick_if_due`] is called.
use crate::clock::{age, has_aged};
use crate::error::Error;
use crate::json::{json_document, Json, JsonView};
use crate::protocol::{
    envelope_of, ids_view, InitPayload, InitPayloadView, Message, MessageBodyView, MessageID,
    MessageView, NodeID, Payload,
};
use crate::writer::{MessageWriter, WriterView};
use std::collections::HashSet;
use vstd::prelude::*;

verus! {

/// The time between two ticks of an idle node, in milliseconds.
pub const TICK_PERIOD: u64 = 10;

/// An application that runs on a node.
///
/// The four relations say what each step does. An application states them
/// for itself; the runtime promises to take exactly these steps.
pub trait App: Sized {
    /// The payloads that the application handles.
    type Payload: Payload;

    /// What holds of the application between its steps.
    spec fn wf(&self) -> bool;

    /// Whether the application can run as `node_id` in the cluster
    /// `node_ids`.
    spec fn can_start(node_id: Seq<char>, node_ids: Seq<Seq<char>>) -> bool;

    /// Whether `app` is the application as it starts as `node_id` in the
    /// cluster `node_ids` at `now`.
    spec fn started(
        node_id: Seq<char>,
        node_ids: Seq<Seq<char>>,
        now: u64,
        app: Self,
    ) -> bool;

    /// Whether handling `message` at `now` takes the application from
    /// `pre` to `post` and its writer from `writer` to `after`, with
    /// `result`.
    spec fn handled(
        pre: Self,
        writer: WriterView,
        message: MessageView<<Self::Payload as View>::V>,
        now: u64,
        post: Self,
        after: WriterView,
        result: Result<(), Error>,
    ) -> bool;

    /// Whether a tick at `now` takes the application from `pre` to `post`
    /// and its writer from `writer` to `after`, with `result`.
    spec fn ticked(
        pre: Self,
        writer: WriterView,
        now: u64,
        post: Self,
        after: WriterView,
        result: Result<(), Error>,
    ) -> bool;

    /// Whether the answer `response` to an earlier
    /// [`MessageWriter::send_and_receive`] takes the application from `pre`
    /// to `post` and its writer from `writer` to `after`, with `result`.
    spec fn received(
        pre: Self,
        writer: WriterView,
        response: MessageView<JsonView>,
        now: u64,
        post: Self,
        after: WriterView,
        result: Result<(), Error>,
    ) -> bool;

    /// Whether the application can run as `node_id` in the cluster
    /// `node_ids`.
    fn check_start(node_id: &NodeID, node_ids: &Vec<NodeID>) -> (ok: bool)
        ensures
            ok == Self::can_start(node_id@, ids_view(node_ids@)),
    ;

    /// The application as it starts at `now`.
    fn new(node_id: NodeID, node_ids: Vec<NodeID>, now: u64) -> (app: Self)
        requires
            Self::can_start(node_id@, ids_view(node_ids@)),
        ensures
            app.wf(),
            Self::started(node_id@, ids_view(node_ids@), now, app),
    ;

    /// Handles an envelope that answers no call of the application.
    fn handle(
        &mut self,
        message: Message<Self::Payload>,
        writer: &mut MessageWriter,
        now: u64,
    ) -> (result: Result<(), Error>)
        requires
            old(self).wf(),
            old(writer)@.wf(),
        ensures
            final(self).wf(),
            final(writer)@.wf(),
            Self::handled(
                *old(self),
                old(writer)@,
                message@,
                now,
                *final(self),
                final(writer)@,
                result,
            ),
    ;

    /// Does what is due at `now`.
    fn tick(&mut self, writer: &mut MessageWriter, now: u64) -> (result: Result<(), Error>)
        requires
            old(self).wf(),
            old(writer)@.wf(),
        ensures
            final(self).wf(),
            final(writer)@.wf(),
            Self::ticked(*old(self), old(writer)@, now, *final(self), final(writer)@, result),
    ;

    /// Takes the answer to an earlier
    /// [`MessageWriter::send_and_receive`] of the application.
    fn receive(
        &mut self,
        response: Message<Json>,
        writer: &mut MessageWriter,
        now: u64,
    ) -> (result: Result<(), Error>)
        requires
            old(self).wf(),
            old(writer)@.wf(),
        ensures
            final(self).wf(),
            final(writer)@.wf(),
            Self::received(
                *old(self),
                old(writer)@,
                response@,
                now,
                *final(self),
                final(writer)@,
                result,
            ),
    ;
}

/// Where an inbound envelope went.
#[derive(Debug, PartialEq, Eq, Clone, Copy, Structural)]
pub enum Dispatch {
    /// It answered the call with this identifier and went to the caller.
    Response(MessageID),
    /// It went to the application's `handle`.
    Handled,
    /// Its payload is none of the application's; it was left aside.
    Ignored,
}

/// The identifiers of a list as a set of numbers.
pub open spec fn ids_set(ids: Seq<MessageID>) -> Set<u32> {
    Set::new(|id: u32| ids.contains(MessageID(id)))
}

/// What an inbound envelope is, seen from the table of outstanding calls.
pub enum Route {
    /// It answers the outstanding call with this identifier.
    Response(MessageID),
    /// It answers no outstanding call.
    Application,
}

/// Where an envelope with the given `in_reply_to` goes.
pub open spec fn route(outstanding: Set<u32>, in_reply_to: Option<MessageID>) -> Route {
    match in_reply_to {
        Some(id) => if outstanding.contains(id.0) {
            Route::Response(id)
        } else {
            Route::Application
        },
        None => Route::Application,
    }
}

/// The table of outstanding calls after an envelope was routed.
pub open spec fn routed(outstanding: Set<u32>, in_reply_to: Option<MessageID>) -> Set<u32> {
    match route(outstanding, in_reply_to) {
        Route::Response(id) => outstanding.remove(id.0),
        Route::Application => outstanding,
    }
}

/// A node: an application, its writer, and what the runtime keeps for them.
pub struct Node<A: App> {
    pub app: A,
    pub writer: MessageWriter,
    /// When the application was last given a tick.
    pub last_tick: u64,
    /// The identifiers of the calls whose answers have not come yet.
    pub outstanding_rpcs: HashSet<u32>,
}

/// The result of a step of the application, read off the result of the
/// step of the node around it.
pub open spec fn inner<T>(result: Result<T, Error>) -> Result<(), Error> {
    match result {
        Ok(_) => Ok(()),
        Err(e) => Err(e),
    }
}

impl<A: App> Node<A> {
    /// What holds of every node between its steps.
    pub open spec fn wf(&self) -> bool {
        &&& self.app.wf()
        &&& self.writer@.wf()
    }

    /// The table of outstanding calls as the next step sees it: with the
    /// calls that the writer has noted since the last step.
    pub open spec fn table(&self) -> Set<u32> {
        self.outstanding_rpcs@.union(ids_set(self.writer@.awaited))
    }

    /// The writer as the next step sees it: its noted calls are in the
    /// table.
    pub open spec fn settled_writer(&self) -> WriterView {
        WriterView { awaited: Seq::empty(), ..self.writer@ }
    }

    /// Whether `post` is `pre` after the writer's noted calls went into
    /// the table, and nothing else happened.
    pub open spec fn settled(pre: Self, post: Self) -> bool {
        &&& post.app == pre.app
        &&& post.writer@ == pre.settled_writer()
        &&& post.outstanding_rpcs@ == pre.table()
        &&& post.last_tick == pre.last_tick
    }

    /// Whether the first line of a run, read at `now`, opens the run with
    /// `node`.
    ///
    /// The line must hold an `init` envelope for a node and a cluster that
    /// the application can start in. The node then begins with a writer
    /// whose first envelope, the answer `init_ok`, has the identifier 0.
    pub open spec fn opened(line: Seq<char>, now: u64, node: Result<Self, Error>) -> bool {
        match json_document(line) {
            None => node matches Err(e) && e == Error::Malformed,
            Some(doc) => match envelope_of(doc) {
                None => node matches Err(e) && e == Error::Envelope,
                Some(m) => match InitPayload::read(m.body.payload) {
                    Some(InitPayloadView::Init { node_id, node_ids }) => if !A::can_start(
                        node_id,
                        node_ids,
                    ) {
                        node matches Err(e) && e == Error::Stranger
                    } else {
                        let fresh = WriterView {
                            node_id,
                            next: 0,
                            outbox: Seq::empty(),
                            awaited: Seq::empty(),
                            issued: 0,
                            log: Seq::empty(),
                        };
                        match fresh.send_result::<InitPayload>(
                            m.src,
                            m.body.msg_id,
                            InitPayloadView::InitOk,
                        ) {
                            Err(unprintable) => node matches Err(e) && e == unprintable,
                            Ok(_) => {
                                &&& node matches Ok(n)
                                &&& A::started(node_id, node_ids, now, n.app)
                                &&& n.writer@ == fresh.after_send::<InitPayload>(
                                    m.src,
                                    m.body.msg_id,
                                    InitPayloadView::InitOk,
                                )
                                &&& n.last_tick == now
                                &&& n.outstanding_rpcs@ == Set::<u32>::empty()
                            },
                        }
                    },
                    _ => node matches Err(e) && e == Error::InitNotFirst,
                },
            },
        }
    }

    /// Whether the line `line`, read at `now`, takes the node from `pre` to
    /// `post`, with `result`.
    ///
    /// A line that is no envelope is a fault. An envelope whose
    /// `in_reply_to` is the identifier of an outstanding call goes to the
    /// application's `receive`, and the call is outstanding no longer. Any
    /// other envelope goes to the application's `handle`, unless its payload
    /// is none of the application's: then it is left aside.
    pub open spec fn dispatched(
        pre: Self,
        line: Seq<char>,
        now: u64,
        post: Self,
        result: Result<Dispatch, Error>,
    ) -> bool {
        &&& post.last_tick == pre.last_tick
        &&& match json_document(line) {
            None => Self::settled(pre, post) && result == Err::<Dispatch, Error>(Error::Malformed),
            Some(doc) => match envelope_of(doc) {
                None => Self::settled(pre, post) && result == Err::<Dispatch, Error>(
                    Error::Envelope,
                ),
                Some(m) => {
                    &&& post.outstanding_rpcs@ == routed(pre.table(), m.body.in_reply_to)
                    &&& match route(pre.table(), m.body.in_reply_to) {
                        Route::Response(id) => {
                            &&& A::received(
                                pre.app,
                                pre.settled_writer(),
                                m,
                                now,
                                post.app,
                                post.writer@,
                                inner(result),
                            )
                            &&& result is Ok ==> result == Ok::<Dispatch, Error>(
                                Dispatch::Response(id),
                            )
                        },
                        Route::Application => match A::Payload::read(m.body.payload) {
                            None => Self::settled(pre, post) && result == Ok::<Dispatch, Error>(
                                Dispatch::Ignored,
                            ),
                            Some(payload) => {
                                &&& A::handled(
                                    pre.app,
                                    pre.settled_writer(),
                                    MessageView {
                                        src: m.src,
                                        dst: m.dst,
                                        body: MessageBodyView {
                                            msg_id: m.body.msg_id,
                                            in_reply_to: m.body.in_reply_to,
                                            payload,
                                        },
                                    },
                                    now,
                                    post.app,
                                    post.writer@,
                                    inner(result),
                                )
                                &&& result is Ok ==> result == Ok::<Dispatch, Error>(
                                    Dispatch::Handled,
                                )
                            },
                        },
                    }
                },
            },
        }
    }

    /// Whether a tick is due at `now`.
    pub open spec fn tick_due(&self, now: u64) -> bool {
        age(now, self.last_tick) >= TICK_PERIOD
    }

    /// Whether the time `now` takes the node from `pre` to `post`, with
    /// `result`: where a tick is due, the application is given one, and
    /// the tick period begins anew if it succeeds.
    pub open spec fn ticked_if_due(
        pre: Self,
        now: u64,
        post: Self,
        result: Result<bool, Error>,
    ) -> bool {
        if pre.tick_due(now) {
            &&& post.outstanding_rpcs@ == pre.outstanding_rpcs@
            &&& A::ticked(pre.app, pre.writer@, now, post.app, post.writer@, inner(result))
            &&& result is Ok ==> result == Ok::<bool, Error>(true) && post.last_tick == now
            &&& result is Err ==> post.last_tick == pre.last_tick
        } else {
            &&& post.app == pre.app
            &&& post.writer@ == pre.writer@
            &&& post.outstanding_rpcs@ == pre.outstanding_rpcs@
            &&& post.last_tick == pre.last_tick
            &&& result == Ok::<bool, Error>(false)
        }
    }

    /// Opens a run with its first line, read at `now`.
    pub fn start(first_line: &str, now: u64) -> (node: Result<Self, Error>)
        ensures
            Self::opened(first_line@, now, node),
            node matches Ok(n) ==> n.wf(),
    {
        let generic = match Message::parse(first_line) {
            Ok(m) => m,
            Err(e) => {
                return Err(e);
            },
        };
        let init_message = match generic.into_payload::<InitPayload>() {
            Ok(m) => m,
            Err(_) => {
                return Err(Error::InitNotFirst);
            },
        };
        let (node_id, node_ids) = match &init_message.body.payload {
            InitPayload::Init { node_id, node_ids } => (
                node_id.clone(),
                crate::protocol::copy_node_ids(node_ids),
            ),
            InitPayload::InitOk => {
                return Err(Error::InitNotFirst);
            },
        };
        if !A::check_start(&node_id, &node_ids) {
            return Err(Error::Stranger);
        }
        let mut writer = MessageWriter::new(node_id.clone());
        let app = A::new(node_id, node_ids, now);
        match writer.reply_to(&init_message, InitPayload::InitOk) {
            Ok(_) => {},
            Err(e) => {
                return Err(e);
            },
        }
        Ok(Node { app, writer, last_tick: now, outstanding_rpcs: HashSet::new() })
    }

    /// Puts the calls that the writer has noted into the table of
    /// outstanding calls.
    fn settle(&mut self)
        requires
            old(self).wf(),
        ensures
            Self::settled(*old(self), *final(self)),
            final(self).wf(),
    {
        broadcast use vstd::std_specs::hash::group_hash_axioms;

        let ghost before = *self;
        let awaited = self.writer.take_awaited();
        let mut i: usize = 0;
        while i < awaited.len()
            invariant
                i <= awaited.len(),
                self.app == before.app,
                self.writer@ == before.settled_writer(),
                self.last_tick == before.last_tick,
                self.outstanding_rpcs@ == before.outstanding_rpcs@.union(
                    ids_set(awaited@.take(i as int)),
                ),
            decreases awaited.len() - i,
        {
            self.outstanding_rpcs.insert(awaited[i].0);
            proof {
                let sooner = awaited@.take(i as int);
                let later = awaited@.take(i + 1);
                assert(later =~= sooner.push(awaited[i as int]));
                assert forall|id: u32| ids_set(later).contains(id) <==> ids_set(sooner).insert(
                    awaited[i as int].0,
                ).contains(id) by {
                    if later.contains(MessageID(id)) {
                        let at = choose|at: int| 0 <= at < later.len() && later[at] == MessageID(id);
                        if at < sooner.len() {
                            assert(sooner[at] == MessageID(id));
                        }
                    }
                    if sooner.contains(MessageID(id)) {
                        let at = choose|at: int|
                            0 <= at < sooner.len() && sooner[at] == MessageID(id);
                        assert(later[at] == MessageID(id));
                    }
                    if id == awaited[i as int].0 {
                        assert(later[i as int] == MessageID(id));
                    }
                }
                assert(self.outstanding_rpcs@ =~= before.outstanding_rpcs@.union(ids_set(later)));
            }
            i = i + 1;
        }
        proof {
            assert(awaited@.take(i as int) =~= awaited@);
        }
    }

    /// Takes in a line that was read at `now`.
    pub fn dispatch(&mut self, line: &str, now: u64) -> (result: Result<Dispatch, Error>)
        requires
            old(self).wf(),
        ensures
            final(self).wf(),
            Self::dispatched(*old(self), line@, now, *final(self), result),
    {
        broadcast use vstd::std_specs::hash::group_hash_axioms;

        let ghost before = *self;
        self.settle();
        let message = match Message::parse(line) {
            Ok(m) => m,
            Err(e) => {
                return Err(e);
            },
        };
        let ghost m = message@;
        let answered = match message.body.in_reply_to {
            Some(in_reply_to) => if self.outstanding_rpcs.remove(&in_reply_to.0) {
                Some(in_reply_to)
            } else {
                None
            },
            None => None,
        };
        proof {
            assert(self.outstanding_rpcs@ =~= routed(before.table(), m.body.in_reply_to));
            assert(self.app == before.app);
            assert(self.writer@ == before.settled_writer());
        }
        match answered {
            Some(in_reply_to) => {
                let received = self.app.receive(message, &mut self.writer, now);
                proof {
                    if received is Ok {
                        assert(received->Ok_0 == ());
                    }
                }
                match received {
                    Ok(_) => Ok(Dispatch::Response(in_reply_to)),
                    Err(e) => Err(e),
                }
            },
            None => {
                let message = match message.into_payload::<A::Payload>() {
                    Ok(m) => m,
                    Err(_) => {
                        return Ok(Dispatch::Ignored);
                    },
                };
                proof {
                    assert(message@ == (MessageView {
                        src: m.src,
                        dst: m.dst,
                        body: MessageBodyView {
                            msg_id: m.body.msg_id,
                            in_reply_to: m.body.in_reply_to,
                            payload: message@.body.payload,
                        },
                    }));
                }
                let handled = self.app.handle(message, &mut self.writer, now);
                proof {
                    if handled is Ok {
                        assert(handled->Ok_0 == ());
                    }
                }
                match handled {
                    Ok(_) => Ok(Dispatch::Handled),
                    Err(e) => Err(e),
                }
            },
        }
    }

    /// Gives the application a tick if one is due at `now`. Returns whether
    /// it did.
    pub fn tick_if_due(&mut self, now: u64) -> (result: Result<bool, Error>)
        requires
            old(self).wf(),
        ensures
            final(self).wf(),
            Self::ticked_if_due(*old(self), now, *final(self), result),
    {
        let ghost before = *self;
        if has_aged(now, self.last_tick, TICK_PERIOD) {
            let ticked = self.app.tick(&mut self.writer, now);
            let ghost mid = *self;
            proof {
                assert(A::ticked(before.app, before.writer@, now, self.app, self.writer@, ticked));
            }
            match ticked {
                Ok(()) => {
                    self.last_tick = now;
                    proof {
                        assert(ticked is Ok);
                        assert(ticked->Ok_0 == ());
                        assert(ticked == Ok::<(), Error>(()));
                        assert(self.app == mid.app);
                        assert(self.writer@ == mid.writer@);
                        assert(inner(Ok::<bool, Error>(true)) == Ok::<(), Error>(()));
                        assert(before.tick_due(now));
                        assert(self.outstanding_rpcs@ == before.outstanding_rpcs@);
                        assert(A::ticked(
                            before.app,
                            before.writer@,
                            now,
                            self.app,
                            self.writer@,
                            inner(Ok::<bool, Error>(true)),
                        ));
                        assert(Self::ticked_if_due(before, now, *self, Ok(true)));
                    }
                    Ok(true)
                },
                Err(e) => {
                    proof {
                        assert(inner(Err::<bool, Error>(e)) == Err::<(), Error>(e));
                    }
                    Err(e)
                },
            }
        } else {
            Ok(false)
        }
    }

    /// Takes the lines that wait to be written, oldest first.
    pub fn take_output(&mut self) -> (lines: Vec<String>)
        ensures
            crate::json::strings_view(lines@) == old(self).writer@.outbox,
            final(self).writer@ == (WriterView { outbox: Seq::empty(), ..old(self).writer@ }),
            final(self).app == old(self).app,
            final(self).last_tick == old(self).last_tick,
            final(self).outstanding_rpcs == old(self).outstanding_rpcs,
    {
        self.writer.take_lines()
    }
}

/// The table of outstanding calls after the first `count` envelopes of a
/// run were routed, each by its `in_reply_to`.
pub open spec fn routed_all(
    outstanding: Set<u32>,
    replies: Seq<Option<MessageID>>,
    count: nat,
) -> Set<u32>
    decreases count,
{
    if count == 0 {
        outstanding
    } else {
        routed(routed_all(outstanding, replies, (count - 1) as nat), replies[count - 1])
    }
}

/// Matching of calls and answers: the first inbound envelope whose
/// `in_reply_to` is the identifier of an outstanding call goes to the
/// caller, whatever arrives before it.
///
/// None of the envelopes before it is taken for the answer, the call stays
/// outstanding until the answer comes, and it is outstanding no longer once
/// the answer has come.
pub proof fn lemma_rpc_matching(
    outstanding: Set<u32>,
    replies: Seq<Option<MessageID>>,
    call: MessageID,
    at: int,
)
    requires
        outstanding.contains(call.0),
        0 <= at < replies.len(),
        replies[at] == Some(call),
        forall|j: int| 0 <= j < at ==> #[trigger] replies[j] != Some(call),
    ensures
        forall|j: int|
            0 <= j < at ==> #[trigger] route(routed_all(outstanding, replies, j as nat), replies[j])
                != Route::Response(call),
        forall|j: int|
            0 <= j <= at ==> (#[trigger] routed_all(outstanding, replies, j as nat)).contains(
                call.0,
            ),
        route(routed_all(outstanding, replies, at as nat), replies[at]) == Route::Response(call),
        !routed_all(outstanding, replies, (at + 1) as nat).contains(call.0),
{
    assert forall|j: int| 0 <= j <= at implies (#[trigger] routed_all(
        outstanding,
        replies,
        j as nat,
    )).contains(call.0) by {
        lemma_call_stays(outstanding, replies, call, j as nat);
    }
    assert forall|j: int| 0 <= j < at implies #[trigger] route(
        routed_all(outstanding, replies, j as nat),
        replies[j],
    ) != Route::Response(call) by {
        assert(replies[j] != Some(call));
    }
}

/// A call stays outstanding as long as no envelope names it.
proof fn lemma_call_stays(
    outstanding: Set<u32>,
    replies: Seq<Option<MessageID>>,
    call: MessageID,
    count: nat,
)
    requires
        outstanding.contains(call.0),
        count <= replies.len(),
        forall|j: int| 0 <= j < count ==> #[trigger] replies[j] != Some(call),
    ensures
        routed_all(outstanding, replies, count).contains(call.0),
    decreases count,
{
    if count > 0 {
        lemma_call_stays(outstanding, replies, call, (count - 1) as nat);
        assert(replies[count - 1] != Some(call));
    }
}

/// What the program around a node tells it.
#[derive(Debug, PartialEq, Eq, Clone)]
pub enum Event {
    /// A line was read at `now`.
    Line { line: String, now: u64 },
    /// The tick period passed without a line. It is `now`.
    Idle { now: u64 },
}

/// The mathematical form of an [`Event`].
pub enum EventView {
    Line { line: Seq<char>, now: u64 },
    Idle { now: u64 },
}

impl View for Event {
    type V = EventView;

    open spec fn view(&self) -> EventView {
        match self {
            Event::Line { line, now } => EventView::Line { line: line@, now: *now },
            Event::Idle { now } => EventView::Idle { now: *now },
        }
    }
}

/// The events of a list, each by its view.
pub open spec fn events_view(events: Seq<Event>) -> Seq<EventView> {
    Seq::new(events.len(), |i: int| events[i]@)
}

/// The lines that a step gave out, each by its view.
pub open spec fn given<T>(result: Result<Vec<String>, T>) -> Result<Seq<Seq<char>>, T> {
    match result {
        Ok(lines) => Ok(crate::json::strings_view(lines@)),
        Err(e) => Err(e),
    }
}

impl<A: App> Node<A> {
    /// Whether `post` is `pre` after its waiting lines, `lines`, were
    /// taken.
    pub open spec fn drained(pre: Self, post: Self, lines: Seq<Seq<char>>) -> bool {
        &&& lines == pre.writer@.outbox
        &&& post.writer@ == (WriterView { outbox: Seq::empty(), ..pre.writer@ })
        &&& post.app == pre.app
        &&& post.last_tick == pre.last_tick
        &&& post.outstanding_rpcs@ == pre.outstanding_rpcs@
    }

    /// Whether the time `now` takes the node from `pre` to `post`, with
    /// `result`: the application is given a tick if one is due, and the
    /// lines that wait then are given out.
    pub open spec fn idled(
        pre: Self,
        now: u64,
        post: Self,
        result: Result<Seq<Seq<char>>, Error>,
    ) -> bool {
        exists|mid: Self, ticked: Result<bool, Error>|
            {
                &&& #[trigger] Self::ticked_if_due(pre, now, mid, ticked)
                &&& match ticked {
                    Ok(_) => result matches Ok(lines) && Self::drained(mid, post, lines),
                    Err(e) => result == Err::<Seq<Seq<char>>, Error>(e) && post == mid,
                }
            }
    }

    /// Whether the line `line`, read at `now`, takes the node from `pre` to
    /// `post`, with `result`: the line is dispatched, and then the node
    /// does what it does when no line has come. The first fault ends the
    /// step.
    pub open spec fn lined(
        pre: Self,
        line: Seq<char>,
        now: u64,
        post: Self,
        result: Result<Seq<Seq<char>>, Error>,
    ) -> bool {
        exists|mid: Self, moved: Result<Dispatch, Error>|
            {
                &&& #[trigger] Self::dispatched(pre, line, now, mid, moved)
                &&& match moved {
                    Ok(_) => Self::idled(mid, now, post, result),
                    Err(e) => result == Err::<Seq<Seq<char>>, Error>(e) && post == mid,
                }
            }
    }

    /// Whether an event takes the node from `pre` to `post`, with `result`.
    pub open spec fn stepped(
        pre: Self,
        event: EventView,
        post: Self,
        result: Result<Seq<Seq<char>>, Error>,
    ) -> bool {
        match event {
            EventView::Idle { now } => Self::idled(pre, now, post, result),
            EventView::Line { line, now } => Self::lined(pre, line, now, post, result),
        }
    }

    /// Whether the line `line`, read at `now`, opens a run that stands at
    /// `node` once the lines `output` were given out.
    pub open spec fn began(line: Seq<char>, now: u64, node: Self, output: Seq<Seq<char>>) -> bool {
        exists|first: Self| #[trigger]
            Self::opened(line, now, Ok(first)) && Self::drained(first, node, output)
    }

    /// Whether `trace` holds, for each of the first `count` of `events`,
    /// the node after the event and the lines that the event gave out.
    ///
    /// The first event is the line that opens the run.
    pub open spec fn follows(
        events: Seq<EventView>,
        trace: Seq<(Self, Seq<Seq<char>>)>,
        count: nat,
    ) -> bool
        decreases count,
    {
        if count == 0 {
            false
        } else if count == 1 {
            match events[0] {
                EventView::Line { line, now } => Self::began(line, now, trace[0].0, trace[0].1),
                EventView::Idle { now } => false,
            }
        } else {
            &&& Self::follows(events, trace, (count - 1) as nat)
            &&& Self::stepped(
                trace[count - 2].0,
                events[count - 1],
                trace[count - 1].0,
                Ok(trace[count - 1].1),
            )
        }
    }

    /// The lines that the first `count` events of a run gave out, in their
    /// order.
    pub open spec fn gathered(trace: Seq<(Self, Seq<Seq<char>>)>, count: nat) -> Seq<Seq<char>>
        decreases count,
    {
        if count == 0 {
            Seq::empty()
        } else {
            Self::gathered(trace, (count - 1) as nat) + trace[count - 1].1
        }
    }

    /// Whether the first `count` of `events` take a node from the start of
    /// its run to `node`, and give out `output` on the way.
    pub open spec fn ran(
        events: Seq<EventView>,
        count: nat,
        node: Self,
        output: Seq<Seq<char>>,
    ) -> bool {
        exists|trace: Seq<(Self, Seq<Seq<char>>)>|
            {
                &&& count >= 1
                &&& trace.len() == count
                &&& #[trigger] Self::follows(events, trace, count)
                &&& trace[count - 1].0 == node
                &&& Self::gathered(trace, count) == output
            }
    }

    /// Whether the run of `events` ends at the event `at` with the fault
    /// `fault`.
    ///
    /// A run without a first line, or one whose first line does not open
    /// it, ends at once.
    pub open spec fn failed(events: Seq<EventView>, at: nat, fault: Error) -> bool {
        if at > 0 {
            at < events.len() && exists|before: Self, earlier: Seq<Seq<char>>, after: Self|
                {
                    &&& #[trigger] Self::ran(events, at, before, earlier)
                    &&& #[trigger] Self::stepped(before, events[at as int], after, Err(fault))
                }
        } else if events.len() == 0 {
            fault == Error::InitNotFirst
        } else {
            match events[0] {
                EventView::Idle { now } => fault == Error::InitNotFirst,
                EventView::Line { line, now } => Self::opened(line, now, Err(fault)),
            }
        }
    }

    /// Whether the run of `events` ends well with the lines `output` given
    /// out.
    pub open spec fn ends_well(events: Seq<EventView>, output: Seq<Seq<char>>) -> bool {
        exists|node: Self| #[trigger] Self::ran(events, events.len(), node, output)
    }

    /// Whether the run of `events` ends with the fault `fault`.
    pub open spec fn ends_badly(events: Seq<EventView>, fault: Error) -> bool {
        exists|at: nat| #[trigger] Self::failed(events, at, fault)
    }

    /// Gives out the lines that wait after a tick that may be due at `now`.
    fn on_idle(&mut self, now: u64) -> (result: Result<Vec<String>, Error>)
        requires
            old(self).wf(),
        ensures
            final(self).wf(),
            Self::idled(*old(self), now, *final(self), given(result)),
    {
        let ghost before = *self;
        let ticked = self.tick_if_due(now);
        let ghost mid = *self;
        match ticked {
            Ok(_) => {
                let lines = self.take_output();
                proof {
                    assert(Self::ticked_if_due(before, now, mid, ticked));
                    assert(Self::drained(mid, *self, crate::json::strings_view(lines@)));
                }
                Ok(lines)
            },
            Err(e) => {
                proof {
                    assert(Self::ticked_if_due(before, now, mid, ticked));
                }
                Err(e)
            },
        }
    }

    /// Takes in an event and gives out the lines that wait after it.
    pub fn on_event(&mut self, event: &Event) -> (result: Result<Vec<String>, Error>)
        requires
            old(self).wf(),
        ensures
            final(self).wf(),
            Self::stepped(*old(self), event@, *final(self), given(result)),
    {
        let ghost before = *self;
        match event {
            Event::Idle { now } => {
                let result = self.on_idle(*now);
                proof {
                    assert(event@ == EventView::Idle { now: *now });
                    assert(Self::idled(before, *now, *self, given(result)));
                }
                result
            },
            Event::Line { line, now } => {
                let moved = self.dispatch(line.as_str(), *now);
                let ghost mid = *self;
                proof {
                    assert(event@ == EventView::Line { line: line@, now: *now });
                    assert(Self::dispatched(before, line@, *now, mid, moved));
                }
                match moved {
                    Ok(_) => {
                        let result = self.on_idle(*now);
                        proof {
                            assert(Self::idled(mid, *now, *self, given(result)));
                            assert(Self::stepped(before, event@, *self, given(result)));
                        }
                        result
                    },
                    Err(e) => {
                        proof {
                            assert(Self::stepped(
                                before,
                                event@,
                                *self,
                                Err::<Seq<Seq<char>>, Error>(e),
                            ));
                        }
                        Err(e)
                    },
                }
            },
        }
    }
}

/// Runs a node through a list of events and returns all that it gave out.
///
/// The first event must be the line that opens the run. The first fault
/// ends the run, and is returned.
pub fn event_loop<A: App>(events: &Vec<Event>) -> (result: Result<Vec<String>, Error>)
    ensures
        match result {
            Ok(output) => Node::<A>::ends_well(
                events_view(events@),
                crate::json::strings_view(output@),
            ),
            Err(fault) => Node::<A>::ends_badly(events_view(events@), fault),
        },
{
    let ghost all = events_view(events@);
    if events.len() == 0 {
        proof {
            assert(Node::<A>::failed(all, 0, Error::InitNotFirst));
        }
        return Err(Error::InitNotFirst);
    }
    let mut node = match &events[0] {
        Event::Idle { now } => {
            proof {
                assert(Node::<A>::failed(all, 0, Error::InitNotFirst));
            }
            return Err(Error::InitNotFirst);
        },
        Event::Line { line, now } => match Node::<A>::start(line.as_str(), *now) {
            Ok(node) => node,
            Err(e) => {
                proof {
                    assert(Node::<A>::failed(all, 0, e));
                }
                return Err(e);
            },
        },
    };
    let ghost first = node;
    let mut output = node.take_output();
    let ghost mut trace: Seq<(Node<A>, Seq<Seq<char>>)> = seq![
        (node, crate::json::strings_view(output@)),
    ];
    proof {
        assert(Node::<A>::drained(first, node, crate::json::strings_view(output@)));
        assert(Node::<A>::opened(all[0]->Line_line, all[0]->Line_now, Ok(first)));
        assert(Node::<A>::follows(all, trace, 1));
        assert(Node::<A>::gathered(trace, 0) =~= Seq::empty());
        assert(Node::<A>::gathered(trace, 1) =~= crate::json::strings_view(output@));
    }
    let mut i: usize = 1;
    while i < events.len()
        invariant
            1 <= i <= events.len(),
            all == events_view(events@),
            node.wf(),
            trace.len() == i,
            trace[i - 1].0 == node,
            Node::<A>::follows(all, trace, i as nat),
            Node::<A>::gathered(trace, i as nat) == crate::json::strings_view(output@),
        decreases events.len() - i,
    {
        let ghost before = node;
        let ghost sooner = crate::json::strings_view(output@);
        let ghost so_far = trace;
        match node.on_event(&events[i]) {
            Ok(mut lines) => {
                let ghost fresh = crate::json::strings_view(lines@);
                output.append(&mut lines);
                proof {
                    trace = so_far.push((node, fresh));
                    assert(crate::json::strings_view(output@) =~= sooner + fresh);
                    lemma_trace_grows::<A>(all, so_far, (node, fresh), i as nat);
                }
            },
            Err(e) => {
                proof {
                    assert(Node::<A>::ran(all, i as nat, before, sooner));
                    assert(Node::<A>::stepped(before, all[i as int], node, Err(e)));
                    assert(Node::<A>::failed(all, i as nat, e));
                }
                return Err(e);
            },
        }
        i = i + 1;
    }
    proof {
        assert(all.len() == events.len());
        assert(Node::<A>::ran(all, all.len(), node, crate::json::strings_view(output@)));
    }
    Ok(output)
}

/// What a trace says of its first events does not change as it grows.
proof fn lemma_trace_grows<A: App>(
    events: Seq<EventView>,
    trace: Seq<(Node<A>, Seq<Seq<char>>)>,
    next: (Node<A>, Seq<Seq<char>>),
    count: nat,
)
    requires
        count <= trace.len(),
    ensures
        Node::<A>::follows(events, trace.push(next), count) == Node::<A>::follows(
            events,
            trace,
            count,
        ),
        Node::<A>::gathered(trace.push(next), count) == Node::<A>::gathered(trace, count),
    decreases count,
{
    if count > 0 {
        lemma_trace_grows::<A>(events, trace, next, (count - 1) as nat);
    }
}

} // verus!
