//! The life of one connection: listening, answering, pinging, closing.
//!
//! Waiting, sending and closing happen elsewhere. The functions here say, from what has
//! happened, what is to be done next.

use crate::message::{Frame, FrameView, Incoming, IncomingView, SignalView};
use crate::publication::{Publication, PublicationView};
use crate::service::{left, subscribed, unsubscribed, SignalingService};
use crate::state::{ConnState, ConnStateView, Reaction};
use crate::topics::{enumerates, members, ConnId, Table};
use vstd::prelude::*;

verus! {

/// The time between two pings, in seconds.
pub const PING_TIMEOUT: u64 = 30;

/// What is left to do about a frame once the server has taken note of it.
pub enum Outcome {
    Done,
    /// Deliver this publication.
    Publish(Publication),
    /// Send this frame back to the sender; if that fails, so does the connection.
    Reply(Frame),
}

/// What an outcome holds.
pub enum OutcomeView {
    Done,
    Publish(PublicationView),
    Reply(FrameView),
}

impl View for Outcome {
    type V = OutcomeView;

    open spec fn view(&self) -> OutcomeView {
        match self {
            Outcome::Done => OutcomeView::Done,
            Outcome::Publish(publication) => OutcomeView::Publish(publication@),
            Outcome::Reply(frame) => OutcomeView::Reply(frame@),
        }
    }
}

/// The state of a connection once `msg` from its peer is dealt with.
pub open spec fn state_after(state: ConnStateView, msg: IncomingView) -> ConnStateView {
    match msg {
        IncomingView::Text { json, signal: SignalView::Subscribe { topics } } => ConnStateView {
            subscribed: state.subscribed.union(topics.to_set()),
            ..state
        },
        IncomingView::Pong => ConnStateView { pong_received: true, ..state },
        IncomingView::Close => ConnStateView { closed: true, subscribed: Set::empty(), ..state },
        _ => state,
    }
}

/// The table of topics once `msg` from the peer of `conn` is dealt with.
pub open spec fn table_after(
    table: Table,
    conn: ConnId,
    state: ConnStateView,
    msg: IncomingView,
) -> Table {
    match msg {
        IncomingView::Text { json, signal: SignalView::Subscribe { topics } } => subscribed(
            table,
            conn,
            topics,
        ),
        IncomingView::Text { json, signal: SignalView::Unsubscribe { topics } } => unsubscribed(
            table,
            conn,
            topics,
        ),
        IncomingView::Close => left(table, conn, state.subscribed),
        _ => table,
    }
}

/// What is left to do about `msg`: to deliver the text of a publish request to the
/// subscribers of its topic, or to answer a ping with its payload.
pub open spec fn outcome_of(table: Table, msg: IncomingView, outcome: OutcomeView) -> bool {
    match msg {
        IncomingView::Text { json, signal: SignalView::Publish { topic } } => {
            &&& outcome matches OutcomeView::Publish(publication)
            &&& publication.topic == topic
            &&& publication.msg == FrameView::Text(json)
            &&& enumerates(publication.pending, members(table, topic))
            &&& publication.failed == Seq::<ConnId>::empty()
        },
        IncomingView::Ping(payload) => outcome == OutcomeView::Reply(FrameView::Pong(payload)),
        _ => outcome == OutcomeView::Done,
    }
}

/// Deals with a frame that arrived from the peer of `ws`, for a caller who has the table of
/// topics to itself. A caller who shares it takes the steps by which this works one by one:
/// `ConnState::receive`, and then, where the reaction asks for it, the service.
pub fn process_msg<'a>(
    msg: Incoming<'a>,
    ws: ConnId,
    state: &mut ConnState,
    service: &mut SignalingService,
) -> (outcome: Outcome)
    requires
        old(state).wf(),
        old(service).wf(),
    ensures
        final(state).wf(),
        final(service).wf(),
        final(state)@ == state_after(old(state)@, msg@),
        final(service)@ == table_after(old(service)@, ws, old(state)@, msg@),
        outcome_of(old(service)@, msg@, outcome@),
        forall|topic: Seq<char>, conn: ConnId| #[trigger]
            members(final(service)@, topic).contains(conn) == {
                let was = members(old(service)@, topic).contains(conn);
                match msg@ {
                    IncomingView::Text { json, signal: SignalView::Subscribe { topics } } => was
                        || (conn == ws && topics.contains(topic)),
                    IncomingView::Text { json, signal: SignalView::Unsubscribe { topics } } => was
                        && !(conn == ws && topics.contains(topic)),
                    IncomingView::Close => was && !(conn == ws && old(
                        state,
                    )@.subscribed.contains(topic)),
                    _ => was,
                }
            },
        final(state)@.pong_received == (old(state)@.pong_received || msg@ is Pong),
        final(state)@.closed == (old(state)@.closed || msg@ is Close),
        msg@ matches IncomingView::Ping(payload) ==> outcome@ == OutcomeView::Reply(
            FrameView::Pong(payload),
        ),
        msg@ matches IncomingView::Text { json, signal: SignalView::Publish { topic } } ==> {
            &&& outcome@ matches OutcomeView::Publish(publication)
            &&& publication.msg == FrameView::Text(json)
            &&& publication.topic == topic
            &&& publication.pending.no_duplicates()
            &&& publication.pending.to_set() == members(old(service)@, topic)
        },
{
    proof {
        lemma_no_topics(old(service)@, ws, old(state)@.subscribed);
        assert forall|topic: Seq<char>, conn: ConnId|
            members(left(old(service)@, ws, old(state)@.subscribed), topic).contains(conn) == (
            members(old(service)@, topic).contains(conn) && !(conn == ws && old(
                state,
            )@.subscribed.contains(topic))) by {
            let had = members(old(service)@, topic);
            assert(had.contains(conn) && conn != ws ==> had.remove(ws).contains(conn));
        }
    }
    match state.receive(msg) {
        Reaction::Ignore => Outcome::Done,
        Reaction::Subscribe(topics) => {
            service.subscribe(ws, &topics, state);
            Outcome::Done
        },
        Reaction::Unsubscribe(topics) => {
            service.unsubscribe(ws, &topics);
            Outcome::Done
        },
        Reaction::Publish { topic, msg: frame } => Outcome::Publish(service.publish(topic, frame)),
        Reaction::Leave(topics) => {
            service.leave(ws, &topics);
            Outcome::Done
        },
        Reaction::Reply(frame) => Outcome::Reply(frame),
    }
}

/// To name no topic is to change nothing.
proof fn lemma_no_topics(table: Table, conn: ConnId, noted: Set<Seq<char>>)
    ensures
        forall|topics: Seq<Seq<char>>|
            topics.len() == 0 ==> #[trigger] subscribed(table, conn, topics) == table,
        forall|topics: Seq<Seq<char>>|
            topics.len() == 0 ==> #[trigger] unsubscribed(table, conn, topics) == table,
        forall|topics: Seq<Seq<char>>|
            topics.len() == 0 ==> #[trigger] noted.union(topics.to_set()) == noted,
{
    assert forall|topics: Seq<Seq<char>>| topics.len() == 0 implies #[trigger] subscribed(
        table,
        conn,
        topics,
    ) == table by {
        assert(subscribed(table, conn, topics) =~= table);
    }
    assert forall|topics: Seq<Seq<char>>| topics.len() == 0 implies #[trigger] unsubscribed(
        table,
        conn,
        topics,
    ) == table by {
        assert(unsubscribed(table, conn, topics) =~= table);
    }
    assert forall|topics: Seq<Seq<char>>| topics.len() == 0 implies #[trigger] noted.union(
        topics.to_set(),
    ) == noted by {
        assert(noted.union(topics.to_set()) =~= noted);
    }
}

/// Where an attempt to send a frame stands, and so what is to be done next.
pub enum SendPhase<E> {
    /// Send the frame.
    Sending,
    /// Sending failed with this error: close the connection.
    Closing(E),
    /// This is how the attempt ended.
    Finished(Result<(), E>),
}

/// Where an attempt to send stands once the outcome of the last step is known.
///
/// A connection on which sending fails is closed. The attempt then ends with the error of
/// sending, or, if closing fails too, with the error of closing.
pub open spec fn send_after<E>(phase: SendPhase<E>, outcome: Result<(), E>) -> SendPhase<E> {
    match (phase, outcome) {
        (SendPhase::Sending, Ok(_)) => SendPhase::Finished(Ok(())),
        (SendPhase::Sending, Err(sending)) => SendPhase::Closing(sending),
        (SendPhase::Closing(sending), Ok(_)) => SendPhase::Finished(Err(sending)),
        (SendPhase::Closing(_), Err(closing)) => SendPhase::Finished(Err(closing)),
        (SendPhase::Finished(_), _) => phase,
    }
}

/// Takes an attempt to send from one phase to the next.
pub fn try_send<E>(phase: SendPhase<E>, outcome: Result<(), E>) -> (next: SendPhase<E>)
    ensures
        next == send_after(phase, outcome),
{
    match phase {
        SendPhase::Sending => match outcome {
            Ok(_) => SendPhase::Finished(Ok(())),
            Err(sending) => SendPhase::Closing(sending),
        },
        SendPhase::Closing(sending) => match outcome {
            Ok(_) => SendPhase::Finished(Err(sending)),
            Err(closing) => SendPhase::Finished(Err(closing)),
        },
        SendPhase::Finished(result) => SendPhase::Finished(result),
    }
}

/// What a connection is at, and so what is to be done next.
pub enum ConnPhase<M, E> {
    /// Wait for the next tick or for what the peer sends next.
    Listening,
    /// Try to send this frame to the peer.
    Pinging(Frame),
    /// Process this message.
    Processing(M),
    /// Close the connection, which is to end with this result.
    Closing(Result<(), E>),
    /// This is how the connection ended.
    Finished(Result<(), E>),
}

/// What a phase holds.
pub enum PhaseView<M, E> {
    Listening,
    Pinging(FrameView),
    Processing(M),
    Closing(Result<(), E>),
    Finished(Result<(), E>),
}

impl<M, E> View for ConnPhase<M, E> {
    type V = PhaseView<M, E>;

    open spec fn view(&self) -> PhaseView<M, E> {
        match self {
            ConnPhase::Listening => PhaseView::Listening,
            ConnPhase::Pinging(frame) => PhaseView::Pinging(frame@),
            ConnPhase::Processing(msg) => PhaseView::Processing(*msg),
            ConnPhase::Closing(result) => PhaseView::Closing(*result),
            ConnPhase::Finished(result) => PhaseView::Finished(*result),
        }
    }
}

/// What happens to a connection.
pub enum ConnEvent<M, E> {
    /// It is time for the next ping.
    Tick,
    /// The peer sends nothing more.
    Ended,
    /// Reading from the peer failed.
    Failed(E),
    /// A message arrived.
    Arrived(M),
    /// What the phase asked for is done, with this result.
    Done(Result<(), E>),
}

/// What a connection is at after `event`, where `answered` says whether the peer has answered
/// since the last ping. An event that the phase does not wait for changes nothing.
pub open spec fn phase_after<M, E>(
    answered: bool,
    phase: PhaseView<M, E>,
    event: ConnEvent<M, E>,
) -> PhaseView<M, E> {
    match (phase, event) {
        (PhaseView::Listening, ConnEvent::Tick) => if answered {
            PhaseView::Pinging(FrameView::Ping(Seq::empty()))
        } else {
            PhaseView::Closing(Ok(()))
        },
        (PhaseView::Listening, ConnEvent::Ended) => PhaseView::Closing(Ok(())),
        (PhaseView::Listening, ConnEvent::Failed(e)) => PhaseView::Closing(Err(e)),
        (PhaseView::Listening, ConnEvent::Arrived(msg)) => PhaseView::Processing(msg),
        (PhaseView::Pinging(_), ConnEvent::Done(Ok(_))) => PhaseView::Listening,
        (PhaseView::Pinging(_), ConnEvent::Done(Err(e))) => PhaseView::Closing(Err(e)),
        (PhaseView::Processing(_), ConnEvent::Done(Ok(_))) => PhaseView::Listening,
        (PhaseView::Processing(_), ConnEvent::Done(Err(e))) => PhaseView::Finished(Err(e)),
        (PhaseView::Closing(result), ConnEvent::Done(Ok(_))) => PhaseView::Finished(result),
        (PhaseView::Closing(_), ConnEvent::Done(Err(e))) => PhaseView::Finished(Err(e)),
        _ => phase,
    }
}

/// Whether `event` makes the server ping the peer.
pub open spec fn pings<M, E>(
    answered: bool,
    phase: PhaseView<M, E>,
    event: ConnEvent<M, E>,
) -> bool {
    phase is Listening && event is Tick && answered
}

/// Takes a connection from one phase to the next.
///
/// At each tick the peer is pinged, unless it has not answered the last ping: then the
/// connection is closed. It is also closed when the peer sends nothing more, when reading from
/// it fails, and when it cannot be pinged; an error in closing takes the place of the result
/// that the connection was to end with. An error in processing a message ends the connection
/// at once.
pub fn signaling_conn<M, E>(
    state: &mut ConnState,
    phase: ConnPhase<M, E>,
    event: ConnEvent<M, E>,
) -> (next: ConnPhase<M, E>)
    requires
        old(state).wf(),
    ensures
        final(state).wf(),
        next@ == phase_after(old(state)@.pong_received, phase@, event),
        final(state)@ == if pings(old(state)@.pong_received, phase@, event) {
            ConnStateView { pong_received: false, ..old(state)@ }
        } else {
            old(state)@
        },
        phase@ is Listening && event is Arrived ==> next@ == PhaseView::<M, E>::Processing(
            event->Arrived_0,
        ),
        final(state)@.pong_received == (old(state)@.pong_received && !(phase@ !is Pinging
            && next@ is Pinging)),
        final(state)@.closed == old(state)@.closed,
        final(state)@.subscribed == old(state)@.subscribed,
{
    match phase {
        ConnPhase::Listening => match event {
            ConnEvent::Tick => {
                if !state.pong_received {
                    ConnPhase::Closing(Ok(()))
                } else {
                    state.pong_received = false;
                    let payload: Vec<u8> = Vec::new();
                    assert(payload@ =~= Seq::<u8>::empty());
                    ConnPhase::Pinging(Frame::Ping(payload))
                }
            },
            ConnEvent::Ended => ConnPhase::Closing(Ok(())),
            ConnEvent::Failed(e) => ConnPhase::Closing(Err(e)),
            ConnEvent::Arrived(msg) => ConnPhase::Processing(msg),
            ConnEvent::Done(_) => ConnPhase::Listening,
        },
        ConnPhase::Pinging(frame) => match event {
            ConnEvent::Done(Ok(_)) => ConnPhase::Listening,
            ConnEvent::Done(Err(e)) => ConnPhase::Closing(Err(e)),
            _ => ConnPhase::Pinging(frame),
        },
        ConnPhase::Processing(msg) => match event {
            ConnEvent::Done(Ok(_)) => ConnPhase::Listening,
            ConnEvent::Done(Err(e)) => ConnPhase::Finished(Err(e)),
            _ => ConnPhase::Processing(msg),
        },
        ConnPhase::Closing(result) => match event {
            ConnEvent::Done(Ok(_)) => ConnPhase::Finished(result),
            ConnEvent::Done(Err(e)) => ConnPhase::Finished(Err(e)),
            _ => ConnPhase::Closing(result),
        },
        ConnPhase::Finished(result) => ConnPhase::Finished(result),
    }
}

} // verus!
