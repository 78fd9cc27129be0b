//! What each message and each event means, for every table, state and connection.

use crate::conn::{
    outcome_of, phase_after, pings, send_after, state_after, table_after, ConnEvent, ConnPhase,
    Outcome, OutcomeView, PhaseView, SendPhase,
};
use crate::message::{
    names, owned_names, Frame, FrameView, Incoming, IncomingView, Signal, SignalView,
};
use crate::publication::{Publication, PublicationView};
use crate::service::{dropped, left, subscribed, unsubscribed};
use crate::state::{fresh, ConnState, ConnStateView, Reaction, ReactionView};
use crate::topics::{enumerates, everyone, members, ConnId, Table};
use vstd::prelude::*;

verus! {

// Messages.

/// A subscribe message makes the sender a subscriber of every topic that it names, and notes
/// them all. It makes nobody else a subscriber of anything, and ends no subscription.
pub proof fn law_subscribe_message(
    table: Table,
    conn: ConnId,
    state: ConnStateView,
    json: Seq<char>,
    topics: Seq<Seq<char>>,
    topic: Seq<char>,
    other: ConnId,
)
    ensures
        ({
            let msg = IncomingView::Text { json, signal: SignalView::Subscribe { topics } };
            let after = table_after(table, conn, state, msg);
            let noting = state_after(state, msg);
            &&& after.contains_key(topic) == (table.contains_key(topic) || topics.contains(topic))
            &&& (after.contains_key(topic) && after[topic].contains(other)) == ((table.contains_key(
                topic,
            ) && table[topic].contains(other)) || (other == conn && topics.contains(topic)))
            &&& noting.subscribed.contains(topic) == (state.subscribed.contains(topic)
                || topics.contains(topic))
            &&& noting.closed == state.closed
            &&& noting.pong_received == state.pong_received
        }),
{
    assert(topics.to_set().contains(topic) == topics.contains(topic));
}

/// An unsubscribe message takes the sender out of every topic that it names, and out of no
/// other. It ends nobody else's subscription and makes nobody a subscriber. Every topic stays,
/// and the sender's note of them too.
pub proof fn law_unsubscribe_message(
    table: Table,
    conn: ConnId,
    state: ConnStateView,
    json: Seq<char>,
    topics: Seq<Seq<char>>,
    topic: Seq<char>,
    other: ConnId,
)
    ensures
        ({
            let msg = IncomingView::Text { json, signal: SignalView::Unsubscribe { topics } };
            let after = table_after(table, conn, state, msg);
            &&& after.contains_key(topic) == table.contains_key(topic)
            &&& (after.contains_key(topic) && after[topic].contains(other)) == (table.contains_key(
                topic,
            ) && table[topic].contains(other) && !(other == conn && topics.contains(topic)))
            &&& state_after(state, msg) == state
        }),
{
}

/// A publish message changes nothing. It is answered by a publication of its whole text on the
/// topic that it names, for each subscriber of that topic once and for nobody else.
pub proof fn law_publish_message(
    table: Table,
    conn: ConnId,
    state: ConnStateView,
    json: Seq<char>,
    topic: Seq<char>,
    outcome: OutcomeView,
)
    requires
        outcome_of(
            table,
            IncomingView::Text { json, signal: SignalView::Publish { topic } },
            outcome,
        ),
    ensures
        ({
            let msg = IncomingView::Text { json, signal: SignalView::Publish { topic } };
            &&& table_after(table, conn, state, msg) == table
            &&& state_after(state, msg) == state
        }),
        outcome is Publish,
        ({
            let publication = outcome->Publish_0;
            &&& publication.topic == topic
            &&& publication.msg == FrameView::Text(json)
            &&& publication.failed.len() == 0
            &&& forall|other: ConnId| #[trigger]
                publication.pending.contains(other) == (table.contains_key(topic)
                    && table[topic].contains(other))
            &&& forall|i: int, j: int|
                0 <= i < j < publication.pending.len() ==> publication.pending[i]
                    != publication.pending[j]
        }),
{
    let publication = outcome->Publish_0;
    assert forall|other: ConnId| #[trigger]
        publication.pending.contains(other) == (table.contains_key(topic) && table[topic].contains(
            other,
        )) by {
        law_enumeration(publication.pending, members(table, topic), other);
    }
}

/// A close frame takes the sender out of every topic that it has noted, and of no other. Of
/// these topics exactly those stay that somebody else is subscribed to. Nobody else's
/// subscriptions change. The sender has then noted nothing, and counts as gone.
pub proof fn law_close_message(
    table: Table,
    conn: ConnId,
    state: ConnStateView,
    topic: Seq<char>,
    other: ConnId,
)
    ensures
        ({
            let after = table_after(table, conn, state, IncomingView::Close);
            let gone = state_after(state, IncomingView::Close);
            &&& (after.contains_key(topic) && after[topic].contains(other)) == (table.contains_key(
                topic,
            ) && table[topic].contains(other) && !(other == conn && state.subscribed.contains(
                topic,
            )))
            &&& after.contains_key(topic) == (table.contains_key(topic) && (
            !state.subscribed.contains(topic) || exists|c: ConnId|
                c != conn && #[trigger] table[topic].contains(c)))
            &&& gone.closed
            &&& !gone.subscribed.contains(topic)
            &&& gone.pong_received == state.pong_received
        }),
{
    let had = table[topic];
    let kept = had.remove(conn);
    if exists|c: ConnId| c != conn && #[trigger] had.contains(c) {
        let c = choose|c: ConnId| c != conn && #[trigger] had.contains(c);
        assert(kept.contains(c));
    } else {
        assert(kept =~= Set::empty());
    }
}

/// Pings, pongs and binary frames change no subscription and no note of one. A pong, and nothing
/// else, makes the last ping an answered one.
pub proof fn law_other_messages(
    table: Table,
    conn: ConnId,
    state: ConnStateView,
    payload: Seq<u8>,
)
    ensures
        table_after(table, conn, state, IncomingView::Ping(payload)) == table,
        table_after(table, conn, state, IncomingView::Pong) == table,
        table_after(table, conn, state, IncomingView::Binary) == table,
        state_after(state, IncomingView::Ping(payload)) == state,
        state_after(state, IncomingView::Binary) == state,
        state_after(state, IncomingView::Pong).pong_received,
        state_after(state, IncomingView::Pong).closed == state.closed,
        state_after(state, IncomingView::Pong).subscribed == state.subscribed,
{
}

/// Only a subscribe message, an unsubscribe message and a close frame change the table.
pub proof fn law_what_changes_the_table(
    table: Table,
    conn: ConnId,
    state: ConnStateView,
    msg: IncomingView,
)
    requires
        table_after(table, conn, state, msg) != table,
    ensures
        msg is Close || (msg matches IncomingView::Text { json, signal } && signal !is Publish),
{
}

/// Only a pong answers a ping, only a close frame makes the sender count as gone, and only these
/// two and a subscribe message change the state of the sender.
pub proof fn law_what_changes_the_state(state: ConnStateView, msg: IncomingView)
    ensures
        state_after(state, msg).pong_received == (state.pong_received || msg is Pong),
        state_after(state, msg).closed == (state.closed || msg is Close),
        state_after(state, msg) != state ==> msg is Pong || msg is Close || (
        msg matches IncomingView::Text { json, signal } && signal is Subscribe),
{
}

/// A ping is answered with a pong of the same payload; nothing else is answered to the sender,
/// and only publish messages are forwarded.
pub proof fn law_answers(table: Table, msg: IncomingView, outcome: OutcomeView)
    requires
        outcome_of(table, msg, outcome),
    ensures
        msg matches IncomingView::Ping(payload) ==> outcome == OutcomeView::Reply(
            FrameView::Pong(payload),
        ),
        outcome is Reply ==> msg is Ping,
        outcome is Publish <==> (msg matches IncomingView::Text { json, signal }
            && signal is Publish),
        msg is Binary || msg is Pong || msg is Close ==> outcome is Done,
{
}

// Events of a connection.

/// A listening connection processes every message that arrives, whether or not the peer has
/// answered the last ping.
pub proof fn law_arrivals<M, E>(answered: bool, msg: M)
    ensures
        phase_after::<M, E>(answered, PhaseView::Listening, ConnEvent::Arrived(msg))
            == PhaseView::<M, E>::Processing(msg),
{
}

/// A tick sends an empty ping to a peer that has answered the last one, and closes the
/// connection to one that has not.
pub proof fn law_ticks<M, E>(answered: bool)
    ensures
        answered ==> phase_after::<M, E>(answered, PhaseView::Listening, ConnEvent::Tick)
            == PhaseView::<M, E>::Pinging(FrameView::Ping(Seq::empty())),
        !answered ==> phase_after::<M, E>(answered, PhaseView::Listening, ConnEvent::Tick)
            == PhaseView::<M, E>::Closing(Ok(())),
{
}

/// A connection whose peer sends nothing more is closed and ends with the result of closing.
pub proof fn law_end_of_stream<M, E>(before: bool, after: bool, closing: Result<(), E>)
    ensures
        phase_after::<M, E>(
            after,
            phase_after(before, PhaseView::Listening, ConnEvent::Ended),
            ConnEvent::Done(closing),
        ) == PhaseView::<M, E>::Finished(closing),
        phase_after::<M, E>(before, PhaseView::Listening, ConnEvent::Ended) is Closing,
{
    match closing {
        Ok(unit) => {
            assert(unit == ());
        },
        Err(_) => {},
    }
}

/// A connection on which reading fails is closed and ends with the error of closing, or else
/// with that of reading.
pub proof fn law_broken_stream<M, E>(before: bool, after: bool, read: E, closing: E)
    ensures
        phase_after::<M, E>(before, PhaseView::Listening, ConnEvent::Failed(read)) is Closing,
        phase_after::<M, E>(
            after,
            phase_after(before, PhaseView::Listening, ConnEvent::Failed(read)),
            ConnEvent::Done(Ok(())),
        ) == PhaseView::<M, E>::Finished(Err(read)),
        phase_after::<M, E>(
            after,
            phase_after(before, PhaseView::Listening, ConnEvent::Failed(read)),
            ConnEvent::Done(Err(closing)),
        ) == PhaseView::<M, E>::Finished(Err(closing)),
{
}

/// A message that is dealt with leaves the connection listening. One that fails ends it with the
/// error, at once.
pub proof fn law_processing<M, E>(answered: bool, msg: M, error: E)
    ensures
        phase_after::<M, E>(answered, PhaseView::Processing(msg), ConnEvent::Done(Ok(())))
            == PhaseView::<M, E>::Listening,
        phase_after::<M, E>(answered, PhaseView::Processing(msg), ConnEvent::Done(Err(error)))
            == PhaseView::<M, E>::Finished(Err(error)),
{
}

/// A ping that was sent leaves the connection listening. After one that could not be sent it is
/// closed, and ends with the error of closing, or else with that of sending.
pub proof fn law_pinging<M, E>(answered: bool, frame: FrameView, sending: E, closing: E)
    ensures
        phase_after::<M, E>(answered, PhaseView::Pinging(frame), ConnEvent::Done(Ok(())))
            == PhaseView::<M, E>::Listening,
        phase_after::<M, E>(answered, PhaseView::Pinging(frame), ConnEvent::Done(Err(sending)))
            == PhaseView::<M, E>::Closing(Err(sending)),
        phase_after::<M, E>(answered, PhaseView::Closing(Err(sending)), ConnEvent::Done(Ok(())))
            == PhaseView::<M, E>::Finished(Err(sending)),
        phase_after::<M, E>(
            answered,
            PhaseView::Closing(Err(sending)),
            ConnEvent::Done(Err(closing)),
        ) == PhaseView::<M, E>::Finished(Err(closing)),
{
}

/// A connection at work waits for the end of that work, and a listening one for anything else.
pub proof fn law_events_not_awaited<M, E>(
    answered: bool,
    phase: PhaseView<M, E>,
    event: ConnEvent<M, E>,
)
    requires
        (event is Done) == (phase is Listening) || phase is Finished,
    ensures
        phase_after(answered, phase, event) == phase,
        !pings(answered, phase, event),
{
}

/// The peer counts as having to answer from the moment, and only from the moment, that a ping is
/// to be sent to it.
pub proof fn law_pings<M, E>(answered: bool, phase: PhaseView<M, E>, event: ConnEvent<M, E>)
    ensures
        pings(answered, phase, event) <==> phase !is Pinging && phase_after(
            answered,
            phase,
            event,
        ) is Pinging,
        pings(answered, phase, event) ==> answered && phase is Listening && event is Tick,
{
}

/// Whether the peer has answered the last ping matters at ticks only.
pub proof fn law_answers_matter_at_ticks<M, E>(phase: PhaseView<M, E>, event: ConnEvent<M, E>)
    requires
        event !is Tick,
    ensures
        phase_after(true, phase, event) == phase_after(false, phase, event),
{
}

/// An attempt to send that has ended stays so.
pub proof fn law_send_is_final<E>(result: Result<(), E>, outcome: Result<(), E>)
    ensures
        send_after(SendPhase::Finished(result), outcome) == SendPhase::Finished(result),
{
}

// Tables.

/// The subscribers of a topic are what the table holds for it.
pub proof fn law_members(table: Table, topic: Seq<char>, conn: ConnId)
    ensures
        members(table, topic).contains(conn) == (table.contains_key(topic)
            && table[topic].contains(conn)),
{
}

/// Somebody is subscribed to something if and only if some topic has them.
pub proof fn law_everyone(table: Table, conn: ConnId)
    ensures
        everyone(table).contains(conn) <==> exists|topic: Seq<char>| #[trigger]
            table.contains_key(topic) && table[topic].contains(conn),
{
    if everyone(table).contains(conn) {
        let topic = choose|topic: Seq<char>| #[trigger] members(table, topic).contains(conn);
        assert(table.contains_key(topic) && table[topic].contains(conn));
    }
    if exists|topic: Seq<char>| #[trigger] table.contains_key(topic) && table[topic].contains(conn) {
        let topic = choose|topic: Seq<char>| #[trigger]
            table.contains_key(topic) && table[topic].contains(conn);
        assert(members(table, topic).contains(conn));
    }
}

/// Which topics there are after somebody subscribes, unsubscribes or leaves, or is dropped.
pub proof fn law_topics_kept(
    table: Table,
    conn: ConnId,
    list: Seq<Seq<char>>,
    set: Set<Seq<char>>,
    published: Seq<char>,
    failed: Set<ConnId>,
    topic: Seq<char>,
)
    ensures
        subscribed(table, conn, list).contains_key(topic) == (table.contains_key(topic)
            || list.contains(topic)),
        unsubscribed(table, conn, list).contains_key(topic) == table.contains_key(topic),
        left(table, conn, set).contains_key(topic) == (table.contains_key(topic) && (!set.contains(
            topic,
        ) || exists|other: ConnId| other != conn && #[trigger] table[topic].contains(other))),
        dropped(table, published, failed).contains_key(topic) == table.contains_key(topic),
{
    let had = table[topic];
    let kept = had.remove(conn);
    if exists|other: ConnId| other != conn && #[trigger] had.contains(other) {
        let other = choose|other: ConnId| other != conn && #[trigger] had.contains(other);
        assert(kept.contains(other));
    } else {
        assert(kept =~= Set::empty());
    }
}

/// Who is subscribed to a topic after somebody subscribes, unsubscribes or leaves, or is dropped.
pub proof fn law_subscriptions_kept(
    table: Table,
    conn: ConnId,
    list: Seq<Seq<char>>,
    set: Set<Seq<char>>,
    published: Seq<char>,
    failed: Set<ConnId>,
    topic: Seq<char>,
    other: ConnId,
)
    ensures
        ({
            let was = table.contains_key(topic) && table[topic].contains(other);
            let joined = subscribed(table, conn, list);
            let parted = unsubscribed(table, conn, list);
            let gone = left(table, conn, set);
            let reduced = dropped(table, published, failed);
            &&& (joined.contains_key(topic) && joined[topic].contains(other)) == (was || (other
                == conn && list.contains(topic)))
            &&& (parted.contains_key(topic) && parted[topic].contains(other)) == (was && !(other
                == conn && list.contains(topic)))
            &&& (gone.contains_key(topic) && gone[topic].contains(other)) == (was && !(other == conn
                && set.contains(topic)))
            &&& (reduced.contains_key(topic) && reduced[topic].contains(other)) == (was && !(topic
                == published && failed.contains(other)))
        }),
{
    if table.contains_key(topic) && table[topic].contains(other) && other != conn {
        assert(table[topic].remove(conn).contains(other));
    }
}

/// A list that enumerates a set holds each of its elements at exactly one place, and nothing
/// else.
pub proof fn law_enumeration<A>(list: Seq<A>, set: Set<A>, element: A)
    requires
        enumerates(list, set),
    ensures
        list.contains(element) == set.contains(element),
        forall|i: int, j: int|
            0 <= i < list.len() && 0 <= j < list.len() && list[i] == list[j] ==> i == j,
{
    assert(list.to_set().contains(element) == list.contains(element));
}

// Publications.

/// A recipient to whom sending failed, and no other, is noted as such. Either way the recipient
/// is done with, and the rest are still to come.
pub proof fn law_report(publication: PublicationView, delivered: bool)
    requires
        publication.pending.len() > 0,
    ensures
        ({
            let after = publication.reported(delivered);
            let recipient = publication.pending.last();
            &&& after.topic == publication.topic
            &&& after.msg == publication.msg
            &&& after.pending.push(recipient) == publication.pending
            &&& delivered ==> after.failed == publication.failed
            &&& !delivered ==> after.failed == publication.failed.push(recipient)
        }),
{
    assert(publication.reported(delivered).pending.push(publication.pending.last())
        =~= publication.pending);
}

// What the values hold.

/// Frames that hold the same are of one kind, with the same contents.
pub proof fn law_frames(one: Frame, other: Frame)
    requires
        one@ == other@,
    ensures
        match (one, other) {
            (Frame::Text(a), Frame::Text(b)) => a@ == b@,
            (Frame::Binary(a), Frame::Binary(b)) => a@ == b@,
            (Frame::Ping(a), Frame::Ping(b)) => a@ == b@,
            (Frame::Pong(a), Frame::Pong(b)) => a@ == b@,
            (Frame::Close(Some(a)), Frame::Close(Some(b))) => a.code == b.code && a.reason@
                == b.reason@,
            (Frame::Close(None), Frame::Close(None)) => true,
            _ => false,
        },
{
}

/// What a frame of each kind holds.
pub proof fn law_frame_contents(text: String, data: Vec<u8>)
    ensures
        Frame::Text(text)@ == FrameView::Text(text@),
        Frame::Binary(data)@ == FrameView::Binary(data@),
        Frame::Ping(data)@ == FrameView::Ping(data@),
        Frame::Pong(data)@ == FrameView::Pong(data@),
{
}

/// A list of names holds the name at each place.
pub proof fn law_names(slices: Seq<&str>, strings: Seq<String>)
    ensures
        names(slices).len() == slices.len(),
        forall|i: int| 0 <= i < slices.len() ==> #[trigger] names(slices)[i] == slices[i]@,
        owned_names(strings).len() == strings.len(),
        forall|i: int| 0 <= i < strings.len() ==> #[trigger] owned_names(strings)[i] == strings[i]@,
{
}

/// What an arrived frame and the signal in it hold.
pub proof fn law_incoming_contents<'a>(
    json: &'a str,
    topic: &'a str,
    topics: Vec<&'a str>,
    data: Vec<u8>,
)
    ensures
        (Incoming::Text { json, signal: Signal::Publish { topic } })@ == (IncomingView::Text {
            json: json@,
            signal: SignalView::Publish { topic: topic@ },
        }),
        (Incoming::Text { json, signal: Signal::Subscribe { topics } })@ == (IncomingView::Text {
            json: json@,
            signal: SignalView::Subscribe { topics: names(topics@) },
        }),
        (Incoming::Text { json, signal: Signal::Unsubscribe { topics } })@ == (IncomingView::Text {
            json: json@,
            signal: SignalView::Unsubscribe { topics: names(topics@) },
        }),
        Incoming::Ping(data)@ == IncomingView::Ping(data@),
        Incoming::Pong(data)@ == IncomingView::Pong,
        Incoming::Binary(data)@ == IncomingView::Binary,
        Incoming::Close(None)@ == IncomingView::Close,
{
}

/// What reactions and outcomes hold.
pub proof fn law_reaction_contents<'a>(
    topic: &'a str,
    topics: Vec<&'a str>,
    owned: Vec<String>,
    frame: Frame,
    publication: Publication,
)
    ensures
        Reaction::Ignore@ == ReactionView::Ignore,
        Reaction::Subscribe(topics)@ == ReactionView::Subscribe(names(topics@)),
        Reaction::Unsubscribe(topics)@ == ReactionView::Unsubscribe(names(topics@)),
        (Reaction::Publish { topic, msg: frame })@ == (ReactionView::Publish {
            topic: topic@,
            msg: frame@,
        }),
        Reaction::Leave(owned)@ == ReactionView::Leave(owned_names(owned@)),
        Reaction::Reply(frame)@ == ReactionView::Reply(frame@),
        Outcome::Done@ == OutcomeView::Done,
        Outcome::Publish(publication)@ == OutcomeView::Publish(publication@),
        Outcome::Reply(frame)@ == OutcomeView::Reply(frame@),
        publication@.topic == publication.topic@,
        publication@.msg == publication.msg@,
        publication@.pending == publication.pending@,
        publication@.failed == publication.failed@,
{
}

/// What the state of a connection and its phase hold. A connection starts listening, with
/// nothing noted and no ping unanswered.
pub proof fn law_connection_contents<M, E>(
    state: ConnState,
    frame: Frame,
    msg: M,
    result: Result<(), E>,
)
    ensures
        state@.closed == state.closed,
        state@.pong_received == state.pong_received,
        state@.subscribed == state.subscribed_topics@,
        ConnPhase::<M, E>::Listening@ == PhaseView::<M, E>::Listening,
        ConnPhase::<M, E>::Pinging(frame)@ == PhaseView::<M, E>::Pinging(frame@),
        ConnPhase::<M, E>::Processing(msg)@ == PhaseView::<M, E>::Processing(msg),
        ConnPhase::<M, E>::Closing(result)@ == PhaseView::<M, E>::Closing(result),
        ConnPhase::<M, E>::Finished(result)@ == PhaseView::<M, E>::Finished(result),
        !fresh().closed,
        fresh().pong_received,
        fresh().subscribed == Set::<Seq<char>>::empty(),
{
}

} // verus!
