//! What holds of the server as a whole.

use crate::conn::{
    phase_after, pings, send_after, state_after, table_after, ConnEvent, PhaseView, SendPhase,
};
use crate::meaning::{law_pings, law_what_changes_the_state};
use crate::message::{FrameView, IncomingView, SignalView};
use crate::publication::PublicationView;
use crate::service::{dropped, left, subscribed, unsubscribed};
use crate::state::{fresh, ConnStateView};
use crate::topics::{enumerates, everyone, members, ConnId, Table};
use vstd::prelude::*;

verus! {

// Subscriptions.

/// Subscribing adds the connection to the topics that it names and to no other.
pub proof fn law_subscribe(table: Table, conn: ConnId, topics: Seq<Seq<char>>, topic: Seq<char>)
    ensures
        members(subscribed(table, conn, topics), topic) == if topics.contains(topic) {
            members(table, topic).insert(conn)
        } else {
            members(table, topic)
        },
{
}

/// Unsubscribing takes the connection out of the topics that it names and of no other.
pub proof fn law_unsubscribe(table: Table, conn: ConnId, topics: Seq<Seq<char>>, topic: Seq<char>)
    ensures
        members(unsubscribed(table, conn, topics), topic) == if topics.contains(topic) {
            members(table, topic).remove(conn)
        } else {
            members(table, topic)
        },
{
    assert(Set::<ConnId>::empty().remove(conn) =~= Set::<ConnId>::empty());
}

/// Leaving takes the connection out of the topics that it leaves and of no other.
pub proof fn law_leave(table: Table, conn: ConnId, topics: Set<Seq<char>>, topic: Seq<char>)
    ensures
        members(left(table, conn, topics), topic) == if topics.contains(topic) {
            members(table, topic).remove(conn)
        } else {
            members(table, topic)
        },
{
    assert(Set::<ConnId>::empty().remove(conn) =~= Set::<ConnId>::empty());
    if table.contains_key(topic) && table[topic].remove(conn).is_empty() {
        assert(table[topic].remove(conn) =~= Set::<ConnId>::empty());
    }
}

/// To subscribe in two requests is to subscribe in one.
pub proof fn law_subscribe_twice(
    table: Table,
    conn: ConnId,
    first: Seq<Seq<char>>,
    second: Seq<Seq<char>>,
)
    ensures
        subscribed(subscribed(table, conn, first), conn, second) == subscribed(
            table,
            conn,
            first + second,
        ),
{
    let one = subscribed(table, conn, first);
    let two = subscribed(one, conn, second);
    let both = subscribed(table, conn, first + second);
    assert forall|topic: Seq<char>| (first + second).contains(topic) <==> (first.contains(topic)
        || second.contains(topic)) by {
        lemma_concat_contains(first, second, topic);
    }
    assert forall|topic: Seq<char>| two.contains_key(topic) == both.contains_key(topic) && (
    two.contains_key(topic) ==> two[topic] == both[topic]) by {
        lemma_concat_contains(first, second, topic);
        if two.contains_key(topic) {
            assert(two[topic] =~= both[topic]);
        }
    }
    assert(two =~= both);
}

proof fn lemma_concat_contains(first: Seq<Seq<char>>, second: Seq<Seq<char>>, topic: Seq<char>)
    ensures
        (first + second).contains(topic) <==> first.contains(topic) || second.contains(topic),
{
    let both = first + second;
    if first.contains(topic) {
        let i = choose|i: int| 0 <= i < first.len() && first[i] == topic;
        assert(both[i] == topic);
    }
    if second.contains(topic) {
        let i = choose|i: int| 0 <= i < second.len() && second[i] == topic;
        assert(both[first.len() + i] == topic);
    }
}

/// The order in which topics are named, and how often, makes no difference, neither for
/// subscribing nor for unsubscribing.
pub proof fn law_order_of_topics(
    table: Table,
    conn: ConnId,
    one: Seq<Seq<char>>,
    other: Seq<Seq<char>>,
)
    requires
        one.to_set() == other.to_set(),
    ensures
        subscribed(table, conn, one) == subscribed(table, conn, other),
        unsubscribed(table, conn, one) == unsubscribed(table, conn, other),
{
    assert forall|topic: Seq<char>| one.contains(topic) == other.contains(topic) by {
        assert(one.to_set().contains(topic) == one.contains(topic));
        assert(other.to_set().contains(topic) == other.contains(topic));
    }
    assert(subscribed(table, conn, one) =~= subscribed(table, conn, other));
    assert(unsubscribed(table, conn, one) =~= unsubscribed(table, conn, other));
}

/// Unsubscribing undoes subscribing: every topic has the subscribers that it had, if the
/// connection was not among them.
pub proof fn law_unsubscribe_undoes_subscribe(
    table: Table,
    conn: ConnId,
    topics: Seq<Seq<char>>,
    topic: Seq<char>,
)
    requires
        topics.contains(topic) ==> !members(table, topic).contains(conn),
    ensures
        members(unsubscribed(subscribed(table, conn, topics), conn, topics), topic) == members(
            table,
            topic,
        ),
{
    law_subscribe(table, conn, topics, topic);
    law_unsubscribe(subscribed(table, conn, topics), conn, topics, topic);
    assert(members(unsubscribed(subscribed(table, conn, topics), conn, topics), topic) =~= members(
        table,
        topic,
    ));
}

/// Leaving undoes subscribing entirely: the table is what it was, if the connection was
/// subscribed to none of the topics and none of them stood empty.
pub proof fn law_leave_undoes_subscribe(table: Table, conn: ConnId, topics: Seq<Seq<char>>)
    requires
        forall|topic: Seq<char>|
            topics.contains(topic) && #[trigger] table.contains_key(topic) ==> {
                &&& !table[topic].contains(conn)
                &&& !table[topic].is_empty()
            },
    ensures
        left(subscribed(table, conn, topics), conn, topics.to_set()) == table,
{
    let there = subscribed(table, conn, topics);
    let back = left(there, conn, topics.to_set());
    assert forall|topic: Seq<char>| back.contains_key(topic) == table.contains_key(topic) && (
    table.contains_key(topic) ==> back[topic] == table[topic]) by {
        assert(topics.to_set().contains(topic) == topics.contains(topic));
        if topics.contains(topic) {
            assert(there[topic].remove(conn) =~= members(table, topic));
        }
    }
    assert(back =~= table);
}

/// A message changes nobody's subscriptions but those of its sender.
pub proof fn law_only_the_sender(
    table: Table,
    conn: ConnId,
    state: ConnStateView,
    msg: IncomingView,
    other: ConnId,
    topic: Seq<char>,
)
    requires
        other != conn,
    ensures
        members(table_after(table, conn, state, msg), topic).contains(other) == members(
            table,
            topic,
        ).contains(other),
{
    law_leave(table, conn, state.subscribed, topic);
}

// A connection and the topics that it has noted.

/// Whether the connection has noted every topic to which it is subscribed.
pub open spec fn noted(table: Table, conn: ConnId, state: ConnStateView) -> bool {
    forall|topic: Seq<char>| #[trigger]
        members(table, topic).contains(conn) ==> state.subscribed.contains(topic)
}

/// A connection that starts, and that nobody has heard of, has noted all its topics.
pub proof fn law_noted_at_start(table: Table, conn: ConnId)
    requires
        !everyone(table).contains(conn),
    ensures
        noted(table, conn, fresh()),
{
    assert forall|topic: Seq<char>| !(#[trigger] members(table, topic).contains(conn)) by {
        if members(table, topic).contains(conn) {
            assert(everyone(table).contains(conn));
        }
    }
}

/// After each message a connection has still noted all its topics.
pub proof fn law_noted_after_message(
    table: Table,
    conn: ConnId,
    state: ConnStateView,
    msg: IncomingView,
)
    requires
        noted(table, conn, state),
    ensures
        noted(table_after(table, conn, state, msg), conn, state_after(state, msg)),
{
    let after = table_after(table, conn, state, msg);
    assert forall|topic: Seq<char>| #[trigger] members(after, topic).contains(conn) implies state_after(
        state,
        msg,
    ).subscribed.contains(topic) by {
        law_leave(table, conn, state.subscribed, topic);
        if members(table, topic).contains(conn) {
            assert(state.subscribed.contains(topic));
        }
    }
}

/// Messages of others do not make a connection lose track of its topics.
pub proof fn law_noted_after_message_of_another(
    table: Table,
    conn: ConnId,
    state: ConnStateView,
    other: ConnId,
    other_state: ConnStateView,
    msg: IncomingView,
)
    requires
        other != conn,
        noted(table, conn, state),
    ensures
        noted(table_after(table, other, other_state, msg), conn, state),
{
    let after = table_after(table, other, other_state, msg);
    assert forall|topic: Seq<char>| #[trigger]
        members(after, topic).contains(conn) implies state.subscribed.contains(topic) by {
        law_only_the_sender(table, other, other_state, msg, conn, topic);
        assert(members(table, topic).contains(conn));
    }
}

/// Nor do failed deliveries, the closing of a topic, or that of the service.
pub proof fn law_noted_after_removals(
    table: Table,
    conn: ConnId,
    state: ConnStateView,
    topic: Seq<char>,
    failed: Set<ConnId>,
)
    requires
        noted(table, conn, state),
    ensures
        noted(dropped(table, topic, failed), conn, state),
        noted(table.remove(topic), conn, state),
        noted(Table::empty(), conn, state),
{
    assert forall|name: Seq<char>| #[trigger]
        members(dropped(table, topic, failed), name).contains(
            conn,
        ) implies state.subscribed.contains(name) by {
        assert(members(table, name).contains(conn));
    }
    assert forall|name: Seq<char>| #[trigger]
        members(table.remove(topic), name).contains(conn) implies state.subscribed.contains(
        name,
    ) by {
        assert(members(table, name).contains(conn));
    }
}

/// After a close frame the sender is subscribed to nothing, and has noted nothing.
pub proof fn law_close_frame_ends_subscriptions(table: Table, conn: ConnId, state: ConnStateView)
    requires
        noted(table, conn, state),
    ensures
        !everyone(table_after(table, conn, state, IncomingView::Close)).contains(conn),
        state_after(state, IncomingView::Close).subscribed == Set::<Seq<char>>::empty(),
        state_after(state, IncomingView::Close).closed,
{
    let after = table_after(table, conn, state, IncomingView::Close);
    assert forall|topic: Seq<char>| !(#[trigger] members(after, topic).contains(conn)) by {
        law_leave(table, conn, state.subscribed, topic);
        if members(table, topic).contains(conn) {
            assert(state.subscribed.contains(topic));
        }
    }
}

/// A close frame leaves none of the sender's topics behind without subscribers.
pub proof fn law_close_frame_leaves_no_empty_topic(
    table: Table,
    conn: ConnId,
    state: ConnStateView,
    topic: Seq<char>,
)
    requires
        state.subscribed.contains(topic),
        table_after(table, conn, state, IncomingView::Close).contains_key(topic),
    ensures
        !table_after(table, conn, state, IncomingView::Close)[topic].is_empty(),
{
}

// Publications.

/// A publication addresses each of its recipients once and nobody else, keeps its message and
/// its topic, and ends with the list of those to whom sending failed.
pub proof fn law_publication(
    publication: PublicationView,
    recipients: Set<ConnId>,
    delivers: spec_fn(ConnId) -> bool,
)
    requires
        enumerates(publication.pending, recipients),
        publication.failed == Seq::<ConnId>::empty(),
    ensures
        enumerates(publication.addressed(delivers), recipients),
        publication.completed(delivers).topic == publication.topic,
        publication.completed(delivers).msg == publication.msg,
        publication.completed(delivers).pending.len() == 0,
        enumerates(
            publication.completed(delivers).failed,
            recipients.filter(|conn: ConnId| !delivers(conn)),
        ),
{
    let fails = |conn: ConnId| !delivers(conn);
    let pending = publication.pending;
    let done = publication.completed(delivers);
    lemma_completed(publication, delivers);
    assert(publication.addressed(delivers).no_duplicates());
    assert forall|conn: ConnId| publication.addressed(delivers).to_set().contains(conn)
        == recipients.contains(conn) by {
        lemma_reverse_contains(pending, conn);
        assert(pending.to_set().contains(conn) == pending.contains(conn));
    }
    assert(publication.addressed(delivers).to_set() =~= recipients);
    assert(done.failed =~= pending.reverse().filter(fails));
    assert forall|conn: ConnId| done.failed.to_set().contains(conn) == recipients.filter(
        fails,
    ).contains(conn) by {
        lemma_reverse_contains(pending, conn);
        lemma_filter_contains(pending.reverse(), fails, conn);
        assert(pending.to_set().contains(conn) == pending.contains(conn));
    }
    lemma_filter_no_duplicates(pending.reverse(), fails);
    assert(done.failed.to_set() =~= recipients.filter(fails));
}

proof fn lemma_reverse_contains(list: Seq<ConnId>, conn: ConnId)
    ensures
        list.reverse().contains(conn) == list.contains(conn),
{
    if list.contains(conn) {
        let i = choose|i: int| 0 <= i < list.len() && list[i] == conn;
        assert(list.reverse()[list.len() - 1 - i] == conn);
    }
    if list.reverse().contains(conn) {
        let i = choose|i: int| 0 <= i < list.len() && list.reverse()[i] == conn;
        assert(list[list.len() - 1 - i] == conn);
    }
}

proof fn lemma_filter_contains(list: Seq<ConnId>, pred: spec_fn(ConnId) -> bool, conn: ConnId)
    ensures
        list.filter(pred).contains(conn) == (list.contains(conn) && pred(conn)),
    decreases list.len(),
{
    reveal(Seq::filter);
    if list.len() > 0 {
        let rest = list.drop_last();
        lemma_filter_contains(rest, pred, conn);
        assert(list == rest.push(list.last()));
        rest.lemma_push_to_set_commute(list.last());
        assert(list.to_set().contains(conn) == list.contains(conn));
        assert(rest.to_set().contains(conn) == rest.contains(conn));
        let kept = rest.filter(pred);
        kept.lemma_push_to_set_commute(list.last());
        assert(kept.to_set().contains(conn) == kept.contains(conn));
        assert(kept.push(list.last()).to_set().contains(conn) == kept.push(list.last()).contains(
            conn,
        ));
    }
}

proof fn lemma_filter_no_duplicates(list: Seq<ConnId>, pred: spec_fn(ConnId) -> bool)
    requires
        list.no_duplicates(),
    ensures
        list.filter(pred).no_duplicates(),
    decreases list.len(),
{
    reveal(Seq::filter);
    if list.len() > 0 {
        let rest = list.drop_last();
        lemma_filter_no_duplicates(rest, pred);
        lemma_filter_contains(rest, pred, list.last());
        assert(!rest.contains(list.last()));
    }
}

/// The outcome of a publication in closed form.
proof fn lemma_completed(publication: PublicationView, delivers: spec_fn(ConnId) -> bool)
    ensures
        publication.addressed(delivers) == publication.pending.reverse(),
        publication.completed(delivers) == (PublicationView {
            pending: Seq::empty(),
            failed: publication.failed + publication.pending.reverse().filter(
                |conn: ConnId| !delivers(conn),
            ),
            ..publication
        }),
    decreases publication.pending.len(),
{
    let fails = |conn: ConnId| !delivers(conn);
    let pending = publication.pending;
    if pending.len() == 0 {
        reveal(Seq::filter);
        assert(pending.reverse() =~= Seq::<ConnId>::empty());
        assert(publication.completed(delivers) =~= (PublicationView {
            pending: Seq::empty(),
            failed: publication.failed + pending.reverse().filter(fails),
            ..publication
        }));
    } else {
        let conn = pending.last();
        let next = publication.reported(delivers(conn));
        lemma_completed(next, delivers);
        let rest = pending.drop_last().reverse();
        assert(pending.reverse() =~= seq![conn] + rest);
        Seq::filter_distributes_over_add(seq![conn], rest, fails);
        assert(seq![conn].filter(fails) =~= if delivers(conn) {
            Seq::<ConnId>::empty()
        } else {
            seq![conn]
        }) by {
            reveal_with_fuel(Seq::filter, 2);
            assert(seq![conn].drop_last() =~= Seq::<ConnId>::empty());
        }
        assert(publication.completed(delivers) =~= (PublicationView {
            pending: Seq::empty(),
            failed: publication.failed + pending.reverse().filter(fails),
            ..publication
        }));
    }
}

/// Once a publication is delivered, those to whom sending failed are no longer subscribed to
/// its topic, whatever the table has become meanwhile. No other subscription ends, and no topic
/// goes or comes.
pub proof fn law_failed_recipients_are_dropped(
    table: Table,
    publication: PublicationView,
    recipients: Set<ConnId>,
    delivers: spec_fn(ConnId) -> bool,
    topic: Seq<char>,
    conn: ConnId,
)
    requires
        enumerates(publication.pending, recipients),
        publication.failed == Seq::<ConnId>::empty(),
    ensures
        ({
            let done = publication.completed(delivers);
            let after = dropped(table, done.topic, done.failed.to_set());
            &&& after.dom() == table.dom()
            &&& members(after, topic).contains(conn) == (members(table, topic).contains(conn) && !(
            topic == publication.topic && recipients.contains(conn) && !delivers(conn)))
        }),
{
    let done = publication.completed(delivers);
    let after = dropped(table, done.topic, done.failed.to_set());
    law_publication(publication, recipients, delivers);
    assert(after.dom() =~= table.dom());
}

/// Once a publication is delivered, its topic has exactly those subscribers to whom sending
/// succeeded, if nothing else happened meanwhile. Every topic stays, and the others keep their
/// subscribers.
pub proof fn law_reached_recipients_stay(
    table: Table,
    publication: PublicationView,
    delivers: spec_fn(ConnId) -> bool,
    topic: Seq<char>,
)
    requires
        enumerates(publication.pending, members(table, publication.topic)),
        publication.failed == Seq::<ConnId>::empty(),
    ensures
        ({
            let done = publication.completed(delivers);
            let after = dropped(table, done.topic, done.failed.to_set());
            &&& after.dom() == table.dom()
            &&& members(after, topic) == if topic == publication.topic {
                members(table, topic).filter(delivers)
            } else {
                members(table, topic)
            }
        }),
{
    let recipients = members(table, publication.topic);
    let done = publication.completed(delivers);
    let after = dropped(table, done.topic, done.failed.to_set());
    law_publication(publication, recipients, delivers);
    assert(after.dom() =~= table.dom());
    if topic == publication.topic {
        assert(members(after, topic) =~= recipients.filter(delivers));
    }
}

/// A publication that reaches everybody changes no subscription.
pub proof fn law_success_changes_nothing(
    table: Table,
    publication: PublicationView,
    recipients: Set<ConnId>,
    delivers: spec_fn(ConnId) -> bool,
)
    requires
        enumerates(publication.pending, recipients),
        publication.failed == Seq::<ConnId>::empty(),
        forall|conn: ConnId| recipients.contains(conn) ==> #[trigger] delivers(conn),
    ensures
        publication.completed(delivers).failed.len() == 0,
        dropped(
            table,
            publication.topic,
            publication.completed(delivers).failed.to_set(),
        ) == table,
{
    let failed = publication.completed(delivers).failed;
    law_publication(publication, recipients, delivers);
    if failed.len() > 0 {
        assert(failed.to_set().contains(failed[0]));
        assert(recipients.contains(failed[0]) && !delivers(failed[0]));
    }
    if table.contains_key(publication.topic) {
        assert(table[publication.topic].difference(failed.to_set())
            =~= table[publication.topic]);
    }
    assert(dropped(table, publication.topic, failed.to_set()) =~= table);
}

/// A delivery whose topic was closed meanwhile does not bring the topic back.
pub proof fn law_closed_topic_stays_closed(table: Table, topic: Seq<char>, failed: Set<ConnId>)
    ensures
        dropped(table.remove(topic), topic, failed) == table.remove(topic),
{
}

/// Closing a topic ends the subscriptions to it and no others.
pub proof fn law_close_topic(table: Table, closed: Seq<char>, topic: Seq<char>)
    ensures
        members(table.remove(closed), topic) == if topic == closed {
            Set::empty()
        } else {
            members(table, topic)
        },
{
}

// Everything that can happen.

/// One thing that happens to the server.
pub enum Step {
    /// A message of the peer of `conn` is dealt with.
    Message { conn: ConnId, msg: IncomingView },
    /// Recipients of a publication on `topic` could not be reached and are dropped.
    Failures { topic: Seq<char>, failed: Set<ConnId> },
    /// `topic` is closed.
    TopicClosed { topic: Seq<char> },
    /// The service is closed.
    Closed,
}

/// The table of topics, and the state of each connection.
pub struct Server {
    pub table: Table,
    pub states: spec_fn(ConnId) -> ConnStateView,
}

/// The server once `history` has happened to it.
pub open spec fn server_after(history: Seq<Step>) -> Server
    decreases history.len(),
{
    if history.len() == 0 {
        Server { table: Table::empty(), states: |conn: ConnId| fresh() }
    } else {
        let before = server_after(history.drop_last());
        match history.last() {
            Step::Message { conn, msg } => Server {
                table: table_after(before.table, conn, (before.states)(conn), msg),
                states: |c: ConnId|
                    if c == conn {
                        state_after((before.states)(conn), msg)
                    } else {
                        (before.states)(c)
                    },
            },
            Step::Failures { topic, failed } => Server {
                table: dropped(before.table, topic, failed),
                ..before
            },
            Step::TopicClosed { topic } => Server { table: before.table.remove(topic), ..before },
            Step::Closed => Server { table: Table::empty(), ..before },
        }
    }
}

/// Whatever has happened, every connection has noted every topic to which it is subscribed, so
/// that a close frame of any peer ends all its subscriptions.
pub proof fn law_noted_always(history: Seq<Step>, conn: ConnId)
    ensures
        noted(server_after(history).table, conn, (server_after(history).states)(conn)),
        !everyone(
            server_after(history.push(Step::Message { conn, msg: IncomingView::Close })).table,
        ).contains(conn),
    decreases history.len(),
{
    let server = server_after(history);
    let state = (server.states)(conn);
    if history.len() == 0 {
        law_noted_at_start(Table::empty(), conn);
    } else {
        let before = server_after(history.drop_last());
        let state_before = (before.states)(conn);
        law_noted_always(history.drop_last(), conn);
        match history.last() {
            Step::Message { conn: sender, msg } => {
                if sender == conn {
                    law_noted_after_message(before.table, conn, state_before, msg);
                } else {
                    law_noted_after_message_of_another(
                        before.table,
                        conn,
                        state_before,
                        sender,
                        (before.states)(sender),
                        msg,
                    );
                }
            },
            Step::Failures { topic, failed } => {
                law_noted_after_removals(before.table, conn, state_before, topic, failed);
            },
            Step::TopicClosed { topic } => {
                law_noted_after_removals(before.table, conn, state_before, topic, Set::empty());
            },
            Step::Closed => {},
        }
    }
    law_close_frame_ends_subscriptions(server.table, conn, state);
    let closing = history.push(Step::Message { conn, msg: IncomingView::Close });
    assert(closing.drop_last() =~= history);
}

/// Whether a connection is subscribed to a topic is decided by the last thing that bears on it.
/// Its own request to subscribe there makes it so. Its own request to unsubscribe from there, its
/// own close frame, a delivery there that did not reach it, and the closing of the topic or of
/// the service end it. Nothing else matters.
pub proof fn law_membership(history: Seq<Step>, step: Step, conn: ConnId, topic: Seq<char>)
    ensures
        ({
            let before = server_after(history).table;
            let after = server_after(history.push(step)).table;
            let was = before.contains_key(topic) && before[topic].contains(conn);
            let is = after.contains_key(topic) && after[topic].contains(conn);
            is == match step {
                Step::Message { conn: sender, msg } => if sender != conn {
                    was
                } else {
                    match msg {
                        IncomingView::Text {
                            json,
                            signal: SignalView::Subscribe { topics },
                        } => was || topics.contains(topic),
                        IncomingView::Text {
                            json,
                            signal: SignalView::Unsubscribe { topics },
                        } => was && !topics.contains(topic),
                        IncomingView::Close => false,
                        _ => was,
                    }
                },
                Step::Failures { topic: published, failed } => was && !(published == topic
                    && failed.contains(conn)),
                Step::TopicClosed { topic: closed } => was && closed != topic,
                Step::Closed => false,
            }
        }),
{
    let before = server_after(history);
    let after = server_after(history.push(step)).table;
    assert(history.push(step).drop_last() =~= history);
    law_noted_always(history, conn);
    match step {
        Step::Message { conn: sender, msg } => {
            if sender != conn {
                law_only_the_sender(
                    before.table,
                    sender,
                    (before.states)(sender),
                    msg,
                    conn,
                    topic,
                );
            } else if msg is Close {
                if after.contains_key(topic) && after[topic].contains(conn) {
                    assert(members(after, topic).contains(conn));
                    assert(everyone(after).contains(conn));
                }
            }
        },
        _ => {},
    }
}

/// A topic comes into being when somebody asks for it. It goes when it is closed, when the
/// service is, and when the close frame of somebody who asked for it leaves it without
/// subscribers. Nothing else makes a topic come or go.
pub proof fn law_topic_lifetime(history: Seq<Step>, step: Step, topic: Seq<char>)
    ensures
        ({
            let before = server_after(history);
            let was = before.table.contains_key(topic);
            let is = server_after(history.push(step)).table.contains_key(topic);
            is == match step {
                Step::Message { conn, msg } => match msg {
                    IncomingView::Text { json, signal: SignalView::Subscribe { topics } } => was
                        || topics.contains(topic),
                    IncomingView::Close => was && (!(before.states)(conn).subscribed.contains(topic)
                        || exists|other: ConnId|
                        other != conn && #[trigger] before.table[topic].contains(other)),
                    _ => was,
                },
                Step::Failures { topic: published, failed } => was,
                Step::TopicClosed { topic: closed } => was && closed != topic,
                Step::Closed => false,
            }
        }),
{
    let before = server_after(history);
    assert(history.push(step).drop_last() =~= history);
    match step {
        Step::Message { conn, msg } => {
            if msg is Close && before.table.contains_key(topic) {
                let had = before.table[topic];
                let kept = had.remove(conn);
                if exists|other: ConnId| other != conn && #[trigger] had.contains(other) {
                    let other = choose|other: ConnId| other != conn && #[trigger] had.contains(other);
                    assert(kept.contains(other));
                } else {
                    assert(kept =~= Set::empty());
                }
            }
        },
        _ => {},
    }
}

// The life of a connection.

/// The state of a connection once a series of messages is dealt with.
pub open spec fn state_after_all(state: ConnStateView, msgs: Seq<IncomingView>) -> ConnStateView
    decreases msgs.len(),
{
    if msgs.len() == 0 {
        state
    } else {
        state_after(state_after_all(state, msgs.drop_last()), msgs.last())
    }
}

proof fn lemma_answered(state: ConnStateView, msgs: Seq<IncomingView>)
    ensures
        state_after_all(state, msgs).pong_received == (state.pong_received || msgs.contains(
            IncomingView::Pong,
        )),
    decreases msgs.len(),
{
    if msgs.len() > 0 {
        let rest = msgs.drop_last();
        lemma_answered(state, rest);
        if rest.contains(IncomingView::Pong) {
            let i = choose|i: int| 0 <= i < rest.len() && rest[i] == IncomingView::Pong;
            assert(msgs[i] == IncomingView::Pong);
        }
        if msgs.contains(IncomingView::Pong) && msgs.last() != IncomingView::Pong {
            let i = choose|i: int| 0 <= i < msgs.len() && msgs[i] == IncomingView::Pong;
            assert(rest[i] == IncomingView::Pong);
        }
        assert(msgs.last() == msgs[msgs.len() - 1]);
    }
}

/// A peer that has been pinged is pinged again at the next tick if a pong was among the
/// messages that it sent meanwhile. If none was, the connection is closed.
pub proof fn law_heartbeat<M, E>(state: ConnStateView, msgs: Seq<IncomingView>)
    requires
        !state.pong_received,
    ensures
        phase_after::<M, E>(
            state_after_all(state, msgs).pong_received,
            PhaseView::Listening,
            ConnEvent::Tick,
        ) == if msgs.contains(IncomingView::Pong) {
            PhaseView::<M, E>::Pinging(FrameView::Ping(Seq::empty()))
        } else {
            PhaseView::<M, E>::Closing(Ok(()))
        },
{
    lemma_answered(state, msgs);
}

/// The first tick pings the peer, whatever it has sent before.
pub proof fn law_first_tick<M, E>(msgs: Seq<IncomingView>)
    ensures
        phase_after::<M, E>(
            state_after_all(fresh(), msgs).pong_received,
            PhaseView::Listening,
            ConnEvent::Tick,
        ) == PhaseView::<M, E>::Pinging(FrameView::Ping(Seq::empty())),
{
    lemma_answered(fresh(), msgs);
}

/// A connection: its state, and what it is at.
pub struct Conn<E> {
    pub state: ConnStateView,
    pub phase: PhaseView<IncomingView, E>,
}

/// A connection once `events` have happened to it.
pub open spec fn conn_after<E>(events: Seq<ConnEvent<IncomingView, E>>) -> Conn<E>
    decreases events.len(),
{
    if events.len() == 0 {
        Conn { state: fresh(), phase: PhaseView::Listening }
    } else {
        let before = conn_after(events.drop_last());
        let event = events.last();
        Conn {
            state: match before.phase {
                PhaseView::Processing(msg) => if event is Done {
                    state_after(before.state, msg)
                } else {
                    before.state
                },
                _ => if pings(before.state.pong_received, before.phase, event) {
                    ConnStateView { pong_received: false, ..before.state }
                } else {
                    before.state
                },
            },
            phase: phase_after(before.state.pong_received, before.phase, event),
        }
    }
}

/// Whether the event at `i` makes the server send a ping to the peer.
pub open spec fn pinged_at<E>(events: Seq<ConnEvent<IncomingView, E>>, i: int) -> bool {
    &&& conn_after(events.take(i)).phase !is Pinging
    &&& conn_after(events.take(i + 1)).phase is Pinging
}

/// Whether a pong of the peer is dealt with by the event at `i`.
pub open spec fn answered_at<E>(events: Seq<ConnEvent<IncomingView, E>>, i: int) -> bool {
    conn_after(events.take(i)).phase == PhaseView::<IncomingView, E>::Processing(
        IncomingView::Pong,
    ) && events[i] is Done
}

/// Whether every ping was followed by a pong.
pub open spec fn all_answered<E>(events: Seq<ConnEvent<IncomingView, E>>) -> bool {
    forall|i: int|
        0 <= i < events.len() && #[trigger] pinged_at(events, i) ==> exists|j: int|
            i < j < events.len() && #[trigger] answered_at(events, j)
}

proof fn lemma_all_answered<E>(events: Seq<ConnEvent<IncomingView, E>>)
    ensures
        conn_after(events).state.pong_received == all_answered(events),
    decreases events.len(),
{
    if events.len() > 0 {
        let rest = events.drop_last();
        let last = events.len() - 1;
        let before = conn_after(rest);
        let now = conn_after(events);
        lemma_all_answered(rest);
        assert(events.take(last) =~= rest);
        assert(events.take(last + 1) =~= events);
        assert(now.state.pong_received == ((before.state.pong_received || answered_at(events, last))
            && !pinged_at(events, last))) by {
            law_pings(before.state.pong_received, before.phase, events[last]);
            match before.phase {
                PhaseView::Processing(msg) => {
                    law_what_changes_the_state(before.state, msg);
                },
                _ => {},
            }
        }
        assert forall|i: int| 0 <= i < last implies (#[trigger] pinged_at(events, i)) == pinged_at(
            rest,
            i,
        ) by {
            assert(events.take(i) =~= rest.take(i));
            assert(events.take(i + 1) =~= rest.take(i + 1));
        }
        assert forall|i: int| 0 <= i < last implies (#[trigger] answered_at(events, i))
            == answered_at(rest, i) by {
            assert(events.take(i) =~= rest.take(i));
        }
        if pinged_at(events, last) {
            assert(!all_answered(events));
        } else if answered_at(events, last) {
            assert(all_answered(events));
        } else {
            if all_answered(rest) {
                assert forall|i: int| 0 <= i < events.len() && #[trigger] pinged_at(
                    events,
                    i,
                ) implies exists|j: int| i < j < events.len() && #[trigger] answered_at(
                    events,
                    j,
                ) by {
                    assert(pinged_at(rest, i));
                    let j = choose|j: int| i < j < rest.len() && #[trigger] answered_at(rest, j);
                    assert(answered_at(events, j));
                }
            }
            if all_answered(events) {
                assert forall|i: int| 0 <= i < rest.len() && #[trigger] pinged_at(
                    rest,
                    i,
                ) implies exists|j: int| i < j < rest.len() && #[trigger] answered_at(
                    rest,
                    j,
                ) by {
                    assert(pinged_at(events, i));
                    let j = choose|j: int|
                        i < j < events.len() && #[trigger] answered_at(events, j);
                    assert(answered_at(rest, j));
                }
            }
        }
    }
}

/// Whatever has happened to a connection that listens, the next tick pings the peer if it has
/// answered every ping so far, and closes the connection if some ping went unanswered.
pub proof fn law_silent_peers_are_closed<E>(events: Seq<ConnEvent<IncomingView, E>>)
    requires
        conn_after(events).phase is Listening,
    ensures
        conn_after(events.push(ConnEvent::Tick)).phase == if all_answered(events) {
            PhaseView::<IncomingView, E>::Pinging(FrameView::Ping(Seq::empty()))
        } else {
            PhaseView::<IncomingView, E>::Closing(Ok(()))
        },
{
    lemma_all_answered(events);
    assert(events.push(ConnEvent::Tick).drop_last() =~= events);
}

/// The messages that arrived while the connection listened, in order.
pub open spec fn arrivals<E>(events: Seq<ConnEvent<IncomingView, E>>) -> Seq<IncomingView>
    decreases events.len(),
{
    if events.len() == 0 {
        Seq::empty()
    } else {
        let rest = events.drop_last();
        match events.last() {
            ConnEvent::Arrived(msg) => if conn_after(rest).phase is Listening {
                arrivals(rest).push(msg)
            } else {
                arrivals(rest)
            },
            _ => arrivals(rest),
        }
    }
}

/// The messages that were dealt with, in order.
pub open spec fn processed<E>(events: Seq<ConnEvent<IncomingView, E>>) -> Seq<IncomingView>
    decreases events.len(),
{
    if events.len() == 0 {
        Seq::empty()
    } else {
        let rest = events.drop_last();
        match conn_after(rest).phase {
            PhaseView::Processing(msg) => if events.last() is Done {
                processed(rest).push(msg)
            } else {
                processed(rest)
            },
            _ => processed(rest),
        }
    }
}

/// The messages that are dealt with are exactly those that arrived while the connection
/// listened, in order; the last one may still be at work.
pub proof fn law_every_arrival_is_processed<E>(events: Seq<ConnEvent<IncomingView, E>>)
    ensures
        arrivals(events) == match conn_after(events).phase {
            PhaseView::Processing(msg) => processed(events).push(msg),
            _ => processed(events),
        },
    decreases events.len(),
{
    if events.len() > 0 {
        law_every_arrival_is_processed(events.drop_last());
    }
}

/// A connection has noted the topics, and whether the peer is gone, that the messages dealt
/// with say, and nothing else changes that.
pub proof fn law_state_follows_the_messages<E>(events: Seq<ConnEvent<IncomingView, E>>)
    ensures
        conn_after(events).state.subscribed == state_after_all(
            fresh(),
            processed(events),
        ).subscribed,
        conn_after(events).state.closed == processed(events).contains(IncomingView::Close),
    decreases events.len(),
{
    if events.len() > 0 {
        let rest = events.drop_last();
        law_state_follows_the_messages(rest);
        match conn_after(rest).phase {
            PhaseView::Processing(msg) => {
                if events.last() is Done {
                    let before = processed(rest);
                    let now = before.push(msg);
                    assert(now.drop_last() =~= before);
                    assert(now.last() == msg);
                    if before.contains(IncomingView::Close) {
                        let i = choose|i: int|
                            0 <= i < before.len() && before[i] == IncomingView::Close;
                        assert(now[i] == IncomingView::Close);
                    }
                    if now.contains(IncomingView::Close) && msg != IncomingView::Close {
                        let i = choose|i: int| 0 <= i < now.len() && now[i] == IncomingView::Close;
                        assert(before[i] == IncomingView::Close);
                    }
                }
            },
            _ => {},
        }
    }
}

/// There is one way to succeed.
proof fn lemma_unit<E>(outcome: Result<(), E>)
    ensures
        outcome is Ok ==> outcome == Ok::<(), E>(()),
{
    match outcome {
        Ok(unit) => {
            assert(unit == ());
        },
        Err(_) => {},
    }
}

/// How a listening connection goes on, whatever has happened before. When the peer sends
/// nothing more or reading fails, it ends once it is closed, with the error of closing if there
/// is one, else with the error of reading if there is one. A message is dealt with; the
/// connection then listens again, or ends with the error that came of it.
pub proof fn law_listening<E>(
    events: Seq<ConnEvent<IncomingView, E>>,
    msg: IncomingView,
    read: E,
    outcome: Result<(), E>,
)
    requires
        conn_after(events).phase is Listening,
    ensures
        conn_after(events.push(ConnEvent::Ended).push(ConnEvent::Done(outcome))).phase
            == PhaseView::<IncomingView, E>::Finished(outcome),
        conn_after(events.push(ConnEvent::Failed(read)).push(ConnEvent::Done(outcome))).phase
            == PhaseView::<IncomingView, E>::Finished(
            match outcome {
                Ok(_) => Err(read),
                Err(closing) => Err(closing),
            },
        ),
        conn_after(events.push(ConnEvent::Arrived(msg))).phase == PhaseView::<
            IncomingView,
            E,
        >::Processing(msg),
        conn_after(events.push(ConnEvent::Arrived(msg)).push(ConnEvent::Done(outcome))).phase == (
        match outcome {
            Ok(_) => PhaseView::<IncomingView, E>::Listening,
            Err(e) => PhaseView::<IncomingView, E>::Finished(Err(e)),
        }),
        conn_after(events.push(ConnEvent::Arrived(msg)).push(ConnEvent::Done(outcome))).state
            == state_after(conn_after(events).state, msg),
        conn_after(events.push(ConnEvent::Ended)).state == conn_after(events).state,
        conn_after(events.push(ConnEvent::Failed(read))).state == conn_after(events).state,
{
    reveal_with_fuel(conn_after, 3);
    lemma_unit(outcome);
    let done = ConnEvent::<IncomingView, E>::Done(outcome);
    assert(events.push(ConnEvent::Ended).drop_last() =~= events);
    assert(events.push(ConnEvent::Ended).push(done).drop_last() =~= events.push(ConnEvent::Ended));
    assert(events.push(ConnEvent::Failed(read)).drop_last() =~= events);
    assert(events.push(ConnEvent::Failed(read)).push(done).drop_last() =~= events.push(
        ConnEvent::Failed(read),
    ));
    assert(events.push(ConnEvent::Arrived(msg)).drop_last() =~= events);
    assert(events.push(ConnEvent::Arrived(msg)).push(done).drop_last() =~= events.push(
        ConnEvent::Arrived(msg),
    ));
}

/// How a connection whose peer has answered every ping goes on after a tick, whatever has
/// happened before. If the ping is sent, it listens again. If not, it ends once it is closed,
/// with the error of closing if there is one, else with that of sending.
pub proof fn law_ping<E>(
    events: Seq<ConnEvent<IncomingView, E>>,
    sending: E,
    closing: Result<(), E>,
)
    requires
        conn_after(events).phase is Listening,
        all_answered(events),
    ensures
        conn_after(events.push(ConnEvent::Tick).push(ConnEvent::Done(Ok(())))).phase
            == PhaseView::<IncomingView, E>::Listening,
        conn_after(
            events.push(ConnEvent::Tick).push(ConnEvent::Done(Err(sending))).push(
                ConnEvent::Done(closing),
            ),
        ).phase == PhaseView::<IncomingView, E>::Finished(
            match closing {
                Ok(_) => Err(sending),
                Err(e) => Err(e),
            },
        ),
{
    let ticked = events.push(ConnEvent::Tick);
    let failed = ticked.push(ConnEvent::Done(Err(sending)));
    law_silent_peers_are_closed(events);
    assert(ticked.push(ConnEvent::Done(Ok(()))).drop_last() =~= ticked);
    assert(failed.drop_last() =~= ticked);
    assert(conn_after(failed).phase == PhaseView::<IncomingView, E>::Closing(Err(sending)));
    assert(failed.push(ConnEvent::Done(closing)).drop_last() =~= failed);
}

/// How a connection with an unanswered ping goes on after a tick, whatever has happened before:
/// it ends once it is closed, with the result of closing.
pub proof fn law_missed_pong<E>(
    events: Seq<ConnEvent<IncomingView, E>>,
    closing: Result<(), E>,
)
    requires
        conn_after(events).phase is Listening,
        !all_answered(events),
    ensures
        conn_after(events.push(ConnEvent::Tick).push(ConnEvent::Done(closing))).phase
            == PhaseView::<IncomingView, E>::Finished(closing),
{
    let ticked = events.push(ConnEvent::Tick);
    lemma_unit(closing);
    law_silent_peers_are_closed(events);
    assert(ticked.push(ConnEvent::Done(closing)).drop_last() =~= ticked);
}

/// A connection ends in one of two ways: it was closed, and ends with the error of closing or
/// else with the result it was to end with; or a message could not be processed, and it ends
/// with that error.
pub proof fn law_end<M, E>(
    answered: bool,
    phase: PhaseView<M, E>,
    event: ConnEvent<M, E>,
    result: Result<(), E>,
)
    requires
        phase !is Finished,
        phase_after(answered, phase, event) == PhaseView::<M, E>::Finished(result),
    ensures
        ({
            ||| phase matches PhaseView::Closing(intended) && event matches ConnEvent::Done(closing)
                && result == (match closing {
                Ok(_) => intended,
                Err(e) => Err(e),
            })
            ||| phase is Processing && event == ConnEvent::<M, E>::Done(result) && result is Err
        }),
{
}

/// A connection that has ended stays so.
pub proof fn law_end_is_final<M, E>(
    answered: bool,
    result: Result<(), E>,
    event: ConnEvent<M, E>,
)
    ensures
        phase_after(answered, PhaseView::Finished(result), event) == PhaseView::<M, E>::Finished(
            result,
        ),
{
}

/// An attempt to send succeeds if and only if sending does. If sending fails, the connection is
/// closed, and the attempt fails however that went.
pub proof fn law_send<E>(sending: Result<(), E>, closing: Result<(), E>)
    ensures
        sending is Ok ==> send_after(SendPhase::Sending, sending) == SendPhase::<E>::Finished(
            Ok(()),
        ),
        sending matches Err(e) ==> {
            &&& send_after(SendPhase::Sending, sending) == SendPhase::Closing(e)
            &&& send_after(send_after(SendPhase::Sending, sending), closing)
                == SendPhase::Finished(
                match closing {
                    Ok(_) => Err(e),
                    Err(c) => Err(c),
                },
            )
        },
{
}

} // verus!
