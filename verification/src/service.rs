//! The signaling service: subscriptions, publications, and the closing of topics.

use crate::message::{names, owned_names, Frame};
use crate::publication::Publication;
use crate::state::{ConnState, ConnStateView};
use crate::topics::{enumerates, everyone, members, to_vec, ConnId, Table, Topics};
use std::collections::HashSet;
use vstd::prelude::*;

verus! {

/// The table once `conn` is subscribed to each of `topics`; those that are not there yet are
/// added.
pub open spec fn subscribed(table: Table, conn: ConnId, topics: Seq<Seq<char>>) -> Table {
    Map::new(
        |topic: Seq<char>| table.contains_key(topic) || topics.contains(topic),
        |topic: Seq<char>|
            if topics.contains(topic) {
                members(table, topic).insert(conn)
            } else {
                table[topic]
            },
    )
}

/// The table once `conn` is taken out of each of `topics`. All topics stay.
pub open spec fn unsubscribed(table: Table, conn: ConnId, topics: Seq<Seq<char>>) -> Table {
    Map::new(
        |topic: Seq<char>| table.contains_key(topic),
        |topic: Seq<char>|
            if topics.contains(topic) {
                table[topic].remove(conn)
            } else {
                table[topic]
            },
    )
}

/// The table once `conn`, who is gone, is taken out of each of `topics`. Those of them that
/// then have no subscribers go too.
pub open spec fn left(table: Table, conn: ConnId, topics: Set<Seq<char>>) -> Table {
    Map::new(
        |topic: Seq<char>|
            table.contains_key(topic) && !(topics.contains(topic) && table[topic].remove(
                conn,
            ).is_empty()),
        |topic: Seq<char>|
            if topics.contains(topic) {
                table[topic].remove(conn)
            } else {
                table[topic]
            },
    )
}

/// The table once the connections `failed` are taken out of `topic`. The topic stays.
pub open spec fn dropped(table: Table, topic: Seq<char>, failed: Set<ConnId>) -> Table {
    if table.contains_key(topic) {
        table.insert(topic, table[topic].difference(failed))
    } else {
        table
    }
}

/// A list that grew by one name holds that name beside those that it held.
proof fn lemma_push_contains(list: Seq<Seq<char>>, new: Seq<char>, name: Seq<char>)
    ensures
        list.push(new).contains(name) <==> list.contains(name) || name == new,
{
    list.lemma_push_to_set_commute(new);
    assert(list.push(new).contains(name) <==> list.push(new).to_set().contains(name));
    assert(list.contains(name) <==> list.to_set().contains(name));
}

/// Subscribing to one topic more.
proof fn lemma_subscribed_push(table: Table, conn: ConnId, topics: Seq<Seq<char>>, topic: Seq<char>)
    ensures
        subscribed(table, conn, topics.push(topic)) == subscribed(table, conn, topics).insert(
            topic,
            members(subscribed(table, conn, topics), topic).insert(conn),
        ),
{
    assert forall|name: Seq<char>| topics.push(topic).contains(name) <==> #[trigger]
        topics.contains(name) || name == topic by {
        lemma_push_contains(topics, topic, name);
    }
    let one = subscribed(table, conn, topics);
    let more = subscribed(table, conn, topics.push(topic));
    let next = one.insert(topic, members(one, topic).insert(conn));
    assert forall|name: Seq<char>| more.contains_key(name) == next.contains_key(name) && (
    more.contains_key(name) ==> more[name] == next[name]) by {
        lemma_push_contains(topics, topic, name);
        if name == topic {
            assert(more[name] =~= next[name]);
        }
    }
    assert(more =~= next);
}

/// Unsubscribing from one topic more.
proof fn lemma_unsubscribed_push(
    table: Table,
    conn: ConnId,
    topics: Seq<Seq<char>>,
    topic: Seq<char>,
)
    ensures
        unsubscribed(table, conn, topics.push(topic)) == if table.contains_key(topic) {
            let one = unsubscribed(table, conn, topics);
            one.insert(topic, one[topic].remove(conn))
        } else {
            unsubscribed(table, conn, topics)
        },
{
    let one = unsubscribed(table, conn, topics);
    let more = unsubscribed(table, conn, topics.push(topic));
    let next = if table.contains_key(topic) {
        one.insert(topic, one[topic].remove(conn))
    } else {
        one
    };
    assert forall|name: Seq<char>| more.contains_key(name) == next.contains_key(name) && (
    more.contains_key(name) ==> more[name] == next[name]) by {
        lemma_push_contains(topics, topic, name);
        if more.contains_key(name) {
            assert(more[name] =~= next[name]);
        }
    }
    assert(more =~= next);
}

/// Leaving one topic more.
proof fn lemma_left_insert(table: Table, conn: ConnId, topics: Set<Seq<char>>, topic: Seq<char>)
    ensures
        left(table, conn, topics.insert(topic)) == {
            let one = left(table, conn, topics);
            if !one.contains_key(topic) {
                one
            } else if one[topic].remove(conn).is_empty() {
                one.remove(topic)
            } else {
                one.insert(topic, one[topic].remove(conn))
            }
        },
{
    let one = left(table, conn, topics);
    let more = left(table, conn, topics.insert(topic));
    if table.contains_key(topic) {
        assert(table[topic].remove(conn).remove(conn) =~= table[topic].remove(conn));
    }
    let next = if !one.contains_key(topic) {
        one
    } else if one[topic].remove(conn).is_empty() {
        one.remove(topic)
    } else {
        one.insert(topic, one[topic].remove(conn))
    };
    assert(more =~= next);
}

/// Lets y-webrtc clients that subscribe to the same topics find each other.
pub struct SignalingService {
    pub topics: Topics,
}

impl View for SignalingService {
    type V = Table;

    open spec fn view(&self) -> Table {
        self.topics@
    }
}

impl Default for SignalingService {
    fn default() -> (service: SignalingService)
        ensures
            service.wf(),
            service@ == Table::empty(),
    {
        SignalingService::new()
    }
}

impl SignalingService {
    /// The table of topics is well formed.
    pub open spec fn wf(&self) -> bool {
        self.topics.wf()
    }

    /// A service without topics.
    pub fn new() -> (service: SignalingService)
        ensures
            service.wf(),
            service@ == Table::empty(),
    {
        SignalingService { topics: Topics::new() }
    }

    /// Subscribes `conn` to each of `topics`, and notes them in the state of the connection.
    pub fn subscribe(&mut self, conn: ConnId, topics: &Vec<&str>, state: &mut ConnState)
        requires
            old(self).wf(),
            old(state).wf(),
        ensures
            final(self).wf(),
            final(self)@ == subscribed(old(self)@, conn, names(topics@)),
            final(state).wf(),
            final(state)@ == (ConnStateView {
                subscribed: old(state)@.subscribed.union(names(topics@).to_set()),
                ..old(state)@
            }),
    {
        let ghost all = names(topics@);
        let mut i: usize = 0;
        assert(self@ =~= subscribed(old(self)@, conn, all.take(0)));
        assert(state@.subscribed =~= old(state)@.subscribed.union(all.take(0).to_set()));
        while i < topics.len()
            invariant
                all == names(topics@),
                i <= topics@.len(),
                self.wf(),
                self@ == subscribed(old(self)@, conn, all.take(i as int)),
                state.wf(),
                state@.closed == old(state)@.closed,
                state@.pong_received == old(state)@.pong_received,
                state@.subscribed == old(state)@.subscribed.union(all.take(i as int).to_set()),
            decreases topics@.len() - i,
        {
            let topic = topics[i];
            let ghost before = all.take(i as int);
            let ghost table = self@;
            let ghost noted = state@.subscribed;
            state.subscribed_topics.insert(topic);
            if self.topics.contains_key(topic) {
                self.topics.add(topic, conn);
            } else {
                let mut subscribers: HashSet<ConnId> = HashSet::new();
                subscribers.insert(conn);
                self.topics.insert(topic.to_owned(), subscribers);
            }
            proof {
                assert(all.take(i + 1) == before.push(topic@));
                before.lemma_push_to_set_commute(topic@);
                lemma_subscribed_push(old(self)@, conn, before, topic@);
                assert(self@ =~= subscribed(old(self)@, conn, before.push(topic@)));
                assert(state@.subscribed =~= old(state)@.subscribed.union(
                    before.push(topic@).to_set(),
                ));
            }
            i = i + 1;
        }
        assert(all.take(i as int) == all);
    }

    /// Takes `conn` out of each of `topics`.
    pub fn unsubscribe(&mut self, conn: ConnId, topics: &Vec<&str>)
        requires
            old(self).wf(),
        ensures
            final(self).wf(),
            final(self)@ == unsubscribed(old(self)@, conn, names(topics@)),
    {
        let ghost all = names(topics@);
        let mut i: usize = 0;
        assert(self@ =~= unsubscribed(old(self)@, conn, all.take(0)));
        while i < topics.len()
            invariant
                all == names(topics@),
                i <= topics@.len(),
                self.wf(),
                self@ == unsubscribed(old(self)@, conn, all.take(i as int)),
            decreases topics@.len() - i,
        {
            let topic = topics[i];
            self.topics.discard(topic, conn);
            proof {
                assert(all.take(i + 1) == all.take(i as int).push(topic@));
                lemma_unsubscribed_push(old(self)@, conn, all.take(i as int), topic@);
            }
            i = i + 1;
        }
        assert(all.take(i as int) == all);
    }

    /// Takes `conn`, who is gone, out of each of `topics`, and removes those of them that then
    /// have no subscribers.
    pub fn leave(&mut self, conn: ConnId, topics: &Vec<String>)
        requires
            old(self).wf(),
        ensures
            final(self).wf(),
            final(self)@ == left(old(self)@, conn, owned_names(topics@).to_set()),
    {
        let ghost all = owned_names(topics@);
        let mut i: usize = 0;
        assert(self@ =~= left(old(self)@, conn, all.take(0).to_set()));
        while i < topics.len()
            invariant
                all == owned_names(topics@),
                i <= topics@.len(),
                self.wf(),
                self@ == left(old(self)@, conn, all.take(i as int).to_set()),
            decreases topics@.len() - i,
        {
            let topic = topics[i].as_str();
            if self.topics.discard(topic, conn) {
                let empty: bool = match self.topics.get(topic) {
                    Some(subscribers) => subscribers.is_empty(),
                    None => false,
                };
                if empty {
                    self.topics.remove(topic);
                }
            }
            proof {
                assert(all.take(i + 1) == all.take(i as int).push(topic@));
                all.take(i as int).lemma_push_to_set_commute(topic@);
                lemma_left_insert(old(self)@, conn, all.take(i as int).to_set(), topic@);
            }
            i = i + 1;
        }
        assert(all.take(i as int) == all);
    }

    /// Starts to send `msg` to the subscribers of `topic`.
    pub fn publish(&self, topic: &str, msg: Frame) -> (publication: Publication)
        requires
            self.wf(),
        ensures
            publication@.topic == topic@,
            publication@.msg == msg@,
            enumerates(publication@.pending, members(self@, topic@)),
            publication@.failed == Seq::<ConnId>::empty(),
            forall|conn: ConnId| #[trigger]
                publication@.pending.to_set().contains(conn) == (self@.contains_key(topic@)
                    && self@[topic@].contains(conn)),
            publication@.pending.no_duplicates(),
    {
        let pending: Vec<ConnId> = match self.topics.get(topic) {
            Some(subscribers) => to_vec(subscribers),
            None => {
                let nobody: Vec<ConnId> = Vec::new();
                assert(nobody@.to_set() =~= Set::<ConnId>::empty());
                nobody
            },
        };
        Publication { topic: topic.to_owned(), msg, pending, failed: Vec::new() }
    }

    /// Takes the connections to whom `publication` could not be sent out of its topic.
    pub fn drop_failed(&mut self, publication: &Publication)
        requires
            old(self).wf(),
        ensures
            final(self).wf(),
            final(self)@ == dropped(
                old(self)@,
                publication@.topic,
                publication@.failed.to_set(),
            ),
    {
        let ghost topic = publication.topic@;
        let ghost failed = publication.failed@;
        let mut i: usize = 0;
        assert(self@ =~= dropped(old(self)@, topic, failed.take(0).to_set())) by {
            if self@.contains_key(topic) {
                assert(self@[topic].difference(failed.take(0).to_set()) =~= self@[topic]);
            }
        }
        while i < publication.failed.len()
            invariant
                topic == publication.topic@,
                failed == publication.failed@,
                i <= failed.len(),
                self.wf(),
                self@ == dropped(old(self)@, topic, failed.take(i as int).to_set()),
            decreases failed.len() - i,
        {
            let conn: ConnId = publication.failed[i];
            self.topics.discard(publication.topic.as_str(), conn);
            proof {
                let before = failed.take(i as int);
                assert(failed.take(i + 1) == before.push(conn));
                before.lemma_push_to_set_commute(conn);
                if old(self)@.contains_key(topic) {
                    let had = old(self)@[topic];
                    assert(had.difference(before.to_set()).remove(conn) =~= had.difference(
                        before.to_set().insert(conn),
                    ));
                }
                assert(self@ =~= dropped(old(self)@, topic, before.to_set().insert(conn)));
            }
            i = i + 1;
        }
        assert(failed.take(i as int) == failed);
    }

    /// Removes `topic` and returns the connections to close, which are those that were
    /// subscribed to it.
    pub fn close_topic(&mut self, topic: &str) -> (conns: Vec<ConnId>)
        requires
            old(self).wf(),
        ensures
            final(self).wf(),
            final(self)@ == old(self)@.remove(topic@),
            enumerates(conns@, members(old(self)@, topic@)),
            forall|conn: ConnId| #[trigger]
                conns@.to_set().contains(conn) == (old(self)@.contains_key(topic@) && old(
                    self,
                )@[topic@].contains(conn)),
            conns@.no_duplicates(),
    {
        match self.topics.remove(topic) {
            Some(subscribers) => to_vec(&subscribers),
            None => {
                let nobody: Vec<ConnId> = Vec::new();
                assert(nobody@.to_set() =~= Set::<ConnId>::empty());
                nobody
            },
        }
    }

    /// Removes every topic and returns the connections to close, which are those that were
    /// subscribed to some topic, each once.
    pub fn close(&mut self) -> (conns: Vec<ConnId>)
        requires
            old(self).wf(),
        ensures
            final(self).wf(),
            final(self)@ == Table::empty(),
            enumerates(conns@, everyone(old(self)@)),
            forall|topic: Seq<char>, conn: ConnId|
                #![trigger old(self)@[topic].contains(conn)]
                old(self)@.contains_key(topic) && old(self)@[topic].contains(conn)
                    ==> conns@.to_set().contains(conn),
            forall|conn: ConnId| #[trigger]
                conns@.to_set().contains(conn) ==> exists|topic: Seq<char>| #[trigger]
                    old(self)@.contains_key(topic) && old(self)@[topic].contains(conn),
            conns@.no_duplicates(),
    {
        proof {
            assert forall|topic: Seq<char>, conn: ConnId|
                #![trigger old(self)@[topic].contains(conn)]
                old(self)@.contains_key(topic) && old(self)@[topic].contains(
                    conn,
                ) implies everyone(old(self)@).contains(conn) by {
                assert(members(old(self)@, topic).contains(conn));
            }
            assert forall|conn: ConnId| #[trigger]
                everyone(old(self)@).contains(conn) implies exists|topic: Seq<char>| #[trigger]
                old(self)@.contains_key(topic) && old(self)@[topic].contains(conn) by {
                let topic = choose|topic: Seq<char>| #[trigger]
                    members(old(self)@, topic).contains(conn);
                assert(old(self)@.contains_key(topic));
            }
        }
        let conns = self.topics.subscribers();
        self.topics.clear();
        to_vec(&conns)
    }

    /// Whether `conn` is subscribed to some topic.
    pub fn is_subscribed(&self, conn: ConnId) -> (found: bool)
        requires
            self.wf(),
        ensures
            found == everyone(self@).contains(conn),
    {
        self.topics.is_subscribed(conn)
    }
}

} // verus!
