//! What the server keeps of one connection, and how it reacts to the frames that arrive on it.

use crate::message::{names, owned_names, Frame, FrameView, Incoming, IncomingView, Signal, SignalView};
use crate::topics::enumerates;
use vstd::hash_set::StringHashSet;
use vstd::prelude::*;

verus! {

/// A set of topic names.
pub struct TopicSet {
    index: StringHashSet,
    /// The elements of `index`, each once.
    list: Vec<String>,
}

impl View for TopicSet {
    type V = Set<Seq<char>>;

    closed spec fn view(&self) -> Set<Seq<char>> {
        self.index@
    }
}

impl TopicSet {
    /// `list` holds what `index` holds.
    pub closed spec fn wf(&self) -> bool {
        enumerates(owned_names(self.list@), self.index@)
    }

    /// The empty set.
    pub fn new() -> (set: TopicSet)
        ensures
            set.wf(),
            set@ == Set::<Seq<char>>::empty(),
    {
        let set = TopicSet { index: StringHashSet::new(), list: Vec::new() };
        assert(owned_names(set.list@).to_set() =~= Set::<Seq<char>>::empty());
        set
    }

    /// The number of names in the set.
    pub fn len(&self) -> (n: usize)
        requires
            self.wf(),
        ensures
            n == self@.len(),
    {
        self.index.len()
    }

    /// Whether `topic` is in the set.
    pub fn contains(&self, topic: &str) -> (found: bool)
        requires
            self.wf(),
        ensures
            found == self@.contains(topic@),
    {
        self.index.contains(topic)
    }

    /// Adds `topic` to the set and returns whether it is new there.
    pub fn insert(&mut self, topic: &str) -> (added: bool)
        requires
            old(self).wf(),
        ensures
            final(self).wf(),
            final(self)@ == old(self)@.insert(topic@),
            added == !old(self)@.contains(topic@),
    {
        let added: bool = self.index.insert(topic.to_owned());
        if added {
            let ghost before = owned_names(self.list@);
            self.list.push(topic.to_owned());
            proof {
                assert(owned_names(self.list@) == before.push(topic@));
                before.lemma_push_to_set_commute(topic@);
                assert(!before.to_set().contains(topic@));
            }
        } else {
            assert(self.index@ =~= old(self).index@);
        }
        added
    }

    /// Empties the set and returns the names that it held, each once.
    pub fn drain(&mut self) -> (topics: Vec<String>)
        requires
            old(self).wf(),
        ensures
            final(self).wf(),
            final(self)@ == Set::<Seq<char>>::empty(),
            enumerates(owned_names(topics@), old(self)@),
    {
        let mut topics: Vec<String> = Vec::new();
        topics.append(&mut self.list);
        self.index.clear();
        assert(topics@ == old(self).list@);
        assert(owned_names(self.list@).to_set() =~= Set::<Seq<char>>::empty());
        topics
    }
}

/// The state of one connection.
pub struct ConnState {
    /// Whether the peer has sent a close frame.
    pub closed: bool,
    /// Whether the peer has answered since the last ping.
    pub pong_received: bool,
    /// The topics that the peer has asked for.
    pub subscribed_topics: TopicSet,
}

/// What the state of a connection holds.
pub struct ConnStateView {
    pub closed: bool,
    pub pong_received: bool,
    pub subscribed: Set<Seq<char>>,
}

impl View for ConnState {
    type V = ConnStateView;

    open spec fn view(&self) -> ConnStateView {
        ConnStateView {
            closed: self.closed,
            pong_received: self.pong_received,
            subscribed: self.subscribed_topics@,
        }
    }
}

/// The state that a connection starts in: no ping is unanswered.
pub open spec fn fresh() -> ConnStateView {
    ConnStateView { closed: false, pong_received: true, subscribed: Set::empty() }
}

impl Default for ConnState {
    fn default() -> (state: ConnState)
        ensures
            state.wf(),
            state@ == fresh(),
    {
        ConnState { closed: false, pong_received: true, subscribed_topics: TopicSet::new() }
    }
}

/// What the server has to do about a frame.
pub enum Reaction<'a> {
    Ignore,
    /// Subscribe the sender to these topics.
    Subscribe(Vec<&'a str>),
    /// Take the sender out of these topics.
    Unsubscribe(Vec<&'a str>),
    /// Send `msg` to the subscribers of `topic`.
    Publish { topic: &'a str, msg: Frame },
    /// Take the sender, who is gone, out of these topics.
    Leave(Vec<String>),
    /// Send this frame back to the sender.
    Reply(Frame),
}

/// What a reaction holds.
pub enum ReactionView {
    Ignore,
    Subscribe(Seq<Seq<char>>),
    Unsubscribe(Seq<Seq<char>>),
    Publish { topic: Seq<char>, msg: FrameView },
    Leave(Seq<Seq<char>>),
    Reply(FrameView),
}

impl<'a> View for Reaction<'a> {
    type V = ReactionView;

    open spec fn view(&self) -> ReactionView {
        match self {
            Reaction::Ignore => ReactionView::Ignore,
            Reaction::Subscribe(topics) => ReactionView::Subscribe(names(topics@)),
            Reaction::Unsubscribe(topics) => ReactionView::Unsubscribe(names(topics@)),
            Reaction::Publish { topic, msg } => ReactionView::Publish { topic: topic@, msg: msg@ },
            Reaction::Leave(topics) => ReactionView::Leave(owned_names(topics@)),
            Reaction::Reply(frame) => ReactionView::Reply(frame@),
        }
    }
}

impl ConnState {
    /// The set of topics is well formed.
    pub open spec fn wf(&self) -> bool {
        self.subscribed_topics.wf()
    }

    /// Takes note of a frame that arrived and returns what is to be done about it.
    ///
    /// A pong answers the last ping. A close frame empties the set of topics; the sender is to
    /// leave each of them. No other frame changes the state by itself.
    pub fn receive<'a>(&mut self, msg: Incoming<'a>) -> (reaction: Reaction<'a>)
        requires
            old(self).wf(),
        ensures
            final(self).wf(),
            final(self)@ == match msg@ {
                IncomingView::Pong => ConnStateView { pong_received: true, ..old(self)@ },
                IncomingView::Close => ConnStateView {
                    closed: true,
                    subscribed: Set::empty(),
                    ..old(self)@
                },
                _ => old(self)@,
            },
            match msg@ {
                IncomingView::Text { json, signal: SignalView::Subscribe { topics } } => reaction@
                    == if topics.len() == 0 {
                    ReactionView::Ignore
                } else {
                    ReactionView::Subscribe(topics)
                },
                IncomingView::Text { json, signal: SignalView::Unsubscribe { topics } } => reaction@
                    == if topics.len() == 0 {
                    ReactionView::Ignore
                } else {
                    ReactionView::Unsubscribe(topics)
                },
                IncomingView::Text { json, signal: SignalView::Publish { topic } } => reaction@
                    == (ReactionView::Publish { topic, msg: FrameView::Text(json) }),
                IncomingView::Binary => reaction@ == ReactionView::Ignore,
                IncomingView::Ping(payload) => reaction@ == ReactionView::Reply(
                    FrameView::Pong(payload),
                ),
                IncomingView::Pong => reaction@ == ReactionView::Ignore,
                IncomingView::Close => reaction@ matches ReactionView::Leave(topics) && enumerates(
                    topics,
                    old(self)@.subscribed,
                ),
            },
    {
        match msg {
            Incoming::Text { json, signal } => match signal {
                Signal::Subscribe { topics } => {
                    if topics.is_empty() {
                        Reaction::Ignore
                    } else {
                        Reaction::Subscribe(topics)
                    }
                },
                Signal::Unsubscribe { topics } => {
                    if topics.is_empty() {
                        Reaction::Ignore
                    } else {
                        Reaction::Unsubscribe(topics)
                    }
                },
                Signal::Publish { topic } => Reaction::Publish {
                    topic,
                    msg: Frame::Text(json.to_owned()),
                },
            },
            Incoming::Binary(_) => Reaction::Ignore,
            Incoming::Ping(payload) => Reaction::Reply(Frame::Pong(payload)),
            Incoming::Pong(_) => {
                self.pong_received = true;
                Reaction::Ignore
            },
            Incoming::Close(_) => {
                let topics = self.subscribed_topics.drain();
                self.closed = true;
                Reaction::Leave(topics)
            },
        }
    }
}

} // verus!
