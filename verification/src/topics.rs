//! The table of topics: which connections are subscribed to which topic.

use std::collections::HashSet;
use vstd::hash_map::StringHashMap;
use vstd::prelude::*;
use vstd::std_specs::iter::IteratorSpec;

verus! {

/// Identifies one connection for as long as the server runs.
pub type ConnId = u64;

/// What a table of topics holds: for each topic its subscribers.
pub type Table = Map<Seq<char>, Set<ConnId>>;

/// The subscribers of `topic`; a topic that the table does not hold has none.
pub open spec fn members(table: Table, topic: Seq<char>) -> Set<ConnId> {
    if table.contains_key(topic) {
        table[topic]
    } else {
        Set::empty()
    }
}

/// The connections that are subscribed to some topic of the table.
pub open spec fn everyone(table: Table) -> Set<ConnId> {
    Set::new(|conn: ConnId| exists|topic: Seq<char>| #[trigger] members(table, topic).contains(conn))
}

/// `list` names each element of `set` once, and nothing else.
pub open spec fn enumerates<A>(list: Seq<A>, set: Set<A>) -> bool {
    &&& list.no_duplicates()
    &&& list.to_set() == set
}

struct Room {
    name: String,
    subscribers: HashSet<ConnId>,
}

/// Topics and their subscribers, found by the topic's name.
pub struct Topics {
    /// The position in `rooms` of each topic.
    index: StringHashMap<usize>,
    rooms: Vec<Room>,
}

impl View for Topics {
    type V = Table;

    closed spec fn view(&self) -> Table {
        Map::new(
            |name: Seq<char>| self.index@.contains_key(name),
            |name: Seq<char>| self.rooms@[self.index@[name] as int].subscribers@,
        )
    }
}

impl Topics {
    /// `index` and `rooms` agree on where each topic stands.
    pub closed spec fn wf(&self) -> bool {
        &&& forall|i: int|
            0 <= i < self.rooms@.len() ==> {
                &&& self.index@.contains_key((#[trigger] self.rooms@[i]).name@)
                &&& self.index@[self.rooms@[i].name@] == i
            }
        &&& forall|name: Seq<char>| #[trigger]
            self.index@.contains_key(name) ==> {
                &&& self.index@[name] < self.rooms@.len()
                &&& self.rooms@[self.index@[name] as int].name@ == name
            }
    }

    /// A table without topics.
    pub fn new() -> (topics: Topics)
        ensures
            topics.wf(),
            topics@ == Table::empty(),
    {
        let topics = Topics { index: StringHashMap::new(), rooms: Vec::new() };
        assert(topics@ =~= Table::empty());
        topics
    }

    /// The number of topics, those without subscribers included.
    pub fn len(&self) -> (n: usize)
        requires
            self.wf(),
        ensures
            n == self@.len(),
    {
        assert(self@.dom() =~= self.index@.dom());
        self.index.len()
    }

    /// Whether the table holds `topic`.
    pub fn contains_key(&self, topic: &str) -> (found: bool)
        requires
            self.wf(),
        ensures
            found == self@.contains_key(topic@),
    {
        self.index.contains_key(topic)
    }

    /// The subscribers of `topic`, if the table holds it.
    pub fn get(&self, topic: &str) -> (found: Option<&HashSet<ConnId>>)
        requires
            self.wf(),
        ensures
            match found {
                Some(subscribers) => self@.contains_key(topic@) && subscribers@ == self@[topic@],
                None => !self@.contains_key(topic@),
            },
    {
        match self.index.get(topic) {
            Some(i) => Some(&self.rooms[*i].subscribers),
            None => None,
        }
    }

    /// Gives `topic` the subscribers `subscribers`, in place of those it had.
    pub fn insert(&mut self, topic: String, subscribers: HashSet<ConnId>)
        requires
            old(self).wf(),
        ensures
            final(self).wf(),
            final(self)@ == old(self)@.insert(topic@, subscribers@),
    {
        let at: Option<usize> = match self.index.get(topic.as_str()) {
            Some(i) => Some(*i),
            None => None,
        };
        match at {
            Some(i) => {
                self.rooms[i].subscribers = subscribers;
            },
            None => {
                self.index.insert(topic.clone(), self.rooms.len());
                self.rooms.push(Room { name: topic, subscribers });
            },
        }
        assert(self@ =~= old(self)@.insert(topic@, subscribers@));
    }

    /// Adds `conn` to the subscribers of `topic`.
    pub fn add(&mut self, topic: &str, conn: ConnId)
        requires
            old(self).wf(),
            old(self)@.contains_key(topic@),
        ensures
            final(self).wf(),
            final(self)@ == old(self)@.insert(topic@, old(self)@[topic@].insert(conn)),
    {
        if let Some(i) = self.index.get(topic) {
            let i: usize = *i;
            self.rooms[i].subscribers.insert(conn);
        }
        assert(self@ =~= old(self)@.insert(topic@, old(self)@[topic@].insert(conn)));
    }

    /// Takes `conn` out of the subscribers of `topic`, if the table holds it, and returns
    /// whether it does. The topic stays, even without subscribers.
    pub fn discard(&mut self, topic: &str, conn: ConnId) -> (found: bool)
        requires
            old(self).wf(),
        ensures
            final(self).wf(),
            found == old(self)@.contains_key(topic@),
            final(self)@ == if found {
                old(self)@.insert(topic@, old(self)@[topic@].remove(conn))
            } else {
                old(self)@
            },
    {
        match self.index.get(topic) {
            Some(i) => {
                let i: usize = *i;
                self.rooms[i].subscribers.remove(&conn);
                assert(self@ =~= old(self)@.insert(topic@, old(self)@[topic@].remove(conn)));
                true
            },
            None => false,
        }
    }

    /// Removes `topic` and returns the subscribers it had.
    pub fn remove(&mut self, topic: &str) -> (removed: Option<HashSet<ConnId>>)
        requires
            old(self).wf(),
        ensures
            final(self).wf(),
            final(self)@ == old(self)@.remove(topic@),
            match removed {
                Some(subscribers) => old(self)@.contains_key(topic@) && subscribers@ == old(
                    self,
                )@[topic@],
                None => !old(self)@.contains_key(topic@),
            },
    {
        let at: Option<usize> = match self.index.get(topic) {
            Some(i) => Some(*i),
            None => None,
        };
        match at {
            Some(i) => {
                let room = self.rooms.swap_remove(i);
                if i < self.rooms.len() {
                    self.index.insert(self.rooms[i].name.clone(), i);
                }
                self.index.remove(topic);
                assert(self@ =~= old(self)@.remove(topic@));
                Some(room.subscribers)
            },
            None => {
                assert(self@ =~= old(self)@.remove(topic@));
                None
            },
        }
    }

    /// Removes every topic.
    pub fn clear(&mut self)
        requires
            old(self).wf(),
        ensures
            final(self).wf(),
            final(self)@ == Table::empty(),
    {
        self.index.clear();
        self.rooms.clear();
        assert(self@ =~= Table::empty());
    }

    /// The connections that are subscribed to some topic.
    pub fn subscribers(&self) -> (conns: HashSet<ConnId>)
        requires
            self.wf(),
        ensures
            conns@ == everyone(self@),
    {
        let mut conns: HashSet<ConnId> = HashSet::new();
        let mut i: usize = 0;
        while i < self.rooms.len()
            invariant
                i <= self.rooms@.len(),
                forall|c: ConnId| #[trigger]
                    conns@.contains(c) <==> exists|j: int|
                        0 <= j < i && (#[trigger] self.rooms@[j]).subscribers@.contains(c),
            decreases self.rooms@.len() - i,
        {
            let ghost before = conns@;
            let list = to_vec(&self.rooms[i].subscribers);
            let mut k: usize = 0;
            while k < list.len()
                invariant
                    k <= list@.len(),
                    conns@ == before.union(list@.take(k as int).to_set()),
                decreases list@.len() - k,
            {
                conns.insert(list[k]);
                proof {
                    list@.take(k as int).lemma_push_to_set_commute(list@[k as int]);
                    assert(list@.take(k + 1) == list@.take(k as int).push(list@[k as int]));
                }
                k = k + 1;
            }
            assert(list@.take(k as int) == list@);
            assert forall|c: ConnId| #[trigger] conns@.contains(c) <==> exists|j: int|
                0 <= j < i + 1 && (#[trigger] self.rooms@[j]).subscribers@.contains(c) by {
                assert(list@.to_set() == self.rooms@[i as int].subscribers@);
            }
            i = i + 1;
        }
        assert(conns@ =~= everyone(self@)) by {
            assert forall|c: ConnId| everyone(self@).contains(c) implies conns@.contains(c) by {
                let topic = choose|topic: Seq<char>| #[trigger]
                    members(self@, topic).contains(c);
                assert(self.rooms@[self.index@[topic] as int].subscribers@.contains(c));
            }
            assert forall|c: ConnId| conns@.contains(c) implies everyone(self@).contains(c) by {
                let j = choose|j: int|
                    0 <= j < i && (#[trigger] self.rooms@[j]).subscribers@.contains(c);
                assert(members(self@, self.rooms@[j].name@).contains(c));
            }
        }
        conns
    }

    /// Whether `conn` is subscribed to some topic.
    pub fn is_subscribed(&self, conn: ConnId) -> (found: bool)
        requires
            self.wf(),
        ensures
            found == everyone(self@).contains(conn),
    {
        let mut i: usize = 0;
        while i < self.rooms.len()
            invariant
                self.wf(),
                i <= self.rooms@.len(),
                forall|j: int|
                    0 <= j < i ==> !(#[trigger] self.rooms@[j]).subscribers@.contains(conn),
            decreases self.rooms@.len() - i,
        {
            if self.rooms[i].subscribers.contains(&conn) {
                assert(members(self@, self.rooms@[i as int].name@).contains(conn));
                return true;
            }
            i = i + 1;
        }
        false
    }
}

/// The elements of `set`, each once.
pub fn to_vec(set: &HashSet<ConnId>) -> (list: Vec<ConnId>)
    ensures
        enumerates(list@, set@),
{
    let mut list: Vec<ConnId> = Vec::new();
    let ghost all = set.iter().remaining().unref();
    for conn in it: set.iter()
        invariant
            it.seq().unref() == all,
            list@ == all.take(it.index() as int),
    {
        list.push(*conn);
    }
    assert(all.take(all.len() as int) == all);
    list
}

} // verus!
