//! Bookkeeping for remote agents: which agents are connected, and, per
//! connection, which requests are waiting for response frames.

use vstd::prelude::*;

use std::collections::HashMap;

use crate::api::{ApiError, Status};
use crate::text::text_eq;

verus! {

broadcast use vstd::std_specs::hash::group_hash_axioms;

// ---------------------------------------------------------------------------
// requests waiting on one agent connection

/// The requests of one connection: a counter that hands out request ids, and
/// the response channel of each request still open.
pub struct PendingTable<T> {
    next_id: u64,
    pending: HashMap<u64, T>,
}

impl<T> View for PendingTable<T> {
    type V = (u64, Map<u64, T>);

    closed spec fn view(&self) -> Self::V {
        (self.next_id, self.pending@)
    }
}

/// Every open request id was handed out before the counter's current value.
pub open spec fn ids_below_counter<T>(v: (u64, Map<u64, T>)) -> bool {
    forall|id: u64| #[trigger] v.1.contains_key(id) ==> id < v.0
}

/// What to do with a response frame that arrived for a request id.
#[derive(Clone, Copy, Debug, PartialEq, Eq, Structural)]
pub enum Delivery {
    /// no such request (finished or cancelled): drop the frame
    Drop,
    /// pass the frame on; more may follow
    Deliver,
    /// pass the frame on and close the request: it was the last
    DeliverAndClose,
}

impl<T> PendingTable<T> {
    /// A table with no requests, handing out ids from 0.
    pub fn new() -> (t: Self)
        ensures
            t@.0 == 0,
            t@.1 == Map::<u64, T>::empty(),
            ids_below_counter(t@),
    {
        PendingTable { next_id: 0, pending: HashMap::new() }
    }

    /// Opens a request: it gets the counter's value as its id (the counter then
    /// moves on, wrapping at the top) and `sender` as its response channel.
    pub fn open(&mut self, sender: T) -> (id: u64)
        ensures
            id == old(self)@.0,
            final(self)@.0 == if old(self)@.0 == u64::MAX {
                0
            } else {
                (old(self)@.0 + 1) as u64
            },
            final(self)@.1 == old(self)@.1.insert(id, sender),
            ids_below_counter(old(self)@) && old(self)@.0 < u64::MAX ==> ids_below_counter(
                final(self)@,
            ) && !old(self)@.1.contains_key(id),
    {
        let id = self.next_id;
        self.next_id = self.next_id.wrapping_add(1);
        self.pending.insert(id, sender);
        id
    }

    /// The response channel of an open request.
    pub fn sender(&self, id: u64) -> (r: Option<&T>)
        ensures
            match r {
                Some(s) => self@.1.contains_key(id) && *s == self@.1[id],
                None => !self@.1.contains_key(id),
            },
    {
        self.pending.get(&id)
    }

    /// Closes a request (finished or cancelled); later frames for it are dropped.
    pub fn close(&mut self, id: u64) -> (r: Option<T>)
        ensures
            final(self)@.0 == old(self)@.0,
            final(self)@.1 == old(self)@.1.remove(id),
            match r {
                Some(s) => old(self)@.1.contains_key(id) && s == old(self)@.1[id],
                None => !old(self)@.1.contains_key(id),
            },
            ids_below_counter(old(self)@) ==> ids_below_counter(final(self)@),
    {
        self.pending.remove(&id)
    }

    /// What becomes of a frame for request `id`; `last` says whether the frame
    /// ends its request (`End` or `Error`).
    pub fn delivery(&self, id: u64, last: bool) -> (d: Delivery)
        ensures
            !self@.1.contains_key(id) ==> d == Delivery::Drop,
            self@.1.contains_key(id) && last ==> d == Delivery::DeliverAndClose,
            self@.1.contains_key(id) && !last ==> d == Delivery::Deliver,
    {
        if self.pending.contains_key(&id) {
            if last {
                Delivery::DeliverAndClose
            } else {
                Delivery::Deliver
            }
        } else {
            Delivery::Drop
        }
    }
}

/// Laws of the request table: a fresh request is found under its id until it
/// is closed, and ids handed out while the counter has not wrapped are distinct
/// from every open one.
pub proof fn lemma_request_lifecycle<T>(before: (u64, Map<u64, T>), sender: T, other: u64)
    requires
        ids_below_counter(before),
        before.0 < u64::MAX,
        other != before.0,
    ensures
        !before.1.contains_key(before.0),
        before.1.insert(before.0, sender)[before.0] == sender,
        !before.1.insert(before.0, sender).remove(before.0).contains_key(before.0),
        before.1.insert(before.0, sender).contains_key(other) == before.1.contains_key(other),
        ids_below_counter(((before.0 + 1) as u64, before.1.insert(before.0, sender))),
{
    assert(before.1.insert(before.0, sender).remove(before.0).dom() =~= before.1.remove(
        before.0,
    ).dom());
}

// ---------------------------------------------------------------------------
// connected agents

/// The map from host id to connection that a list of entries stands for.
pub open spec fn entries_map<C>(s: Seq<(String, C)>) -> Map<Seq<char>, C>
    decreases s.len(),
{
    if s.len() == 0 {
        Map::empty()
    } else {
        entries_map(s.drop_last()).insert(s.last().0@, s.last().1)
    }
}

/// No host id appears twice.
pub open spec fn distinct_hosts<C>(s: Seq<(String, C)>) -> bool {
    forall|i: int, j: int| 0 <= i < s.len() && 0 <= j < s.len() && i != j ==> s[i].0@ != s[j].0@
}

proof fn lemma_entries_map_index<C>(s: Seq<(String, C)>, i: int)
    requires
        distinct_hosts(s),
        0 <= i < s.len(),
    ensures
        entries_map(s).contains_key(s[i].0@),
        entries_map(s)[s[i].0@] == s[i].1,
    decreases s.len(),
{
    if i < s.len() - 1 {
        lemma_entries_map_index(s.drop_last(), i);
        assert(s[i].0@ != s.last().0@);
    }
}

proof fn lemma_entries_map_absent<C>(s: Seq<(String, C)>, k: Seq<char>)
    requires
        forall|i: int| 0 <= i < s.len() ==> (#[trigger] s[i]).0@ != k,
    ensures
        !entries_map(s).contains_key(k),
    decreases s.len(),
{
    if s.len() > 0 {
        lemma_entries_map_absent(s.drop_last(), k);
        assert(s.last().0@ != k);
    }
}

proof fn lemma_entries_map_domain<C>(s: Seq<(String, C)>, k: Seq<char>)
    requires
        entries_map(s).contains_key(k),
    ensures
        exists|i: int| 0 <= i < s.len() && (#[trigger] s[i]).0@ == k,
    decreases s.len(),
{
    if s.len() > 0 && s.last().0@ != k {
        lemma_entries_map_domain(s.drop_last(), k);
        let i = choose|i: int| 0 <= i < s.drop_last().len() && (#[trigger] s.drop_last()[i]).0@ == k;
        assert(s[i] == s.drop_last()[i]);
    }
}

proof fn lemma_entries_map_update<C>(s: Seq<(String, C)>, i: int, e: (String, C))
    requires
        distinct_hosts(s),
        0 <= i < s.len(),
        e.0@ == s[i].0@,
    ensures
        distinct_hosts(s.update(i, e)),
        entries_map(s.update(i, e)) == entries_map(s).insert(e.0@, e.1),
    decreases s.len(),
{
    let t = s.update(i, e);
    if i == s.len() - 1 {
        assert(t.drop_last() =~= s.drop_last());
    } else {
        lemma_entries_map_update(s.drop_last(), i, e);
        assert(t.drop_last() =~= s.drop_last().update(i, e));
        assert(s.last().0@ != e.0@);
    }
    assert(entries_map(t) =~= entries_map(s).insert(e.0@, e.1));
}

proof fn lemma_entries_map_remove<C>(s: Seq<(String, C)>, i: int)
    requires
        distinct_hosts(s),
        0 <= i < s.len(),
    ensures
        distinct_hosts(s.remove(i)),
        entries_map(s.remove(i)) == entries_map(s).remove(s[i].0@),
    decreases s.len(),
{
    let k = s[i].0@;
    let t = s.remove(i);
    assert forall|a: int, b: int| 0 <= a < t.len() && 0 <= b < t.len() && a != b implies t[a].0@
        != t[b].0@ by {
        let a2 = if a < i {
            a
        } else {
            a + 1
        };
        let b2 = if b < i {
            b
        } else {
            b + 1
        };
        assert(t[a] == s[a2]);
        assert(t[b] == s[b2]);
    }
    if i == s.len() - 1 {
        assert(t =~= s.drop_last());
        assert forall|j: int| 0 <= j < t.len() implies (#[trigger] t[j]).0@ != k by {
            assert(t[j] == s[j]);
        }
        lemma_entries_map_absent(t, k);
        assert(entries_map(t) =~= entries_map(s).remove(k));
    } else {
        lemma_entries_map_remove(s.drop_last(), i);
        assert(t.drop_last() =~= s.drop_last().remove(i));
        assert(t.last() == s.last());
        assert(s.last().0@ != k);
        assert(entries_map(t) =~= entries_map(s).remove(k));
    }
}

/// The connected agents, each under its host id.
pub struct AgentRegistry<C> {
    entries: Vec<(String, C)>,
}

impl<C> View for AgentRegistry<C> {
    type V = Map<Seq<char>, C>;

    closed spec fn view(&self) -> Self::V {
        entries_map(self.entries@)
    }
}

impl<C> AgentRegistry<C> {
    /// Each host is named once.
    #[verifier::type_invariant]
    spec fn wf(self) -> bool {
        distinct_hosts(self.entries@)
    }

    /// No agent connected.
    pub fn new() -> (r: Self)
        ensures
            r@ == Map::<Seq<char>, C>::empty(),
    {
        AgentRegistry { entries: Vec::new() }
    }

    fn position(&self, host: &str) -> (r: Option<usize>)
        ensures
            match r {
                Some(i) => i < self.entries@.len() && self.entries@[i as int].0@ == host@,
                None => forall|i: int|
                    0 <= i < self.entries@.len() ==> (#[trigger] self.entries@[i]).0@ != host@,
            },
    {
        let mut i: usize = 0;
        while i < self.entries.len()
            invariant
                i <= self.entries@.len(),
                forall|j: int| 0 <= j < i ==> (#[trigger] self.entries@[j]).0@ != host@,
            decreases self.entries@.len() - i,
        {
            if text_eq(self.entries[i].0.as_str(), host) {
                return Some(i);
            }
            i = i + 1;
        }
        None
    }

    /// The connection of a host, if its agent is connected.
    pub fn get(&self, host: &str) -> (r: Option<&C>)
        ensures
            match r {
                Some(c) => self@.contains_key(host@) && *c == self@[host@],
                None => !self@.contains_key(host@),
            },
    {
        proof {
            use_type_invariant(self);
        }
        match self.position(host) {
            Some(i) => {
                proof {
                    lemma_entries_map_index(self.entries@, i as int);
                }
                Some(&self.entries[i].1)
            },
            None => {
                proof {
                    lemma_entries_map_absent(self.entries@, host@);
                }
                None
            },
        }
    }

    /// Records a host's agent as connected, replacing an earlier connection of it.
    pub fn connect(&mut self, host: String, conn: C)
        ensures
            final(self)@ == old(self)@.insert(host@, conn),
    {
        proof {
            use_type_invariant(&*self);
        }
        let pos = self.position(host.as_str());
        let mut entries: Vec<(String, C)> = Vec::new();
        std::mem::swap(&mut entries, &mut self.entries);
        let ghost old_entries = entries@;
        match pos {
            Some(i) => {
                proof {
                    lemma_entries_map_update(old_entries, i as int, (host, conn));
                }
                entries.set(i, (host, conn));
            },
            None => {
                entries.push((host, conn));
                proof {
                    assert(entries@.drop_last() =~= old_entries);
                    assert forall|a: int, b: int|
                        0 <= a < entries@.len() && 0 <= b < entries@.len() && a != b implies entries@[a].0@
                            != entries@[b].0@ by {
                        if a < old_entries.len() && b < old_entries.len() {
                            assert(entries@[a] == old_entries[a]);
                            assert(entries@[b] == old_entries[b]);
                        } else if a < old_entries.len() {
                            assert(entries@[a] == old_entries[a]);
                        } else {
                            assert(entries@[b] == old_entries[b]);
                        }
                    }
                }
            },
        }
        self.entries = entries;
    }

    /// Forgets a host's connection (its agent went away).
    pub fn disconnect(&mut self, host: &str) -> (r: Option<C>)
        ensures
            final(self)@ == old(self)@.remove(host@),
            match r {
                Some(c) => old(self)@.contains_key(host@) && c == old(self)@[host@],
                None => !old(self)@.contains_key(host@),
            },
    {
        proof {
            use_type_invariant(&*self);
        }
        match self.position(host) {
            Some(i) => {
                proof {
                    lemma_entries_map_index(self.entries@, i as int);
                    lemma_entries_map_remove(self.entries@, i as int);
                }
                let mut entries: Vec<(String, C)> = Vec::new();
                std::mem::swap(&mut entries, &mut self.entries);
                let (_, c) = entries.remove(i);
                self.entries = entries;
                Some(c)
            },
            None => {
                proof {
                    lemma_entries_map_absent(self.entries@, host@);
                    assert(old(self)@.remove(host@) =~= old(self)@);
                }
                None
            },
        }
    }

    /// The ids of the hosts whose agents are connected, each once.
    pub fn online_ids(&self) -> (ids: Vec<String>)
        ensures
            ids@.len() == self@.dom().len(),
            forall|k: Seq<char>|
                self@.contains_key(k) <==> exists|i: int| 0 <= i < ids@.len() && (#[trigger] ids@[i])@ == k,
    {
        proof {
            use_type_invariant(self);
        }
        let mut ids: Vec<String> = Vec::new();
        let mut i: usize = 0;
        while i < self.entries.len()
            invariant
                i <= self.entries@.len(),
                ids@.len() == i,
                forall|j: int| 0 <= j < i ==> (#[trigger] ids@[j])@ == self.entries@[j].0@,
            decreases self.entries@.len() - i,
        {
            ids.push(self.entries[i].0.clone());
            i = i + 1;
        }
        proof {
            assert forall|k: Seq<char>|
                self@.contains_key(k) <==> exists|i: int| 0 <= i < ids@.len() && (#[trigger] ids@[i])@ == k by {
                if self@.contains_key(k) {
                    lemma_entries_map_domain(self.entries@, k);
                    let i = choose|i: int| 0 <= i < self.entries@.len() && (#[trigger] self.entries@[i]).0@ == k;
                    assert(ids@[i]@ == k);
                }
                if exists|i: int| 0 <= i < ids@.len() && (#[trigger] ids@[i])@ == k {
                    let i = choose|i: int| 0 <= i < ids@.len() && (#[trigger] ids@[i])@ == k;
                    lemma_entries_map_index(self.entries@, i);
                }
            }
            lemma_entries_map_size(self.entries@);
        }
        ids
    }
}

proof fn lemma_entries_map_size<C>(s: Seq<(String, C)>)
    requires
        distinct_hosts(s),
    ensures
        entries_map(s).dom().finite(),
        entries_map(s).dom().len() == s.len(),
    decreases s.len(),
{
    if s.len() > 0 {
        let p = s.drop_last();
        assert(distinct_hosts(p));
        lemma_entries_map_size(p);
        assert forall|i: int| 0 <= i < p.len() implies (#[trigger] p[i]).0@ != s.last().0@ by {
            assert(p[i] == s[i]);
        }
        lemma_entries_map_absent(p, s.last().0@);
    }
}

// ---------------------------------------------------------------------------
// agents connecting

/// The query an agent connects with.
#[derive(Clone, Debug, PartialEq, Eq)]
pub struct ConnectQuery {
    pub token: String,
}

/// An agent may connect when its token names a registered host; the host's id
/// is then the one it serves under. Otherwise it is refused as unauthorized.
pub fn admit_agent(host_for_token: Option<String>) -> (r: Result<String, ApiError>)
    ensures
        match host_for_token {
            Some(h) => r matches Ok(x) && x@ == h@,
            None => r matches Err(e) && e.status == Status::Unauthorized,
        },
{
    match host_for_token {
        Some(h) => Ok(h),
        None => Err(ApiError::new(Status::Unauthorized, "")),
    }
}

/// Laws of the registry's map: a connected host is found with its connection,
/// a disconnected one is not found, and other hosts are not touched.
pub proof fn lemma_registry_laws<C>(m: Map<Seq<char>, C>, host: Seq<char>, conn: C, other: Seq<char>)
    requires
        other != host,
    ensures
        m.insert(host, conn).contains_key(host),
        m.insert(host, conn)[host] == conn,
        !m.remove(host).contains_key(host),
        m.insert(host, conn).contains_key(other) == m.contains_key(other),
        m.remove(host).contains_key(other) == m.contains_key(other),
        m.contains_key(other) ==> m.insert(host, conn)[other] == m[other] && m.remove(host)[other]
            == m[other],
{
}

} // verus!
