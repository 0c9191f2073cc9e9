//! The live queries of one explorer connection: which query each subscription id
//! runs, and the last result sent for it, so that a result is only sent again when
//! it changed.
use vstd::prelude::*;
use std::collections::HashMap;
use crate::query::Query;

verus! {

broadcast use vstd::std_specs::hash::group_hash_axioms;

/// The subscriptions of one connection.
pub struct Subscriptions {
    active: HashMap<u32, (Query, Vec<u8>)>,
}

/// Whether two byte strings are equal.
fn same_bytes(a: &Vec<u8>, b: &Vec<u8>) -> (r: bool)
    ensures
        r == (a@ == b@),
{
    if a.len() != b.len() {
        return false;
    }
    let mut i: usize = 0;
    while i < a.len()
        invariant
            a@.len() == b@.len(),
            i <= a@.len(),
            forall|j: int| 0 <= j < i ==> a@[j] == b@[j],
        decreases a@.len() - i,
    {
        if a[i] != b[i] {
            return false;
        }
        i = i + 1;
    }
    assert(a@ =~= b@);
    true
}

/// Whether a new result `data` for `id` has to be sent: `id` has a subscription and
/// its last result differs.
pub open spec fn refresh_changed(m: Map<u32, (Query, Seq<u8>)>, id: u32, data: Seq<u8>) -> bool {
    m.contains_key(id) && m[id].1 != data
}

/// The subscriptions after a new result `data` for `id` is taken in.
pub open spec fn refreshed(m: Map<u32, (Query, Seq<u8>)>, id: u32, data: Seq<u8>) -> Map<u32, (Query, Seq<u8>)> {
    if m.contains_key(id) {
        m.insert(id, (m[id].0, data))
    } else {
        m
    }
}

impl View for Subscriptions {
    type V = Map<u32, (Query, Seq<u8>)>;

    closed spec fn view(&self) -> Map<u32, (Query, Seq<u8>)> {
        self.active@.map_values(|v: (Query, Vec<u8>)| (v.0, v.1@))
    }
}

impl Subscriptions {
    /// No subscriptions.
    pub fn new() -> (s: Subscriptions)
        ensures
            s@ == Map::<u32, (Query, Seq<u8>)>::empty(),
    {
        let s = Subscriptions { active: HashMap::new() };
        assert(s@ =~= Map::<u32, (Query, Seq<u8>)>::empty());
        s
    }

    /// Subscribes `id` to `query`, whose first result `data` was just sent; a previous
    /// subscription of `id` is replaced.
    pub fn subscribe(&mut self, id: u32, query: Query, data: Vec<u8>)
        ensures
            final(self)@ == old(self)@.insert(id, (query, data@)),
    {
        self.active.insert(id, (query, data));
        assert(self@ =~= old(self)@.insert(id, (query, data@)));
    }

    /// Ends the subscription of `id`, if any.
    pub fn unsubscribe(&mut self, id: u32)
        ensures
            final(self)@ == old(self)@.remove(id),
    {
        self.active.remove(&id);
        assert(self@ =~= old(self)@.remove(id));
    }

    /// Takes in the new result of the query of `id`: returns whether it differs from
    /// the last result sent, and so has to be sent, and keeps it as the last result.
    /// Nothing changes for an id without a subscription.
    pub fn refresh(&mut self, id: u32, data: Vec<u8>) -> (changed: bool)
        ensures
            changed == refresh_changed(old(self)@, id, data@),
            final(self)@ == refreshed(old(self)@, id, data@),
    {
        match self.active.remove(&id) {
            None => {
                assert(self@ =~= old(self)@);
                false
            },
            Some(entry) => {
                let (query, prev) = entry;
                let changed = !same_bytes(&prev, &data);
                self.active.insert(id, (query, data));
                assert(self@ =~= old(self)@.insert(id, (old(self)@[id].0, data@)));
                changed
            },
        }
    }

    /// The SQL text of the query of `id`, if `id` has a subscription.
    pub fn sql_of(&self, id: u32) -> (r: Option<String>)
        ensures
            !self@.contains_key(id) ==> r is None,
            self@.contains_key(id) ==> r is Some && r->0@ == crate::query::query_sql(self@[id].0),
    {
        match self.active.get(&id) {
            None => None,
            Some(entry) => Some(entry.0.to_sql()),
        }
    }

    /// The ids that have a subscription, each once.
    pub fn ids(&self) -> (r: Vec<u32>)
        ensures
            r@.to_set() == self@.dom(),
            r@.no_duplicates(),
    {
        let mut out: Vec<u32> = Vec::new();
        let ghost keys = self.active.keys();
        for k in it: self.active.keys()
            invariant
                it.seq() == vstd::std_specs::iter::IteratorSpec::remaining(&keys),
                out@ == it.seq().subrange(0, it.index() as int).map_values(|r: &u32| *r),
        {
            out.push(*k);
            assert(out@ =~= it.seq().subrange(0, it.index() + 1).map_values(|r: &u32| *r));
        }
        proof {
            assert(self@.dom() =~= self.active@.dom());
            assert(out@ =~= vstd::std_specs::iter::IteratorSpec::remaining(&keys).unref());
            assert(vstd::std_specs::iter::IteratorSpec::remaining(&keys).unref().to_set() == self.active@.dom());
        }
        out
    }
}

/// Subscribing and then unsubscribing the same id leaves the other subscriptions as
/// they were and `id` without one.
pub proof fn lemma_subscribe_unsubscribe(s: Map<u32, (Query, Seq<u8>)>, id: u32, q: Query, d: Seq<u8>)
    ensures
        s.insert(id, (q, d)).remove(id) == s.remove(id),
        !s.insert(id, (q, d)).remove(id).contains_key(id),
{
    assert(s.insert(id, (q, d)).remove(id) =~= s.remove(id));
}

/// Refreshing with the result just stored reports no change and changes nothing.
pub proof fn lemma_refresh_idempotent(s: Map<u32, (Query, Seq<u8>)>, id: u32, d: Seq<u8>)
    ensures
        !refresh_changed(refreshed(s, id, d), id, d),
        refreshed(refreshed(s, id, d), id, d) == refreshed(s, id, d),
{
    if s.contains_key(id) {
        assert(refreshed(refreshed(s, id, d), id, d) =~= refreshed(s, id, d));
    }
}

/// Once `id` is unsubscribed, no new result for it is ever to be sent, and taking one
/// in changes nothing.
pub proof fn lemma_no_update_after_unsubscribe(s: Map<u32, (Query, Seq<u8>)>, id: u32, d: Seq<u8>)
    ensures
        !refresh_changed(s.remove(id), id, d),
        refreshed(s.remove(id), id, d) == s.remove(id),
        !s.remove(id).dom().contains(id),
{
}

/// A new result has to be sent exactly when the id is subscribed and the result
/// differs from the one sent last: in length, or in some byte.
pub proof fn lemma_refresh_changed_iff_differs(m: Map<u32, (Query, Seq<u8>)>, id: u32, d: Seq<u8>)
    ensures
        !m.contains_key(id) ==> !refresh_changed(m, id, d),
        m.contains_key(id) ==> (refresh_changed(m, id, d) <==> (m[id].1.len() != d.len() || exists|j: int|
            0 <= j < d.len() && #[trigger] m[id].1[j] != d[j])),
        m.contains_key(id) ==> refreshed(m, id, d).contains_key(id) && refreshed(m, id, d)[id] == (
        m[id].0, d),
{
    if m.contains_key(id) {
        let p = m[id].1;
        if p.len() == d.len() && !(exists|j: int| 0 <= j < d.len() && #[trigger] p[j] != d[j]) {
            assert(p =~= d);
        }
        if exists|j: int| 0 <= j < d.len() && #[trigger] p[j] != d[j] {
            let j = choose|j: int| 0 <= j < d.len() && #[trigger] p[j] != d[j];
            assert(p != d);
        }
    }
}

} // verus!
