//! The correlation table: in-flight request ids with their deadlines. A
//! response is delivered at most once per id; late or repeated ones are
//! discarded.
use vstd::prelude::*;
use vstd::map::*;

verus! {

/// Keys are pairwise distinct.
pub open spec fn ids_distinct<K, V>(s: Seq<(K, V)>) -> bool {
    forall|i: int, j: int| 0 <= i < s.len() && 0 <= j < s.len() && i != j ==> s[i].0 != s[j].0
}

/// The key is in the table.
pub open spec fn pending_in<K, V>(s: Seq<(K, V)>, id: K) -> bool {
    exists|i: int| 0 <= i < s.len() && s[i].0 == id
}

/// The table as a map from key to value.
pub open spec fn table_map<K, V>(s: Seq<(K, V)>) -> Map<K, V> {
    Map::new(|id: K| pending_in(s, id), |id: K| s[choose|i: int| 0 <= i < s.len() && s[i].0 == id].1)
}

pub proof fn lemma_table_value<K, V>(s: Seq<(K, V)>, i: int)
    requires
        ids_distinct(s),
        0 <= i < s.len(),
    ensures
        table_map(s).contains_key(s[i].0),
        table_map(s)[s[i].0] == s[i].1,
{
    let id = s[i].0;
    assert(pending_in(s, id));
    let j = choose|j: int| 0 <= j < s.len() && s[j].0 == id;
    assert(j == i);
}

pub proof fn lemma_table_push<K, V>(s: Seq<(K, V)>, id: K, deadline: V)
    requires
        ids_distinct(s),
        !pending_in(s, id),
    ensures
        ids_distinct(s.push((id, deadline))),
        table_map(s.push((id, deadline))) == table_map(s).insert(id, deadline),
{
    let t = s.push((id, deadline));
    assert(ids_distinct(t)) by {
        assert forall|i: int, j: int| 0 <= i < t.len() && 0 <= j < t.len() && i != j implies t[i].0 != t[j].0 by {
            if i < s.len() && j < s.len() {
                assert(t[i] == s[i] && t[j] == s[j]);
            } else if i < s.len() {
                assert(t[i] == s[i]);
            } else {
                assert(t[j] == s[j]);
            }
        }
    }
    assert forall|k: K| #[trigger] pending_in(t, k) <==> pending_in(s, k) || k == id by {
        if pending_in(s, k) {
            let i = choose|i: int| 0 <= i < s.len() && s[i].0 == k;
            assert(t[i] == s[i]);
        }
        if pending_in(t, k) && k != id {
            let i = choose|i: int| 0 <= i < t.len() && t[i].0 == k;
            assert(i < s.len());
            assert(t[i] == s[i]);
        }
        assert(t[s.len() as int].0 == id);
    }
    assert_maps_equal!(table_map(t), table_map(s).insert(id, deadline), k => {
        if k == id {
            lemma_table_value(t, s.len() as int);
        } else if pending_in(s, k) {
            let i = choose|i: int| 0 <= i < s.len() && s[i].0 == k;
            lemma_table_value(s, i);
            assert(t[i] == s[i]);
            lemma_table_value(t, i);
        }
    });
}

pub proof fn lemma_table_remove<K, V>(s: Seq<(K, V)>, i: int)
    requires
        ids_distinct(s),
        0 <= i < s.len(),
    ensures
        ids_distinct(s.remove(i)),
        table_map(s.remove(i)) == table_map(s).remove(s[i].0),
{
    let t = s.remove(i);
    let id = s[i].0;
    assert(ids_distinct(t)) by {
        assert forall|a: int, b: int| 0 <= a < t.len() && 0 <= b < t.len() && a != b implies t[a].0 != t[b].0 by {
            let a2 = if a < i { a } else { a + 1 };
            let b2 = if b < i { b } else { b + 1 };
            assert(t[a] == s[a2] && t[b] == s[b2]);
        }
    }
    assert forall|k: K| #[trigger] pending_in(t, k) <==> pending_in(s, k) && k != id by {
        if pending_in(t, k) {
            let a = choose|a: int| 0 <= a < t.len() && t[a].0 == k;
            let a2 = if a < i { a } else { a + 1 };
            assert(t[a] == s[a2]);
        }
        if pending_in(s, k) && k != id {
            let a = choose|a: int| 0 <= a < s.len() && s[a].0 == k;
            assert(a != i);
            let a1 = if a < i { a } else { a - 1 };
            assert(t[a1] == s[a]);
        }
    }
    assert_maps_equal!(table_map(t), table_map(s).remove(id), k => {
        if pending_in(t, k) {
            let a = choose|a: int| 0 <= a < t.len() && t[a].0 == k;
            let a2 = if a < i { a } else { a + 1 };
            assert(t[a] == s[a2]);
            lemma_table_value(t, a);
            lemma_table_value(s, a2);
        }
    });
}

/// What became of a delivered response.
#[derive(Debug, Clone, Copy, PartialEq, Eq, Structural)]
pub enum Delivery {
    /// The waiting caller receives it.
    Delivered,
    /// Its deadline had passed: the caller is told the request timed out.
    Expired,
    /// The id was not pending: resolved already, swept, or never sent.
    Discarded,
}

/// The outcome of delivering a response for `id` at `now` to a table.
pub open spec fn delivery_outcome(table: Map<u128, u64>, id: u128, now: u64) -> Delivery {
    if !table.contains_key(id) {
        Delivery::Discarded
    } else if table[id] > now {
        Delivery::Delivered
    } else {
        Delivery::Expired
    }
}

/// Exactly once: after a response for `id` was handed to the table, a second
/// response for `id` is discarded, whenever it comes.
pub proof fn lemma_exactly_once(table: Map<u128, u64>, id: u128, first: u64, second: u64)
    ensures
        delivery_outcome(table.remove(id), id, second) == Delivery::Discarded,
        delivery_outcome(table, id, first) == Delivery::Delivered ==> table.contains_key(id),
{
}

/// Pending request ids with their deadlines.
pub struct CorrelationTable {
    entries: Vec<(u128, u64)>,
}

impl CorrelationTable {
    /// The pending ids, each with its deadline.
    pub closed spec fn view(&self) -> Map<u128, u64> {
        table_map(self.entries@)
    }

    pub closed spec fn well_formed(&self) -> bool {
        ids_distinct(self.entries@)
    }

    /// An empty table.
    pub fn new() -> (r: CorrelationTable)
        ensures
            r.well_formed(),
            r.view() == Map::<u128, u64>::empty(),
    {
        let r = CorrelationTable { entries: Vec::new() };
        assert(r.view() =~= Map::<u128, u64>::empty());
        r
    }

    fn position(&self, id: u128) -> (r: Option<usize>)
        requires
            self.well_formed(),
        ensures
            r is Some <==> self.view().contains_key(id),
            r matches Some(i) ==> i < self.entries@.len() && self.entries@[i as int].0 == id,
    {
        let mut i: usize = 0;
        while i < self.entries.len()
            invariant
                i <= self.entries@.len(),
                forall|k: int| 0 <= k < i ==> self.entries@[k].0 != id,
            decreases self.entries@.len() - i,
        {
            if self.entries[i].0 == id {
                assert(pending_in(self.entries@, id));
                return Some(i);
            }
            i = i + 1;
        }
        None
    }

    /// Whether a response for the id is still awaited.
    pub fn is_pending(&self, request_id: u128) -> (r: bool)
        requires
            self.well_formed(),
        ensures
            r == self.view().contains_key(request_id),
    {
        self.position(request_id).is_some()
    }

    /// Starts awaiting a response for the id until `deadline`; `false`, with
    /// nothing changed, where the id is pending already.
    pub fn register(&mut self, request_id: u128, deadline: u64) -> (added: bool)
        requires
            old(self).well_formed(),
        ensures
            final(self).well_formed(),
            added == !old(self).view().contains_key(request_id),
            added ==> final(self).view() == old(self).view().insert(request_id, deadline),
            !added ==> final(self).view() == old(self).view(),
    {
        if self.position(request_id).is_some() {
            return false;
        }
        proof {
            lemma_table_push(self.entries@, request_id, deadline);
        }
        self.entries.push((request_id, deadline));
        true
    }

    /// Hands over a response for the id at `now`: the id stops being pending,
    /// and the outcome says whether its caller receives it.
    pub fn deliver(&mut self, request_id: u128, now: u64) -> (r: Delivery)
        requires
            old(self).well_formed(),
        ensures
            final(self).well_formed(),
            r == delivery_outcome(old(self).view(), request_id, now),
            final(self).view() == old(self).view().remove(request_id),
    {
        match self.position(request_id) {
            Some(i) => {
                let deadline = self.entries[i].1;
                proof {
                    lemma_table_value(self.entries@, i as int);
                    lemma_table_remove(self.entries@, i as int);
                }
                self.entries.remove(i);
                if deadline > now {
                    Delivery::Delivered
                } else {
                    Delivery::Expired
                }
            },
            None => {
                assert(old(self).view() =~= old(self).view().remove(request_id));
                Delivery::Discarded
            },
        }
    }

    /// Removes every id whose deadline is `now` or earlier and returns them,
    /// so that their callers can be told that the request timed out.
    pub fn sweep(&mut self, now: u64) -> (expired: Vec<u128>)
        requires
            old(self).well_formed(),
        ensures
            final(self).well_formed(),
            forall|id: u128|
                #[trigger] final(self).view().contains_key(id) <==> old(self).view().contains_key(id)
                    && old(self).view()[id] > now,
            forall|id: u128| final(self).view().contains_key(id) ==> #[trigger] final(self).view()[id] == old(self).view()[id],
            forall|id: u128|
                #[trigger] expired@.contains(id) <==> old(self).view().contains_key(id) && old(self).view()[id] <= now,
    {
        let ghost start = self.view();
        let mut out: Vec<u128> = Vec::new();
        let mut i: usize = 0;
        while i < self.entries.len()
            invariant
                self.well_formed(),
                i <= self.entries@.len(),
                forall|j: int| 0 <= j < i ==> (#[trigger] self.entries@[j]).1 > now,
                forall|k: u128| #[trigger] self.view().contains_key(k) ==> start.contains_key(k) && self.view()[k] == start[k],
                forall|k: u128| start.contains_key(k) && start[k] > now ==> #[trigger] self.view().contains_key(k),
                forall|k: u128| #[trigger] out@.contains(k) <==> start.contains_key(k) && !self.view().contains_key(k),
            decreases self.entries@.len() - i,
        {
            if self.entries[i].1 <= now {
                let id = self.entries[i].0;
                let ghost before = self.view();
                let ghost out_before = out@;
                let ghost entries_before = self.entries@;
                proof {
                    lemma_table_value(self.entries@, i as int);
                    lemma_table_remove(self.entries@, i as int);
                }
                self.entries.remove(i);
                out.push(id);
                proof {
                    assert(self.view() == before.remove(id));
                    assert forall|k: u128| #[trigger] out@.contains(k) <==> start.contains_key(k) && !self.view().contains_key(k) by {
                        if k != id {
                            assert(out@.contains(k) <==> out_before.contains(k)) by {
                                if out@.contains(k) {
                                    let a = choose|a: int| 0 <= a < out@.len() && out@[a] == k;
                                    assert(out_before[a] == k);
                                }
                                if out_before.contains(k) {
                                    let a = choose|a: int| 0 <= a < out_before.len() && out_before[a] == k;
                                    assert(out@[a] == k);
                                }
                            }
                        } else {
                            assert(out@[out@.len() - 1] == id);
                        }
                    }
                    assert forall|j: int| 0 <= j < i implies (#[trigger] self.entries@[j]).1 > now by {
                        assert(self.entries@[j] == entries_before[j]);
                    }
                }
            } else {
                i = i + 1;
            }
        }
        proof {
            assert forall|k: u128| #[trigger] self.view().contains_key(k) implies self.view()[k] > now by {
                let a = choose|a: int| 0 <= a < self.entries@.len() && self.entries@[a].0 == k;
                lemma_table_value(self.entries@, a);
            }
        }
        out
    }
}

} // verus!
