//! A gas-metered key/value store with snapshot range iteration.
//!
//! Entries are held sorted by key in lexicographic byte order, so the store is
//! both an association list and the ordered sequence that range scans walk.
//! Every operation reports its gas cost.  Writes notify an audit observer by
//! appending a change event to an outbox that the surrounding application
//! drains; a scan snapshots the matching entries at call time, so later writes
//! never affect an open iterator.

use vstd::prelude::*;

use crate::keys::{compare_keys, lemma_lex_trichotomy, lex_lt, KeyOrdering};

verus! {

/// Gas charged by a read on an exhausted iterator.
pub const GAS_COST_LAST_ITERATION: u64 = 37;

/// Flat gas charged for opening a range scan.
pub const GAS_COST_RANGE: u64 = 11;

/// Direction of a range scan.
#[derive(Clone, Copy, Debug, PartialEq, Eq, Structural)]
pub enum Order {
    Ascending,
    Descending,
}

/// Errors of the store.
#[derive(Clone, Copy, Debug, PartialEq, Eq, Structural)]
pub enum StoreError {
    /// A cursor read named an iterator id that is not open.
    IteratorNotFound,
}

/// A change notification for the external audit observer.
#[derive(Debug)]
pub enum StoreEvent {
    Insert { key: Vec<u8>, value: Vec<u8> },
    Remove { key: Vec<u8> },
}

/// An open range iterator: the snapshot taken at scan time and a cursor.
#[derive(Debug)]
pub struct Iter {
    data: Vec<(Vec<u8>, Vec<u8>)>,
    position: usize,
}

/// The sequence of (key, value) byte strings held in a vector of owned pairs.
pub open spec fn entries_view(s: Seq<(Vec<u8>, Vec<u8>)>) -> Seq<(Seq<u8>, Seq<u8>)> {
    Seq::new(s.len(), |i: int| (s[i].0@, s[i].1@))
}

/// Appending an owned pair appends its view.
pub proof fn lemma_entries_view_push(s: Seq<(Vec<u8>, Vec<u8>)>, e: (Vec<u8>, Vec<u8>))
    ensures
        entries_view(s.push(e)) == entries_view(s).push((e.0@, e.1@)),
{
    assert forall|j: int| 0 <= j < s.len() + 1 implies entries_view(s.push(e))[j] == entries_view(
        s,
    ).push((e.0@, e.1@))[j] by {
        if j < s.len() {
            assert(s.push(e)[j] == s[j]);
        } else {
            assert(s.push(e)[j] == e);
        }
    }
    assert(entries_view(s.push(e)) =~= entries_view(s).push((e.0@, e.1@)));
}

/// Dropping the last owned pair drops the last of its view.
pub proof fn lemma_entries_view_drop_last(s: Seq<(Vec<u8>, Vec<u8>)>)
    requires
        s.len() > 0,
    ensures
        entries_view(s.drop_last()) == entries_view(s).drop_last(),
{
    assert(entries_view(s.drop_last()) =~= entries_view(s).drop_last());
}

/// Shortening a suffix by one element pushes that element onto the reversed
/// suffix.
pub proof fn lemma_reverse_step<A>(s: Seq<A>, m: int)
    requires
        1 <= m <= s.len(),
    ensures
        s.skip(m - 1).reverse() == s.skip(m).reverse().push(s[m - 1]),
{
    let n = s.len() as int;
    assert forall|j: int| 0 <= j < n - m + 1 implies #[trigger] s.skip(m - 1).reverse()[j] == s.skip(
        m,
    ).reverse().push(s[m - 1])[j] by {
        assert(s.skip(m - 1).reverse()[j] == s.skip(m - 1)[(n - m + 1) - 1 - j]);
        assert(s.skip(m - 1)[(n - m + 1) - 1 - j] == s[n - 1 - j]);
        if j < n - m {
            assert(s.skip(m).reverse().push(s[m - 1])[j] == s.skip(m).reverse()[j]);
            assert(s.skip(m).reverse()[j] == s.skip(m)[(n - m) - 1 - j]);
            assert(s.skip(m)[(n - m) - 1 - j] == s[n - 1 - j]);
        } else {
            assert(s.skip(m).reverse().push(s[m - 1])[j] == s[m - 1]);
        }
    }
    assert(s.skip(m - 1).reverse() =~= s.skip(m).reverse().push(s[m - 1]));
}

/// Keys appear in strictly ascending lexicographic order.
pub open spec fn sorted_entries(s: Seq<(Seq<u8>, Seq<u8>)>) -> bool {
    forall|i: int, j: int| 0 <= i < j < s.len() ==> lex_lt(#[trigger] s[i].0, #[trigger] s[j].0)
}

/// Every entry's key and value lengths fit the gas arithmetic.
pub open spec fn entry_sizes_ok(s: Seq<(Seq<u8>, Seq<u8>)>) -> bool {
    forall|i: int| 0 <= i < s.len() ==> (#[trigger] s[i]).0.len() + s[i].1.len() <= u64::MAX
}

/// Whether some entry of `s` has key `k`.
pub open spec fn has_key(s: Seq<(Seq<u8>, Seq<u8>)>, k: Seq<u8>) -> bool {
    exists|i: int| 0 <= i < s.len() && (#[trigger] s[i]).0 == k
}

/// The index of the entry with key `k`, when one exists.
pub open spec fn key_index(s: Seq<(Seq<u8>, Seq<u8>)>, k: Seq<u8>) -> int {
    choose|i: int| 0 <= i < s.len() && (#[trigger] s[i]).0 == k
}

/// The finite map that an entry sequence denotes.
pub open spec fn assoc_map(s: Seq<(Seq<u8>, Seq<u8>)>) -> Map<Seq<u8>, Seq<u8>> {
    Map::new(|k: Seq<u8>| has_key(s, k), |k: Seq<u8>| s[key_index(s, k)].1)
}

/// Whether key `k` lies within a half-open scan range: at or after `start`
/// (when given) and strictly before `end` (when given).  An inverted range
/// admits no key at all.
pub open spec fn in_range(k: Seq<u8>, start: Option<Seq<u8>>, end: Option<Seq<u8>>) -> bool {
    &&& (start matches Some(s) ==> !lex_lt(k, s))
    &&& (end matches Some(e) ==> lex_lt(k, e))
}

/// The entries of `s` whose keys lie in the range, in the order of `s`.
pub open spec fn range_filter(
    s: Seq<(Seq<u8>, Seq<u8>)>,
    start: Option<Seq<u8>>,
    end: Option<Seq<u8>>,
) -> Seq<(Seq<u8>, Seq<u8>)> {
    s.filter(|p: (Seq<u8>, Seq<u8>)| in_range(p.0, start, end))
}

/// The ordered snapshot a scan over `s` captures.
pub open spec fn range_snapshot(
    s: Seq<(Seq<u8>, Seq<u8>)>,
    start: Option<Seq<u8>>,
    end: Option<Seq<u8>>,
    order: Order,
) -> Seq<(Seq<u8>, Seq<u8>)> {
    if order is Ascending {
        range_filter(s, start, end)
    } else {
        range_filter(s, start, end).reverse()
    }
}

/// `x` clamped into the `u64` range.
pub open spec fn clamp_u64(x: int) -> u64 {
    if x > u64::MAX {
        u64::MAX
    } else if x < 0 {
        0u64
    } else {
        x as u64
    }
}

/// The view of an `Option<&[u8]>` scan bound.
pub open spec fn bound_view(o: Option<&[u8]>) -> Option<Seq<u8>> {
    match o {
        Some(s) => Some(s@),
        None => None,
    }
}

/// Gas charged for walking all the given snapshot items.
pub open spec fn items_gas(s: Seq<(Seq<u8>, Seq<u8>)>) -> int
    decreases s.len(),
{
    if s.len() == 0 {
        0
    } else {
        items_gas(s.drop_last()) + s.last().0.len() + s.last().1.len()
    }
}

/// Snapshot walking gas is never negative.
pub proof fn lemma_items_gas_nonneg(s: Seq<(Seq<u8>, Seq<u8>)>)
    ensures
        items_gas(s) >= 0,
    decreases s.len(),
{
    if s.len() > 0 {
        lemma_items_gas_nonneg(s.drop_last());
    }
}

/// The event is an insert notification for exactly this key and value.
pub open spec fn is_insert_event(e: StoreEvent, k: Seq<u8>, v: Seq<u8>) -> bool {
    e matches StoreEvent::Insert { key, value } && key@ == k && value@ == v
}

/// The event is a removal notification for exactly this key.
pub open spec fn is_remove_event(e: StoreEvent, k: Seq<u8>) -> bool {
    e matches StoreEvent::Remove { key } && key@ == k
}

impl Iter {
    /// The snapshot this iterator walks.
    pub closed spec fn items(self) -> Seq<(Seq<u8>, Seq<u8>)> {
        entries_view(self.data@)
    }

    /// The cursor: how many items have been handed out.
    pub closed spec fn pos(self) -> nat {
        self.position as nat
    }

    /// The cursor never passes the end and all items fit the gas arithmetic.
    pub open spec fn wf(self) -> bool {
        self.pos() <= self.items().len() && entry_sizes_ok(self.items())
    }
}

/// The gas-metered store.
#[derive(Debug)]
pub struct MockStorage {
    data: Vec<(Vec<u8>, Vec<u8>)>,
    iterators: Vec<Iter>,
    iterator_base: u32,
    events: Vec<StoreEvent>,
}

impl MockStorage {
    /// The stored entries, sorted ascending by key.
    pub closed spec fn entries(self) -> Seq<(Seq<u8>, Seq<u8>)> {
        entries_view(self.data@)
    }

    /// The store seen as a map from key to value.
    pub open spec fn as_map(self) -> Map<Seq<u8>, Seq<u8>> {
        assoc_map(self.entries())
    }

    /// The open iterators, in order of creation.
    pub closed spec fn iters(self) -> Seq<Iter> {
        self.iterators@
    }

    /// Ids handed out before the live ones; a live id exceeds this base.
    pub closed spec fn iter_base(self) -> nat {
        self.iterator_base as nat
    }

    /// Pending observer notifications, oldest first.
    pub closed spec fn pending_events(self) -> Seq<StoreEvent> {
        self.events@
    }

    /// `id` names a currently open iterator.
    pub open spec fn live_iter(self, id: u32) -> bool {
        self.iter_base() < id <= self.iter_base() + self.iters().len()
    }

    /// The iterator that a live id names.
    pub open spec fn iter_of(self, id: u32) -> Iter {
        self.iters()[id - self.iter_base() - 1]
    }

    /// Well-formedness: entries sorted with unique keys, sizes within the gas
    /// arithmetic, cursors within their snapshots, ids within `u32` range.
    pub open spec fn wf(self) -> bool {
        &&& sorted_entries(self.entries())
        &&& entry_sizes_ok(self.entries())
        &&& forall|i: int| 0 <= i < self.iters().len() ==> (#[trigger] self.iters()[i]).wf()
        &&& self.iter_base() + self.iters().len() <= u32::MAX
    }

    /// An empty store.
    pub fn new() -> (r: MockStorage)
        ensures
            r.wf(),
            r.as_map() == Map::<Seq<u8>, Seq<u8>>::empty(),
            r.entries().len() == 0,
            r.iters().len() == 0,
            r.iter_base() == 0,
            r.pending_events().len() == 0,
    {
        let r = MockStorage {
            data: Vec::new(),
            iterators: Vec::new(),
            iterator_base: 0,
            events: Vec::new(),
        };
        proof {
            assert(r.as_map() =~= Map::<Seq<u8>, Seq<u8>>::empty());
        }
        r
    }

    /// Reads the value stored under `key`, reporting a gas cost proportional
    /// to the key length.
    pub fn get(&self, key: &[u8]) -> (r: (Option<Vec<u8>>, u64))
        requires
            self.wf(),
        ensures
            r.1 == key@.len(),
            r.0 is Some <==> self.as_map().contains_key(key@),
            r.0 is Some ==> r.0->0@ == self.as_map()[key@],
    {
        let mut i: usize = 0;
        while i < self.data.len()
            invariant
                self.wf(),
                i <= self.entries().len(),
                forall|j: int| 0 <= j < i ==> (#[trigger] self.entries()[j]).0 != key@,
            decreases self.entries().len() - i,
        {
            match compare_keys(self.data[i].0.as_slice(), key) {
                KeyOrdering::Equal => {
                    let v = vstd::slice::slice_to_vec(self.data[i].1.as_slice());
                    proof {
                        assert(self.entries()[i as int].0 == key@);
                        lemma_key_index_unique(self.entries(), i as int);
                    }
                    return (Some(v), key.len() as u64);
                },
                _ => {},
            }
            i = i + 1;
        }
        proof {
            assert(!has_key(self.entries(), key@));
        }
        (None, key.len() as u64)
    }

    /// Finds where `key` lives or belongs: the first index whose key is not
    /// lexicographically before `key`, and whether that index holds `key`.
    fn find_position(&self, key: &[u8]) -> (r: (usize, bool))
        requires
            self.wf(),
        ensures
            r.0 <= self.entries().len(),
            forall|j: int| 0 <= j < r.0 ==> lex_lt((#[trigger] self.entries()[j]).0, key@),
            r.1 ==> r.0 < self.entries().len() && self.entries()[r.0 as int].0 == key@,
            !r.1 ==> forall|j: int|
                r.0 <= j < self.entries().len() ==> lex_lt(key@, (#[trigger] self.entries()[j]).0),
            !r.1 ==> !has_key(self.entries(), key@),
    {
        let ghost es = self.entries();
        let mut i: usize = 0;
        while i < self.data.len()
            invariant
                self.wf(),
                self.entries() == es,
                i <= es.len(),
                forall|j: int| 0 <= j < i ==> lex_lt((#[trigger] es[j]).0, key@),
            decreases es.len() - i,
        {
            match compare_keys(self.data[i].0.as_slice(), key) {
                KeyOrdering::Less => {
                    i = i + 1;
                },
                KeyOrdering::Equal => {
                    return (i, true);
                },
                KeyOrdering::Greater => {
                    proof {
                        lemma_after_position(es, i as int, key@);
                    }
                    return (i, false);
                },
            }
        }
        proof {
            lemma_after_position(es, i as int, key@);
        }
        (i, false)
    }

    /// Writes `value` under `key`, reporting a gas cost proportional to the
    /// lengths written, and queues an insert notification for the observer.
    /// Open iterators keep their snapshots.
    pub fn set(&mut self, key: &[u8], value: &[u8]) -> (gas: u64)
        requires
            old(self).wf(),
            key@.len() + value@.len() <= u64::MAX,
        ensures
            final(self).wf(),
            gas == key@.len() + value@.len(),
            final(self).as_map() == old(self).as_map().insert(key@, value@),
            final(self).iters() == old(self).iters(),
            final(self).iter_base() == old(self).iter_base(),
            final(self).pending_events().len() == old(self).pending_events().len() + 1,
            final(self).pending_events().drop_last() == old(self).pending_events(),
            is_insert_event(final(self).pending_events().last(), key@, value@),
    {
        let ghost olds = self.entries();
        let (i, found) = self.find_position(key);
        let entry = (vstd::slice::slice_to_vec(key), vstd::slice::slice_to_vec(value));
        if found {
            proof {
                lemma_assoc_update(olds, i as int, value@);
            }
            self.data[i] = entry;
            proof {
                assert(self.entries() =~= olds.update(i as int, (key@, value@)));
                assert(olds.update(i as int, (olds[i as int].0, value@)) =~= olds.update(
                    i as int,
                    (key@, value@),
                ));
            }
        } else {
            proof {
                lemma_assoc_insert(olds, i as int, key@, value@);
            }
            self.data.insert(i, entry);
            proof {
                assert(self.entries() =~= olds.insert(i as int, (key@, value@)));
            }
        }
        self.events.push(StoreEvent::Insert {
            key: vstd::slice::slice_to_vec(key),
            value: vstd::slice::slice_to_vec(value),
        });
        proof {
            assert(self.pending_events().drop_last() =~= old(self).pending_events());
        }
        key.len() as u64 + value.len() as u64
    }

    /// Deletes the entry under `key` if there is one, reporting a gas cost
    /// proportional to the key length, and queues a removal notification.
    /// Open iterators keep their snapshots.
    pub fn remove(&mut self, key: &[u8]) -> (gas: u64)
        requires
            old(self).wf(),
        ensures
            final(self).wf(),
            gas == key@.len(),
            final(self).as_map() == old(self).as_map().remove(key@),
            final(self).iters() == old(self).iters(),
            final(self).iter_base() == old(self).iter_base(),
            final(self).pending_events().len() == old(self).pending_events().len() + 1,
            final(self).pending_events().drop_last() == old(self).pending_events(),
            is_remove_event(final(self).pending_events().last(), key@),
    {
        let ghost olds = self.entries();
        let (i, found) = self.find_position(key);
        if found {
            proof {
                lemma_assoc_remove(olds, i as int);
            }
            self.data.remove(i);
            proof {
                assert(self.entries() =~= olds.remove(i as int));
            }
        } else {
            proof {
                assert(old(self).as_map().remove(key@) =~= old(self).as_map());
            }
        }
        self.events.push(StoreEvent::Remove { key: vstd::slice::slice_to_vec(key) });
        proof {
            assert(self.pending_events().drop_last() =~= old(self).pending_events());
        }
        key.len() as u64
    }

    /// Opens a range scan: snapshots every entry in the half-open range at
    /// call time, in the requested order, and returns a fresh iterator id.
    /// An inverted range simply snapshots nothing.
    pub fn scan(&mut self, start: Option<&[u8]>, end: Option<&[u8]>, order: Order) -> (r: (
        u32,
        u64,
    ))
        requires
            old(self).wf(),
            old(self).iter_base() + old(self).iters().len() < u32::MAX,
        ensures
            final(self).wf(),
            r.1 == GAS_COST_RANGE,
            final(self).entries() == old(self).entries(),
            final(self).as_map() == old(self).as_map(),
            final(self).pending_events() == old(self).pending_events(),
            final(self).iter_base() == old(self).iter_base(),
            final(self).iters().len() == old(self).iters().len() + 1,
            final(self).iters().drop_last() == old(self).iters(),
            r.0 == old(self).iter_base() + old(self).iters().len() + 1,
            final(self).live_iter(r.0),
            final(self).iter_of(r.0).items() == range_snapshot(
                old(self).entries(),
                bound_view(start),
                bound_view(end),
                order,
            ),
            final(self).iter_of(r.0).pos() == 0,
    {
        let ghost es = self.entries();
        let ghost gstart = bound_view(start);
        let ghost gend = bound_view(end);
        let mut snap: Vec<(Vec<u8>, Vec<u8>)> = Vec::new();
        let mut i: usize = 0;
        proof {
            lemma_range_filter_empty(es, gstart, gend);
            assert(es.take(0) =~= Seq::<(Seq<u8>, Seq<u8>)>::empty());
        }
        while i < self.data.len()
            invariant
                self.wf(),
                self == old(self),
                es == self.entries(),
                gstart == bound_view(start),
                gend == bound_view(end),
                i <= es.len(),
                entries_view(snap@) == range_filter(es.take(i as int), gstart, gend),
                entry_sizes_ok(entries_view(snap@)),
            decreases es.len() - i,
        {
            let mut keep = true;
            match start {
                Some(sb) => {
                    match compare_keys(self.data[i].0.as_slice(), sb) {
                        KeyOrdering::Less => {
                            keep = false;
                        },
                        _ => {},
                    }
                },
                None => {},
            }
            if keep {
                match end {
                    Some(eb) => {
                        match compare_keys(self.data[i].0.as_slice(), eb) {
                            KeyOrdering::Less => {},
                            _ => {
                                keep = false;
                            },
                        }
                    },
                    None => {},
                }
            }
            proof {
                assert(keep == in_range(es[i as int].0, gstart, gend));
                lemma_range_filter_step(es, i as int, gstart, gend);
                assert(es.take(i + 1).drop_last() =~= es.take(i as int));
            }
            if keep {
                let k = vstd::slice::slice_to_vec(self.data[i].0.as_slice());
                let v = vstd::slice::slice_to_vec(self.data[i].1.as_slice());
                let ghost presnap = snap@;
                snap.push((k, v));
                proof {
                    lemma_entries_view_push(presnap, ((k, v)));
                    assert((k@, v@) == es[i as int]);
                    assert(entries_view(snap@) =~= range_filter(es.take(i + 1), gstart, gend));
                }
            } else {
                proof {
                    assert(entries_view(snap@) =~= range_filter(es.take(i + 1), gstart, gend));
                }
            }
            i = i + 1;
        }
        proof {
            assert(es.take(es.len() as int) =~= es);
        }
        let iter_data: Vec<(Vec<u8>, Vec<u8>)> = match order {
            Order::Ascending => snap,
            Order::Descending => {
                let ghost full = entries_view(snap@);
                let mut rev: Vec<(Vec<u8>, Vec<u8>)> = Vec::new();
                proof {
                    assert(entries_view(rev@) =~= full.skip(snap@.len() as int).reverse());
                }
                loop
                    invariant
                        entries_view(snap@) == full.take(snap@.len() as int),
                        snap@.len() <= full.len(),
                        entries_view(rev@) == full.skip(snap@.len() as int).reverse(),
                        entry_sizes_ok(full),
                    ensures
                        snap@.len() == 0,
                        entries_view(rev@) == full.reverse(),
                    decreases snap@.len(),
                {
                    proof {
                        assert(entries_view(snap@).len() == snap@.len());
                    }
                    let ghost presnap = snap@;
                    let ghost prerev = rev@;
                    match snap.pop() {
                        Some(e) => {
                            let ghost m = presnap.len() as int;
                            proof {
                                assert(entries_view(presnap).len() == m);
                                lemma_entries_view_drop_last(presnap);
                                assert(full.take(m).drop_last() =~= full.take(m - 1));
                                assert(entries_view(snap@) == full.take(m - 1));
                                assert(entries_view(presnap).last() == (e.0@, e.1@));
                                assert(full.take(m)[m - 1] == full[m - 1]);
                                assert((e.0@, e.1@) == full[m - 1]);
                            }
                            rev.push(e);
                            proof {
                                lemma_entries_view_push(prerev, e);
                                lemma_reverse_step(full, m);
                                assert(entries_view(rev@) == full.skip(m - 1).reverse());
                            }
                        },
                        None => {
                            proof {
                                assert(full.skip(0) =~= full);
                                assert(entries_view(rev@) =~= full.reverse());
                            }
                            break ;
                        },
                    }
                }
                rev
            },
        };
        let id = self.iterator_base + (self.iterators.len() as u32) + 1;
        self.iterators.push(Iter { data: iter_data, position: 0 });
        proof {
            assert(self.iters().drop_last() =~= old(self).iters());
            assert(forall|j: int|
                0 <= j < self.iters().len() - 1 ==> #[trigger] self.iters()[j] == old(
                    self,
                ).iters()[j]);
        }
        (id, GAS_COST_RANGE)
    }

    /// Advances the iterator named by `id`: hands out the next snapshot item
    /// at a gas cost proportional to its size, or reports exhaustion at the
    /// flat last-iteration cost.  An unknown id is an error.
    pub fn next(&mut self, iterator_id: u32) -> (r: (
        Result<Option<(Vec<u8>, Vec<u8>)>, StoreError>,
        u64,
    ))
        requires
            old(self).wf(),
        ensures
            final(self).wf(),
            !old(self).live_iter(iterator_id) ==> *final(self) == *old(self) && r.0 == Result::<
                Option<(Vec<u8>, Vec<u8>)>,
                StoreError,
            >::Err(StoreError::IteratorNotFound) && r.1 == 0,
            old(self).live_iter(iterator_id) && old(self).iter_of(iterator_id).pos() < old(
                self,
            ).iter_of(iterator_id).items().len() ==> ({
                let it = old(self).iter_of(iterator_id);
                let item = it.items()[it.pos() as int];
                &&& (r.0 matches Ok(p) && p matches Some(q) && q.0@ == item.0 && q.1@ == item.1)
                &&& r.1 == item.0.len() + item.1.len()
                &&& final(self).live_iter(iterator_id)
                &&& final(self).iter_of(iterator_id).items() == it.items()
                &&& final(self).iter_of(iterator_id).pos() == it.pos() + 1
                &&& final(self).entries() == old(self).entries()
                &&& final(self).as_map() == old(self).as_map()
                &&& final(self).pending_events() == old(self).pending_events()
                &&& final(self).iter_base() == old(self).iter_base()
                &&& final(self).iters().len() == old(self).iters().len()
                &&& forall|w: int|
                    0 <= w < old(self).iters().len() && w != iterator_id - old(self).iter_base()
                        - 1 ==> final(self).iters()[w] == old(self).iters()[w]
            }),
            old(self).live_iter(iterator_id) && old(self).iter_of(iterator_id).pos() >= old(
                self,
            ).iter_of(iterator_id).items().len() ==> *final(self) == *old(self) && r.0
                == Result::<Option<(Vec<u8>, Vec<u8>)>, StoreError>::Ok(None) && r.1
                == GAS_COST_LAST_ITERATION,
    {
        if iterator_id <= self.iterator_base {
            return (Err(StoreError::IteratorNotFound), 0);
        }
        let off = iterator_id - self.iterator_base;
        if off as usize > self.iterators.len() {
            return (Err(StoreError::IteratorNotFound), 0);
        }
        let idx = (off as usize) - 1;
        let pos = self.iterators[idx].position;
        if pos < self.iterators[idx].data.len() {
            let k = vstd::slice::slice_to_vec(self.iterators[idx].data[pos].0.as_slice());
            let v = vstd::slice::slice_to_vec(self.iterators[idx].data[pos].1.as_slice());
            proof {
                let it = self.iters()[idx as int];
                assert(it.wf());
                assert(it.items()[pos as int] == (k@, v@));
                assert(k@.len() + v@.len() <= u64::MAX);
            }
            self.iterators[idx].position = pos + 1;
            let g = (k.len() as u64) + (v.len() as u64);
            (Ok(Some((k, v))), g)
        } else {
            (Ok(None), GAS_COST_LAST_ITERATION)
        }
    }

    /// Walks the iterator named by `id` to its end, collecting the remaining
    /// snapshot items and the total gas of the walk, exhaustion cost included.
    pub fn all(&mut self, iterator_id: u32) -> (r: (
        Result<Vec<(Vec<u8>, Vec<u8>)>, StoreError>,
        u64,
    ))
        requires
            old(self).wf(),
        ensures
            final(self).wf(),
            !old(self).live_iter(iterator_id) ==> *final(self) == *old(self) && r.0 == Result::<
                Vec<(Vec<u8>, Vec<u8>)>,
                StoreError,
            >::Err(StoreError::IteratorNotFound) && r.1 == 0,
            old(self).live_iter(iterator_id) ==> ({
                let it = old(self).iter_of(iterator_id);
                let rem = it.items().skip(it.pos() as int);
                &&& (r.0 matches Ok(v) && entries_view(v@) == rem)
                &&& r.1 == clamp_u64(items_gas(rem) + GAS_COST_LAST_ITERATION)
                &&& final(self).live_iter(iterator_id)
                &&& final(self).iter_of(iterator_id).items() == it.items()
                &&& final(self).iter_of(iterator_id).pos() == it.items().len()
                &&& final(self).entries() == old(self).entries()
                &&& final(self).as_map() == old(self).as_map()
                &&& final(self).pending_events() == old(self).pending_events()
                &&& final(self).iter_base() == old(self).iter_base()
                &&& final(self).iters().len() == old(self).iters().len()
            }),
    {
        if iterator_id <= self.iterator_base || (iterator_id - self.iterator_base) as usize
            > self.iterators.len() {
            return (Err(StoreError::IteratorNotFound), 0);
        }
        let ghost it0 = self.iter_of(iterator_id);
        let ghost items = it0.items();
        let ghost start_pos = it0.pos();
        let mut out: Vec<(Vec<u8>, Vec<u8>)> = Vec::new();
        let mut total: u64 = 0;
        proof {
            assert(entries_view(out@) =~= items.subrange(start_pos as int, start_pos as int));
            assert(items_gas(items.subrange(start_pos as int, start_pos as int)) == 0);
        }
        loop
            invariant_except_break
                total == clamp_u64(items_gas(items.subrange(start_pos as int, self.iter_of(iterator_id).pos() as int))),
            invariant
                self.wf(),
                old(self).live_iter(iterator_id),
                self.live_iter(iterator_id),
                self.iter_of(iterator_id).items() == items,
                old(self).iter_of(iterator_id) == it0,
                it0.wf(),
                items == it0.items(),
                start_pos == it0.pos(),
                start_pos <= self.iter_of(iterator_id).pos() <= items.len(),
                entries_view(out@) == items.subrange(start_pos as int, self.iter_of(iterator_id).pos() as int),
                self.entries() == old(self).entries(),
                self.pending_events() == old(self).pending_events(),
                self.iter_base() == old(self).iter_base(),
                self.iters().len() == old(self).iters().len(),
            ensures
                self.wf(),
                self.live_iter(iterator_id),
                self.iter_of(iterator_id).items() == items,
                self.iter_of(iterator_id).pos() == items.len(),
                entries_view(out@) == items.subrange(start_pos as int, items.len() as int),
                total == clamp_u64(items_gas(items.subrange(start_pos as int, items.len() as int)) + GAS_COST_LAST_ITERATION),
                self.entries() == old(self).entries(),
                self.pending_events() == old(self).pending_events(),
                self.iter_base() == old(self).iter_base(),
                self.iters().len() == old(self).iters().len(),
            decreases items.len() - self.iter_of(iterator_id).pos(),
        {
            let ghost pre = items.subrange(start_pos as int, self.iter_of(iterator_id).pos() as int);
            let ghost posn = self.iter_of(iterator_id).pos();
            let (res, g) = self.next(iterator_id);
            total = total.saturating_add(g);
            match res {
                Ok(Some(e)) => {
                    let ghost preout = out@;
                    out.push(e);
                    proof {
                        let post = items.subrange(start_pos as int, posn as int + 1);
                        assert(post.drop_last() =~= pre);
                        assert(post.last() == items[posn as int]);
                        lemma_entries_view_push(preout, e);
                        assert((e.0@, e.1@) == items[posn as int]);
                        assert(entries_view(out@) =~= post);
                        assert(items_gas(post) == items_gas(pre) + items[posn as int].0.len()
                            + items[posn as int].1.len());
                        lemma_items_gas_nonneg(pre);
                        assert(total == clamp_u64(items_gas(post)));
                    }
                },
                Ok(None) => {
                    proof {
                        lemma_items_gas_nonneg(pre);
                    }
                    break ;
                },
                Err(_) => {
                    proof {
                        assert(false);
                    }
                    break ;
                },
            }
        }
        proof {
            assert(self.as_map() =~= old(self).as_map());
        }
        (Ok(out), total)
    }

    /// Releases every open iterator, retiring their ids for good: the store
    /// never hands an id out twice.  Entries and pending events are untouched.
    pub fn clear_iterators(&mut self)
        requires
            old(self).wf(),
        ensures
            final(self).wf(),
            final(self).entries() == old(self).entries(),
            final(self).as_map() == old(self).as_map(),
            final(self).pending_events() == old(self).pending_events(),
            final(self).iters().len() == 0,
            final(self).iter_base() == old(self).iter_base() + old(self).iters().len(),
    {
        let n = self.iterators.len() as u32;
        self.iterator_base = self.iterator_base + n;
        self.iterators.clear();
        proof {
            assert(final(self).as_map() =~= old(self).as_map());
        }
    }

    /// A fresh store holding copies of this store's entries: what a contract
    /// replacement carries over.  No iterators, no pending events.
    pub fn copy_contents(&self) -> (r: MockStorage)
        requires
            self.wf(),
        ensures
            r.wf(),
            r.entries() == self.entries(),
            r.as_map() == self.as_map(),
            r.iters().len() == 0,
            r.iter_base() == 0,
            r.pending_events().len() == 0,
    {
        let mut data: Vec<(Vec<u8>, Vec<u8>)> = Vec::new();
        let mut i: usize = 0;
        while i < self.data.len()
            invariant
                self.wf(),
                i <= self.entries().len(),
                entries_view(data@) == self.entries().take(i as int),
            decreases self.entries().len() - i,
        {
            let k = vstd::slice::slice_to_vec(self.data[i].0.as_slice());
            let v = vstd::slice::slice_to_vec(self.data[i].1.as_slice());
            let ghost predata = data@;
            data.push((k, v));
            proof {
                lemma_entries_view_push(predata, ((k, v)));
                assert((k@, v@) == self.entries()[i as int]);
                assert(self.entries().take(i as int + 1) =~= self.entries().take(i as int).push(
                    self.entries()[i as int],
                ));
                assert(entries_view(data@) == self.entries().take(i as int + 1));
            }
            i = i + 1;
        }
        let r = MockStorage { data, iterators: Vec::new(), iterator_base: 0, events: Vec::new() };
        proof {
            assert(r.entries() =~= self.entries().take(self.entries().len() as int));
            assert(self.entries().take(self.entries().len() as int) =~= self.entries());
            assert(r.as_map() =~= self.as_map());
        }
        r
    }

    /// Hands the queued observer notifications out, oldest first, leaving the
    /// queue empty.  The entries and iterators are untouched.
    pub fn take_events(&mut self) -> (r: Vec<StoreEvent>)
        requires
            old(self).wf(),
        ensures
            final(self).wf(),
            r@ == old(self).pending_events(),
            final(self).pending_events().len() == 0,
            final(self).entries() == old(self).entries(),
            final(self).as_map() == old(self).as_map(),
            final(self).iters() == old(self).iters(),
            final(self).iter_base() == old(self).iter_base(),
    {
        let r = self.events.split_off(0);
        proof {
            assert(r@ =~= old(self).pending_events());
            assert(self.pending_events() =~= Seq::<StoreEvent>::empty());
        }
        r
    }
}

/// In a sorted entry sequence each key occurs at most once: an entry index
/// with key `k` is the only one, and it is the index the map view reads.
pub proof fn lemma_key_index_unique(s: Seq<(Seq<u8>, Seq<u8>)>, i: int)
    requires
        sorted_entries(s),
        0 <= i < s.len(),
    ensures
        has_key(s, s[i].0),
        key_index(s, s[i].0) == i,
        assoc_map(s).contains_key(s[i].0),
        assoc_map(s)[s[i].0] == s[i].1,
{
    assert(has_key(s, s[i].0));
    let j = key_index(s, s[i].0);
    if j != i {
        if j < i {
            assert(lex_lt(s[j].0, s[i].0));
        } else {
            assert(lex_lt(s[i].0, s[j].0));
        }
        lemma_lex_trichotomy(s[j].0, s[i].0);
    }
}

/// Updating the value at index `i` turns the map view into an insert of the
/// same key.
proof fn lemma_assoc_update(s: Seq<(Seq<u8>, Seq<u8>)>, i: int, v: Seq<u8>)
    requires
        sorted_entries(s),
        0 <= i < s.len(),
    ensures
        sorted_entries(s.update(i, (s[i].0, v))),
        assoc_map(s.update(i, (s[i].0, v))) == assoc_map(s).insert(s[i].0, v),
{
    let t = s.update(i, (s[i].0, v));
    assert forall|a: int, b: int| 0 <= a < b < t.len() implies lex_lt(
        #[trigger] t[a].0,
        #[trigger] t[b].0,
    ) by {
        assert(t[a].0 == s[a].0);
        assert(t[b].0 == s[b].0);
    }
    assert forall|k: Seq<u8>| has_key(t, k) <==> has_key(s, k) by {
        if has_key(t, k) {
            let w = choose|w: int| 0 <= w < t.len() && (#[trigger] t[w]).0 == k;
            assert(s[w].0 == k);
        }
        if has_key(s, k) {
            let w = choose|w: int| 0 <= w < s.len() && (#[trigger] s[w]).0 == k;
            assert(t[w].0 == k);
        }
    }
    assert forall|k: Seq<u8>| #[trigger] assoc_map(t).contains_key(k) implies assoc_map(t)[k]
        == assoc_map(s).insert(s[i].0, v)[k] by {
        let w = key_index(t, k);
        lemma_key_index_unique(t, w);
        if k == s[i].0 {
            lemma_key_index_unique(t, i);
            assert(w == i);
        } else {
            assert(s[w].0 == k);
            lemma_key_index_unique(s, w);
        }
    }
    assert(assoc_map(t) =~= assoc_map(s).insert(s[i].0, v));
}

/// Inserting a fresh entry between its lexicographic neighbours keeps the
/// sequence sorted and turns the map view into a map insert.
proof fn lemma_assoc_insert(s: Seq<(Seq<u8>, Seq<u8>)>, p: int, k: Seq<u8>, v: Seq<u8>)
    requires
        sorted_entries(s),
        0 <= p <= s.len(),
        forall|j: int| 0 <= j < p ==> lex_lt((#[trigger] s[j]).0, k),
        forall|j: int| p <= j < s.len() ==> lex_lt(k, (#[trigger] s[j]).0),
    ensures
        sorted_entries(s.insert(p, (k, v))),
        assoc_map(s.insert(p, (k, v))) == assoc_map(s).insert(k, v),
{
    let t = s.insert(p, (k, v));
    assert forall|a: int, b: int| 0 <= a < b < t.len() implies lex_lt(
        #[trigger] t[a].0,
        #[trigger] t[b].0,
    ) by {
        if a < p {
            assert(t[a] == s[a]);
        } else if a == p {
            assert(t[a].0 == k);
        } else {
            assert(t[a] == s[a - 1]);
        }
        if b < p {
            assert(t[b] == s[b]);
        } else if b == p {
            assert(t[b].0 == k);
        } else {
            assert(t[b] == s[b - 1]);
        }
    }
    assert forall|q: Seq<u8>| has_key(t, q) <==> (has_key(s, q) || q == k) by {
        if has_key(t, q) {
            let w = choose|w: int| 0 <= w < t.len() && (#[trigger] t[w]).0 == q;
            if w < p {
                assert(s[w].0 == q);
            } else if w > p {
                assert(s[w - 1].0 == q);
            }
        }
        if has_key(s, q) {
            let w = choose|w: int| 0 <= w < s.len() && (#[trigger] s[w]).0 == q;
            if w < p {
                assert(t[w].0 == q);
            } else {
                assert(t[w + 1].0 == q);
            }
        }
        if q == k {
            assert(t[p].0 == q);
        }
    }
    assert forall|q: Seq<u8>| #[trigger] assoc_map(t).contains_key(q) implies assoc_map(t)[q]
        == assoc_map(s).insert(k, v)[q] by {
        let w = key_index(t, q);
        lemma_key_index_unique(t, w);
        if q == k {
            lemma_key_index_unique(t, p);
            assert(w == p);
        } else {
            if w < p {
                assert(s[w].0 == q);
                lemma_key_index_unique(s, w);
            } else {
                assert(w > p);
                assert(s[w - 1].0 == q);
                lemma_key_index_unique(s, w - 1);
            }
        }
    }
    assert(assoc_map(t) =~= assoc_map(s).insert(k, v));
}

/// Removing the entry at index `i` keeps the sequence sorted and turns the
/// map view into a map removal of its key.
proof fn lemma_assoc_remove(s: Seq<(Seq<u8>, Seq<u8>)>, i: int)
    requires
        sorted_entries(s),
        0 <= i < s.len(),
    ensures
        sorted_entries(s.remove(i)),
        assoc_map(s.remove(i)) == assoc_map(s).remove(s[i].0),
{
    let t = s.remove(i);
    assert forall|a: int, b: int| 0 <= a < b < t.len() implies lex_lt(
        #[trigger] t[a].0,
        #[trigger] t[b].0,
    ) by {
        if a < i {
            assert(t[a] == s[a]);
        } else {
            assert(t[a] == s[a + 1]);
        }
        if b < i {
            assert(t[b] == s[b]);
        } else {
            assert(t[b] == s[b + 1]);
        }
    }
    assert forall|q: Seq<u8>| has_key(t, q) <==> (has_key(s, q) && q != s[i].0) by {
        if has_key(t, q) {
            let w = choose|w: int| 0 <= w < t.len() && (#[trigger] t[w]).0 == q;
            if w < i {
                assert(s[w].0 == q);
                lemma_key_index_unique(s, w);
                if q == s[i].0 {
                    lemma_key_index_unique(s, i);
                }
            } else {
                assert(s[w + 1].0 == q);
                lemma_key_index_unique(s, w + 1);
                if q == s[i].0 {
                    lemma_key_index_unique(s, i);
                }
            }
        }
        if has_key(s, q) && q != s[i].0 {
            let w = choose|w: int| 0 <= w < s.len() && (#[trigger] s[w]).0 == q;
            if w < i {
                assert(t[w].0 == q);
            } else {
                assert(w > i);
                assert(t[w - 1].0 == q);
            }
        }
    }
    assert forall|q: Seq<u8>| #[trigger] assoc_map(t).contains_key(q) implies assoc_map(t)[q]
        == assoc_map(s).remove(s[i].0)[q] by {
        let w = key_index(t, q);
        lemma_key_index_unique(t, w);
        if w < i {
            assert(s[w].0 == q);
            lemma_key_index_unique(s, w);
        } else {
            assert(s[w + 1].0 == q);
            lemma_key_index_unique(s, w + 1);
        }
    }
    assert(assoc_map(t) =~= assoc_map(s).remove(s[i].0));
}

/// Every entry at or after a position whose key is not below `k`, in a sorted
/// sequence whose earlier keys are all below `k`, lies strictly above `k`.
proof fn lemma_after_position(s: Seq<(Seq<u8>, Seq<u8>)>, p: int, k: Seq<u8>)
    requires
        sorted_entries(s),
        0 <= p <= s.len(),
        forall|j: int| 0 <= j < p ==> lex_lt((#[trigger] s[j]).0, k),
        p < s.len() ==> lex_lt(k, s[p].0),
    ensures
        forall|j: int| p <= j < s.len() ==> lex_lt(k, (#[trigger] s[j]).0),
        !has_key(s, k),
{
    assert forall|j: int| p <= j < s.len() implies lex_lt(k, (#[trigger] s[j]).0) by {
        if j > p {
            crate::keys::lemma_lex_transitive(k, s[p].0, s[j].0);
        }
    }
    assert forall|j: int| 0 <= j < s.len() implies (#[trigger] s[j]).0 != k by {
        if j < p {
            lemma_lex_trichotomy(s[j].0, k);
        } else {
            lemma_lex_trichotomy(k, s[j].0);
        }
    }
}

/// Filtering an empty entry sequence captures nothing.
proof fn lemma_range_filter_empty(
    s: Seq<(Seq<u8>, Seq<u8>)>,
    start: Option<Seq<u8>>,
    end: Option<Seq<u8>>,
)
    ensures
        range_filter(Seq::<(Seq<u8>, Seq<u8>)>::empty(), start, end) == Seq::<(
            Seq<u8>,
            Seq<u8>,
        )>::empty(),
{
    reveal_with_fuel(Seq::filter, 1);
}

/// One step of the scan loop: filtering a prefix one entry longer either
/// appends that entry or leaves the filtered sequence as it was.
proof fn lemma_range_filter_step(
    s: Seq<(Seq<u8>, Seq<u8>)>,
    i: int,
    start: Option<Seq<u8>>,
    end: Option<Seq<u8>>,
)
    requires
        0 <= i < s.len(),
    ensures
        in_range(s[i].0, start, end) ==> range_filter(s.take(i + 1), start, end) == range_filter(
            s.take(i),
            start,
            end,
        ).push(s[i]),
        !in_range(s[i].0, start, end) ==> range_filter(s.take(i + 1), start, end) == range_filter(
            s.take(i),
            start,
            end,
        ),
{
    let t = s.take(i + 1);
    assert(t.drop_last() =~= s.take(i));
    assert(t.last() == s[i]);
    reveal_with_fuel(Seq::filter, 1);
}

/// After a write, a read of the same key sees exactly the written value:
/// over the store's map view, inserting `(k, v)` makes `k` map to `v`.
pub proof fn lemma_set_then_get(m: Map<Seq<u8>, Seq<u8>>, k: Seq<u8>, v: Seq<u8>)
    ensures
        m.insert(k, v).contains_key(k),
        m.insert(k, v)[k] == v,
{
}

/// After a write and a removal of the same key, a read sees no value: over
/// the store's map view, inserting `(k, v)` and then removing `k` leaves a
/// map without `k`.
pub proof fn lemma_set_remove_then_get(m: Map<Seq<u8>, Seq<u8>>, k: Seq<u8>, v: Seq<u8>)
    ensures
        !m.insert(k, v).remove(k).contains_key(k),
{
}

/// No key is admitted by a range whose start bound lies at or beyond its end
/// bound.
pub proof fn lemma_inverted_range_admits_nothing(k: Seq<u8>, start: Seq<u8>, end: Seq<u8>)
    requires
        lex_lt(end, start) || end == start,
    ensures
        !in_range(k, Some(start), Some(end)),
{
    if in_range(k, Some(start), Some(end)) {
        if lex_lt(end, start) {
            crate::keys::lemma_lex_transitive(k, end, start);
        }
    }
}

/// Filtering keeps nothing when no key of `s` lies in the range.
proof fn lemma_range_filter_all_out(
    s: Seq<(Seq<u8>, Seq<u8>)>,
    start: Option<Seq<u8>>,
    end: Option<Seq<u8>>,
)
    requires
        forall|i: int| 0 <= i < s.len() ==> !in_range((#[trigger] s[i]).0, start, end),
    ensures
        range_filter(s, start, end).len() == 0,
    decreases s.len(),
{
    reveal_with_fuel(Seq::filter, 1);
    if s.len() > 0 {
        assert(!in_range(s[s.len() - 1].0, start, end));
        lemma_range_filter_all_out(s.drop_last(), start, end);
    }
}

/// A scan over an inverted range, whose start bound lies at or beyond its end
/// bound, snapshots nothing: its iterator reports exhaustion at the very
/// first read.
pub proof fn lemma_inverted_range_empty_snapshot(
    s: Seq<(Seq<u8>, Seq<u8>)>,
    start: Seq<u8>,
    end: Seq<u8>,
    order: Order,
)
    requires
        lex_lt(end, start) || end == start,
    ensures
        range_snapshot(s, Some(start), Some(end), order).len() == 0,
{
    assert forall|i: int| 0 <= i < s.len() implies !in_range(
        (#[trigger] s[i]).0,
        Some(start),
        Some(end),
    ) by {
        lemma_inverted_range_admits_nothing(s[i].0, start, end);
    }
    lemma_range_filter_all_out(s, Some(start), Some(end));
}

/// Filtering a sorted entry sequence keeps it sorted, and every kept entry
/// comes from the original sequence.
pub proof fn lemma_range_filter_sorted(
    s: Seq<(Seq<u8>, Seq<u8>)>,
    start: Option<Seq<u8>>,
    end: Option<Seq<u8>>,
)
    requires
        sorted_entries(s),
    ensures
        sorted_entries(range_filter(s, start, end)),
        forall|i: int|
            0 <= i < range_filter(s, start, end).len() ==> exists|w: int|
                0 <= w < s.len() && #[trigger] range_filter(s, start, end)[i] == s[w],
    decreases s.len(),
{
    reveal_with_fuel(Seq::filter, 1);
    if s.len() > 0 {
        let t = s.drop_last();
        assert forall|a: int, b: int| 0 <= a < b < t.len() implies lex_lt(
            (#[trigger] t[a]).0,
            (#[trigger] t[b]).0,
        ) by {
            assert(t[a] == s[a]);
            assert(t[b] == s[b]);
        }
        lemma_range_filter_sorted(t, start, end);
        let f0 = range_filter(t, start, end);
        let f = range_filter(s, start, end);
        if in_range(s.last().0, start, end) {
            assert(f == f0.push(s.last()));
            assert forall|a: int, b: int| 0 <= a < b < f.len() implies lex_lt(
                (#[trigger] f[a]).0,
                (#[trigger] f[b]).0,
            ) by {
                if b < f.len() - 1 {
                    assert(f[a] == f0[a]);
                    assert(f[b] == f0[b]);
                } else {
                    assert(f[b] == s.last());
                    assert(f[a] == f0[a]);
                    let w = choose|w: int| 0 <= w < t.len() && f0[a] == t[w];
                    assert(s[w] == t[w]);
                    assert(lex_lt(s[w].0, s[s.len() - 1].0));
                }
            }
            assert forall|i: int| 0 <= i < f.len() implies exists|w: int|
                0 <= w < s.len() && #[trigger] f[i] == s[w] by {
                if i < f.len() - 1 {
                    let w = choose|w: int| 0 <= w < t.len() && f0[i] == t[w];
                    assert(f[i] == s[w]);
                } else {
                    assert(f[i] == s[s.len() - 1]);
                }
            }
        } else {
            assert(f == f0);
            assert forall|i: int| 0 <= i < f.len() implies exists|w: int|
                0 <= w < s.len() && #[trigger] f[i] == s[w] by {
                let w = choose|w: int| 0 <= w < t.len() && f0[i] == t[w];
                assert(f[i] == s[w]);
            }
        }
    }
}

/// An ascending snapshot lists keys in ascending lexicographic order; a
/// descending snapshot lists the same keys in descending order.
pub proof fn lemma_snapshot_ordered(
    s: Seq<(Seq<u8>, Seq<u8>)>,
    start: Option<Seq<u8>>,
    end: Option<Seq<u8>>,
)
    requires
        sorted_entries(s),
    ensures
        sorted_entries(range_snapshot(s, start, end, Order::Ascending)),
        forall|i: int, j: int|
            0 <= i < j < range_snapshot(s, start, end, Order::Descending).len() ==> lex_lt(
                (#[trigger] range_snapshot(s, start, end, Order::Descending)[j]).0,
                (#[trigger] range_snapshot(s, start, end, Order::Descending)[i]).0,
            ),
{
    lemma_range_filter_sorted(s, start, end);
    let f = range_filter(s, start, end);
    let d = range_snapshot(s, start, end, Order::Descending);
    assert forall|i: int, j: int| 0 <= i < j < d.len() implies lex_lt(
        (#[trigger] d[j]).0,
        (#[trigger] d[i]).0,
    ) by {
        assert(d[i] == f[f.len() - 1 - i]);
        assert(d[j] == f[f.len() - 1 - j]);
    }
}

} // verus!
