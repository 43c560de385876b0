//! The subscriber index of one plan: a list of (address key, subscription id)
//! entries kept strictly sorted by key, supporting point lookup, upsert,
//! removal and cursor pagination in ascending key order.

use vstd::prelude::*;
use vstd::pervasive::VecAdditionalExecFns;

use crate::keys::{
    compare_keys, key_lt, lemma_key_lt_asymmetric, lemma_key_lt_connected,
    lemma_key_lt_irreflexive, lemma_key_lt_transitive, KeyOrder,
};

verus! {

/// One entry of a plan's subscriber index: the subscriber's address key and
/// the current subscription id for that subscriber and plan.
pub struct SubscriberEntry {
    /// The subscriber's address, as its UTF-8 bytes.
    pub key: Vec<u8>,
    /// The id of the subscription this entry points at.
    pub subscription_id: u64,
}

impl View for SubscriberEntry {
    type V = (Seq<u8>, u64);

    open spec fn view(&self) -> (Seq<u8>, u64) {
        (self.key@, self.subscription_id)
    }
}

/// The entries of a subscriber index, as key/id pairs.
pub open spec fn subscribers_view(entries: Seq<SubscriberEntry>) -> Seq<(Seq<u8>, u64)> {
    entries.map_values(|e: SubscriberEntry| e@)
}

/// The index of the first entry whose key is `k`, or the length if none is.
pub open spec fn key_find(entries: Seq<(Seq<u8>, u64)>, k: Seq<u8>) -> int
    decreases entries.len(),
{
    if entries.len() == 0 {
        0
    } else if entries[0].0 == k {
        0
    } else {
        1 + key_find(entries.drop_first(), k)
    }
}

/// What `key_find` returns: the position of the first entry keyed `k`, with
/// no earlier match, or the length if no entry is keyed `k`.
pub proof fn lemma_key_find(entries: Seq<(Seq<u8>, u64)>, k: Seq<u8>)
    ensures
        0 <= key_find(entries, k) <= entries.len(),
        forall|i: int| 0 <= i < key_find(entries, k) ==> entries[i].0 != k,
        key_find(entries, k) < entries.len() ==> entries[key_find(entries, k)].0 == k,
    decreases entries.len(),
{
    if entries.len() > 0 && entries[0].0 != k {
        lemma_key_find(entries.drop_first(), k);
        assert forall|i: int| 0 <= i < key_find(entries, k) implies entries[i].0 != k by {
            if i > 0 {
                assert(entries.drop_first()[i - 1] == entries[i]);
            }
        }
        if key_find(entries, k) < entries.len() {
            assert(entries.drop_first()[key_find(entries, k) - 1] == entries[key_find(entries, k)]);
        }
    }
}

/// The id the index holds for key `k`, if any.
pub open spec fn key_lookup(entries: Seq<(Seq<u8>, u64)>, k: Seq<u8>) -> Option<u64> {
    let j = key_find(entries, k);
    if j < entries.len() {
        Option::Some(entries[j].1)
    } else {
        Option::None
    }
}

/// The index of the first entry whose key does not sort before `k`, or the
/// length if every key does: where an entry keyed `k` belongs.
pub open spec fn key_pos(entries: Seq<(Seq<u8>, u64)>, k: Seq<u8>) -> int
    decreases entries.len(),
{
    if entries.len() == 0 {
        0
    } else if !key_lt(entries[0].0, k) {
        0
    } else {
        1 + key_pos(entries.drop_first(), k)
    }
}

/// What `key_pos` returns: every earlier key sorts before `k` and the key at
/// the position, if any, does not.
pub proof fn lemma_key_pos(entries: Seq<(Seq<u8>, u64)>, k: Seq<u8>)
    ensures
        0 <= key_pos(entries, k) <= entries.len(),
        forall|i: int| 0 <= i < key_pos(entries, k) ==> key_lt(entries[i].0, k),
        key_pos(entries, k) < entries.len() ==> !key_lt(entries[key_pos(entries, k)].0, k),
    decreases entries.len(),
{
    if entries.len() > 0 && key_lt(entries[0].0, k) {
        lemma_key_pos(entries.drop_first(), k);
        assert forall|i: int| 0 <= i < key_pos(entries, k) implies key_lt(entries[i].0, k) by {
            if i > 0 {
                assert(entries.drop_first()[i - 1] == entries[i]);
            }
        }
        if key_pos(entries, k) < entries.len() {
            assert(entries.drop_first()[key_pos(entries, k) - 1] == entries[key_pos(entries, k)]);
        }
    }
}

/// The index with the entry for `k` set to `id`: overwritten in place when
/// `k` is present, inserted at its sort position when it is not.
pub open spec fn key_upsert(entries: Seq<(Seq<u8>, u64)>, k: Seq<u8>, id: u64) -> Seq<
    (Seq<u8>, u64),
> {
    let j = key_find(entries, k);
    if j < entries.len() {
        entries.update(j, (k, id))
    } else {
        entries.insert(key_pos(entries, k), (k, id))
    }
}

/// The index with the first entry keyed `k` removed; unchanged when `k` is
/// absent.
pub open spec fn key_remove(entries: Seq<(Seq<u8>, u64)>, k: Seq<u8>) -> Seq<(Seq<u8>, u64)> {
    let j = key_find(entries, k);
    if j < entries.len() {
        entries.remove(j)
    } else {
        entries
    }
}

/// Whether the entries are strictly ascending by key.
pub open spec fn subscribers_sorted(entries: Seq<(Seq<u8>, u64)>) -> bool {
    forall|i: int, j: int|
        0 <= i < j < entries.len() ==> key_lt(#[trigger] entries[i].0, #[trigger] entries[j].0)
}

/// In a sorted index all keys are distinct.
pub proof fn lemma_sorted_keys_distinct(entries: Seq<(Seq<u8>, u64)>, i: int, j: int)
    requires
        subscribers_sorted(entries),
        0 <= i < j < entries.len(),
    ensures
        entries[i].0 != entries[j].0,
{
    lemma_key_lt_irreflexive(entries[i].0);
}

/// Whether a key lies strictly after an optional exclusive lower bound.
pub open spec fn after_start(k: Seq<u8>, start_after: Option<Seq<u8>>) -> bool {
    match start_after {
        Option::None => true,
        Option::Some(s) => key_lt(s, k),
    }
}

/// The first `limit` entries whose keys lie strictly after `start_after`, in
/// index order.
pub open spec fn page_of(
    entries: Seq<(Seq<u8>, u64)>,
    start_after: Option<Seq<u8>>,
    limit: int,
) -> Seq<(Seq<u8>, u64)>
    decreases entries.len(),
{
    if entries.len() == 0 || limit <= 0 {
        Seq::empty()
    } else if after_start(entries[0].0, start_after) {
        seq![entries[0]] + page_of(entries.drop_first(), start_after, limit - 1)
    } else {
        page_of(entries.drop_first(), start_after, limit)
    }
}

/// Looks up the subscription id the index holds for `k`.
#[verifier::loop_isolation(false)]
pub fn subscriber_lookup(entries: &Vec<SubscriberEntry>, k: &Vec<u8>) -> (r: Option<u64>)
    ensures
        r == key_lookup(subscribers_view(entries@), k@),
{
    proof {
        lemma_key_find(subscribers_view(entries@), k@);
    }
    let ghost v = subscribers_view(entries@);
    let mut i: usize = 0;
    while i < entries.len()
        invariant
            0 <= i <= entries.len(),
            v == subscribers_view(entries@),
            v.len() == entries.len(),
            forall|j: int| 0 <= j < i ==> v[j].0 != k@,
            0 <= key_find(v, k@) <= v.len(),
            forall|j: int| 0 <= j < key_find(v, k@) ==> v[j].0 != k@,
            key_find(v, k@) < v.len() ==> v[key_find(v, k@)].0 == k@,
        decreases entries.len() - i,
    {
        let o = compare_keys(&entries[i].key, k);
        if matches!(o, KeyOrder::Equal) {
            proof {
                assert(v[i as int].0 == k@);
                assert(key_find(v, k@) == i as int);
            }
            return Some(entries[i].subscription_id);
        }
        proof {
            assert(v[i as int].0 != k@);
        }
        i += 1;
    }
    proof {
        assert(key_find(v, k@) == v.len());
    }
    None
}

/// Sets the entry for key `k` to `id`, keeping the index sorted.
#[verifier::loop_isolation(false)]
pub fn subscriber_upsert(entries: &mut Vec<SubscriberEntry>, k: Vec<u8>, id: u64)
    requires
        subscribers_sorted(subscribers_view(old(entries)@)),
    ensures
        subscribers_view(final(entries)@) == key_upsert(subscribers_view(old(entries)@), k@, id),
        subscribers_sorted(subscribers_view(final(entries)@)),
{
    let ghost v = subscribers_view(old(entries)@);
    proof {
        lemma_key_find(v, k@);
        lemma_key_pos(v, k@);
    }
    let mut i: usize = 0;
    while i < entries.len()
        invariant
            0 <= i <= entries.len(),
            v == subscribers_view(entries@),
            v.len() == entries.len(),
            forall|j: int| 0 <= j < i ==> key_lt(v[j].0, k@),
        decreases entries.len() - i,
    {
        let o = compare_keys(&entries[i].key, &k);
        match o {
            KeyOrder::Less => {
                i += 1;
            },
            KeyOrder::Equal => {
                proof {
                    assert(v[i as int].0 == k@);
                    assert(key_find(v, k@) == i as int) by {
                        if key_find(v, k@) < i as int {
                            lemma_key_lt_irreflexive(k@);
                        }
                    }
                }
                entries.set(i, SubscriberEntry { key: k, subscription_id: id });
                proof {
                    let v2 = subscribers_view(entries@);
                    assert(v2 =~= key_upsert(v, k@, id));
                    assert forall|a: int, b: int| 0 <= a < b < v2.len() implies key_lt(
                        v2[a].0,
                        v2[b].0,
                    ) by {
                        assert(v2[a].0 == v[a].0);
                        assert(v2[b].0 == v[b].0);
                    }
                }
                return ;
            },
            KeyOrder::Greater => {
                proof {
                    lemma_key_lt_irreflexive(k@);
                    assert(key_lt(k@, v[i as int].0));
                    lemma_key_lt_asymmetric(k@, v[i as int].0);
                    assert(v[i as int].0 != k@);
                    assert forall|j: int| 0 <= j < i implies v[j].0 != k@ by {
                        assert(key_lt(v[j].0, k@));
                    }
                    // no later entry can match or precede k either
                    assert forall|j: int| i <= j < v.len() implies v[j].0 != k@ && !key_lt(
                        v[j].0,
                        k@,
                    ) by {
                        if j > i as int {
                            lemma_key_lt_transitive(k@, v[i as int].0, v[j].0);
                        }
                        lemma_key_lt_asymmetric(k@, v[j].0);
                        lemma_key_lt_irreflexive(k@);
                    }
                    assert(key_find(v, k@) == v.len());
                    assert(key_pos(v, k@) == i as int);
                }
                entries.insert(i, SubscriberEntry { key: k, subscription_id: id });
                proof {
                    let v2 = subscribers_view(entries@);
                    assert(v2 =~= v.insert(i as int, (k@, id)));
                    assert(v2 =~= key_upsert(v, k@, id));
                    assert forall|a: int, b: int| 0 <= a < b < v2.len() implies key_lt(
                        v2[a].0,
                        v2[b].0,
                    ) by {
                        let lo = i as int;
                        if a < lo && b == lo {
                            assert(v2[a].0 == v[a].0);
                            assert(key_lt(v[a].0, k@));
                        } else if a == lo && b > lo {
                            assert(v2[b].0 == v[b - 1].0);
                            assert(b - 1 >= lo);
                            assert(key_lt(k@, v[b - 1].0)) by {
                                if b - 1 > lo {
                                    lemma_key_lt_transitive(k@, v[lo].0, v[b - 1].0);
                                } else {
                                    lemma_key_lt_connected(k@, v[lo].0);
                                }
                            }
                        } else if a < lo && b > lo {
                            assert(v2[a].0 == v[a].0);
                            assert(v2[b].0 == v[b - 1].0);
                            if b - 1 == a {
                                assert(key_lt(v[a].0, k@));
                                assert(key_lt(k@, v[b - 1].0));
                                lemma_key_lt_transitive(v[a].0, k@, v[b - 1].0);
                            }
                        } else if a > lo && b > lo {
                            assert(v2[a].0 == v[a - 1].0);
                            assert(v2[b].0 == v[b - 1].0);
                        } else if a < lo && b < lo {
                            assert(v2[a].0 == v[a].0);
                            assert(v2[b].0 == v[b].0);
                        }
                    }
                }
                return ;
            },
        }
    }
    proof {
        // every key sorts before k: the entry belongs at the end
        assert(key_find(v, k@) == v.len()) by {
            if key_find(v, k@) < v.len() {
                lemma_key_lt_irreflexive(k@);
            }
        }
        assert(key_pos(v, k@) == v.len());
    }
    entries.push(SubscriberEntry { key: k, subscription_id: id });
    proof {
        let v2 = subscribers_view(entries@);
        assert(v2 =~= v.insert(v.len() as int, (k@, id)));
        assert(v2 =~= key_upsert(v, k@, id));
        assert forall|a: int, b: int| 0 <= a < b < v2.len() implies key_lt(v2[a].0, v2[b].0) by {
            if b < v.len() {
                assert(v2[a].0 == v[a].0);
                assert(v2[b].0 == v[b].0);
            } else {
                assert(v2[a].0 == v[a].0);
                assert(v2[b].0 == k@);
            }
        }
    }
}

/// Removes the entry for key `k`; absent keys are a no-op.
#[verifier::loop_isolation(false)]
pub fn subscriber_remove(entries: &mut Vec<SubscriberEntry>, k: &Vec<u8>)
    requires
        subscribers_sorted(subscribers_view(old(entries)@)),
    ensures
        subscribers_view(final(entries)@) == key_remove(subscribers_view(old(entries)@), k@),
        subscribers_sorted(subscribers_view(final(entries)@)),
{
    let ghost v = subscribers_view(old(entries)@);
    proof {
        lemma_key_find(v, k@);
    }
    let mut i: usize = 0;
    while i < entries.len()
        invariant
            0 <= i <= entries.len(),
            v == subscribers_view(entries@),
            v.len() == entries.len(),
            forall|j: int| 0 <= j < i ==> v[j].0 != k@,
        decreases entries.len() - i,
    {
        let o = compare_keys(&entries[i].key, k);
        if matches!(o, KeyOrder::Equal) {
            proof {
                assert(v[i as int].0 == k@);
                assert(key_find(v, k@) == i as int);
            }
            entries.remove(i);
            proof {
                let v2 = subscribers_view(entries@);
                assert(v2 =~= v.remove(i as int));
                assert(v2 =~= key_remove(v, k@));
                assert forall|a: int, b: int| 0 <= a < b < v2.len() implies key_lt(
                    v2[a].0,
                    v2[b].0,
                ) by {
                    let lo = i as int;
                    if a < lo && b < lo {
                        assert(v2[a] == v[a] && v2[b] == v[b]);
                    } else if a < lo && b >= lo {
                        assert(v2[a] == v[a] && v2[b] == v[b + 1]);
                    } else {
                        assert(v2[a] == v[a + 1] && v2[b] == v[b + 1]);
                    }
                }
            }
            return ;
        }
        proof {
            assert(v[i as int].0 != k@);
        }
        i += 1;
    }
    proof {
        assert(key_find(v, k@) == v.len());
        assert(subscribers_view(entries@) == key_remove(v, k@));
    }
}

/// Collects up to `limit` subscription ids whose keys lie strictly after
/// `start_after`, in ascending key order.
#[verifier::loop_isolation(false)]
pub fn subscriber_page(
    entries: &Vec<SubscriberEntry>,
    start_after: &Option<Vec<u8>>,
    limit: usize,
) -> (r: Vec<u64>)
    ensures
        r@ == page_of(
            subscribers_view(entries@),
            match start_after {
                Option::Some(s) => Option::Some(s@),
                Option::None => Option::None,
            },
            limit as int,
        ).map_values(|p: (Seq<u8>, u64)| p.1),
{
    let ghost v = subscribers_view(entries@);
    let ghost sa = match start_after {
        Option::Some(s) => Option::Some(s@),
        Option::None => Option::None,
    };
    let mut out: Vec<u64> = Vec::new();
    let ghost mut taken: Seq<(Seq<u8>, u64)> = Seq::empty();
    let mut i: usize = 0;
    proof {
        assert(v.skip(0) =~= v);
    }
    while i < entries.len() && out.len() < limit
        invariant
            0 <= i <= entries.len(),
            v == subscribers_view(entries@),
            v.len() == entries.len(),
            out@.len() == taken.len(),
            out@.len() <= limit,
            out@ == taken.map_values(|p: (Seq<u8>, u64)| p.1),
            page_of(v, sa, limit as int) == taken + page_of(
                v.skip(i as int),
                sa,
                limit - out@.len(),
            ),
        decreases entries.len() - i,
    {
        proof {
            assert(v.skip(i as int)[0] == v[i as int]);
            assert(v.skip(i as int).drop_first() =~= v.skip(i + 1));
        }
        let keep = match start_after {
            None => true,
            Some(s) => {
                let o = compare_keys(s, &entries[i].key);
                matches!(o, KeyOrder::Less)
            },
        };
        if keep {
            proof {
                assert(after_start(v[i as int].0, sa));
                assert(page_of(v.skip(i as int), sa, limit - out@.len()) == seq![v[i as int]]
                    + page_of(v.skip(i + 1), sa, limit - out@.len() - 1));
            }
            out.push(entries[i].subscription_id);
            proof {
                let t0 = taken;
                let rest = page_of(v.skip(i + 1), sa, limit - out@.len());
                assert(page_of(v, sa, limit as int) == t0 + (seq![v[i as int]] + rest));
                assert(t0 + (seq![v[i as int]] + rest) =~= t0.push(v[i as int]) + rest);
                taken = t0.push(v[i as int]);
                assert(out@ =~= taken.map_values(|p: (Seq<u8>, u64)| p.1));
            }
        } else {
            proof {
                assert(!after_start(v[i as int].0, sa));
                assert(page_of(v.skip(i as int), sa, limit - out@.len()) == page_of(
                    v.skip(i + 1),
                    sa,
                    limit - out@.len(),
                ));
            }
        }
        i += 1;
    }
    proof {
        if i == entries.len() {
            assert(v.skip(i as int) =~= Seq::<(Seq<u8>, u64)>::empty());
            assert(page_of(v.skip(i as int), sa, limit - out@.len()) =~= Seq::<
                (Seq<u8>, u64),
            >::empty());
        } else {
            assert(out@.len() == limit);
            assert(page_of(v.skip(i as int), sa, 0) =~= Seq::<(Seq<u8>, u64)>::empty());
        }
        assert(taken + Seq::<(Seq<u8>, u64)>::empty() =~= taken);
        assert(out@ =~= page_of(v, sa, limit as int).map_values(|p: (Seq<u8>, u64)| p.1));
    }
    out
}

// The lemmas below relate the operations to `key_lookup`: what an operation
// does to the looked-up id of the touched key, and that every other key's id
// is untouched. Callers maintaining invariants over whole indexes use them.
/// In a sorted index, looking an entry's own key up yields that entry.
pub proof fn lemma_sorted_lookup_self(entries: Seq<(Seq<u8>, u64)>, i: int)
    requires
        subscribers_sorted(entries),
        0 <= i < entries.len(),
    ensures
        key_lookup(entries, entries[i].0) == Option::Some(entries[i].1),
{
    lemma_key_find(entries, entries[i].0);
    let f = key_find(entries, entries[i].0);
    if f < i {
        lemma_sorted_keys_distinct(entries, f, i);
    }
    assert(f == i);
}

/// After an upsert the touched key holds the new id and every other key is
/// untouched.
pub proof fn lemma_key_upsert_lookup(entries: Seq<(Seq<u8>, u64)>, k: Seq<u8>, id: u64)
    requires
        subscribers_sorted(entries),
    ensures
        key_lookup(key_upsert(entries, k, id), k) == Option::Some(id),
        forall|k2: Seq<u8>|
            k2 != k ==> key_lookup(key_upsert(entries, k, id), k2) == key_lookup(entries, k2),
{
    let r = key_upsert(entries, k, id);
    let f = key_find(entries, k);
    lemma_key_find(entries, k);
    lemma_key_pos(entries, k);
    lemma_key_lt_irreflexive(k);
    if f < entries.len() {
        // overwrite in place: the key sequence is unchanged
        assert forall|i: int| 0 <= i < r.len() implies r[i].0 == entries[i].0 by {}
        lemma_key_find(r, k);
        assert(key_find(r, k) == f);
        assert(key_lookup(r, k) == Option::Some(id));
        assert forall|k2: Seq<u8>| k2 != k implies key_lookup(r, k2) == key_lookup(entries, k2) by {
            lemma_key_find(r, k2);
            lemma_key_find(entries, k2);
            let m = key_find(entries, k2);
            let m2 = key_find(r, k2);
            if m < entries.len() {
                assert(r[m].0 == k2);
                assert(m2 == m);
                assert(m != f);
            } else {
                assert forall|i: int| 0 <= i < r.len() implies r[i].0 != k2 by {}
                assert(m2 == r.len());
            }
        }
    } else {
        let p = key_pos(entries, k);
        assert(r == entries.insert(p, (k, id)));
        assert forall|i: int| 0 <= i < p implies r[i] == entries[i] && r[i].0 != k by {
            assert(key_lt(entries[i].0, k));
        }
        lemma_key_find(r, k);
        assert(r[p].0 == k);
        assert(key_find(r, k) == p);
        assert(key_lookup(r, k) == Option::Some(id));
        assert forall|k2: Seq<u8>| k2 != k implies key_lookup(r, k2) == key_lookup(entries, k2) by {
            lemma_key_find(r, k2);
            lemma_key_find(entries, k2);
            let m = key_find(entries, k2);
            if m < entries.len() {
                let m2 = if m < p {
                    m
                } else {
                    m + 1
                };
                assert(r[m2] == entries[m]);
                assert forall|i: int| 0 <= i < m2 implies r[i].0 != k2 by {
                    if i < p {
                        assert(r[i] == entries[i]);
                    } else if i == p {
                        assert(r[i].0 == k);
                    } else {
                        assert(r[i] == entries[i - 1]);
                    }
                }
                assert(key_find(r, k2) == m2);
            } else {
                assert forall|i: int| 0 <= i < r.len() implies r[i].0 != k2 by {
                    if i < p {
                        assert(r[i] == entries[i]);
                    } else if i == p {
                        assert(r[i].0 == k);
                    } else {
                        assert(r[i] == entries[i - 1]);
                    }
                }
                assert(key_find(r, k2) == r.len());
            }
        }
    }
}

/// After a removal the touched key is gone and every other key is untouched.
pub proof fn lemma_key_remove_lookup(entries: Seq<(Seq<u8>, u64)>, k: Seq<u8>)
    requires
        subscribers_sorted(entries),
    ensures
        key_lookup(key_remove(entries, k), k) == Option::None::<u64>,
        forall|k2: Seq<u8>|
            k2 != k ==> key_lookup(key_remove(entries, k), k2) == key_lookup(entries, k2),
{
    let r = key_remove(entries, k);
    let f = key_find(entries, k);
    lemma_key_find(entries, k);
    if f < entries.len() {
        assert(r == entries.remove(f));
        assert forall|i: int| 0 <= i < r.len() implies r[i].0 != k by {
            if i < f {
                assert(r[i] == entries[i]);
            } else {
                assert(r[i] == entries[i + 1]);
                lemma_sorted_keys_distinct(entries, f, i + 1);
            }
        }
        lemma_key_find(r, k);
        assert(key_find(r, k) == r.len());
        assert forall|k2: Seq<u8>| k2 != k implies key_lookup(r, k2) == key_lookup(entries, k2) by {
            lemma_key_find(r, k2);
            lemma_key_find(entries, k2);
            let m = key_find(entries, k2);
            if m < entries.len() {
                assert(m != f);
                let m2 = if m < f {
                    m
                } else {
                    m - 1
                };
                assert(r[m2] == entries[m]);
                assert forall|i: int| 0 <= i < m2 implies r[i].0 != k2 by {
                    if i < f {
                        assert(r[i] == entries[i]);
                    } else {
                        assert(r[i] == entries[i + 1]);
                    }
                }
                assert(key_find(r, k2) == m2);
            } else {
                assert forall|i: int| 0 <= i < r.len() implies r[i].0 != k2 by {
                    if i < f {
                        assert(r[i] == entries[i]);
                    } else {
                        assert(r[i] == entries[i + 1]);
                    }
                }
                assert(key_find(r, k2) == r.len());
            }
        }
    }
}

/// Every entry an upsert leaves in the index is either an old entry or the
/// upserted one.
pub proof fn lemma_key_upsert_membership(entries: Seq<(Seq<u8>, u64)>, k: Seq<u8>, id: u64)
    ensures
        forall|i: int|
            0 <= i < key_upsert(entries, k, id).len() ==> (exists|j: int|
                0 <= j < entries.len() && #[trigger] key_upsert(entries, k, id)[i] == entries[j])
                || key_upsert(entries, k, id)[i] == (k, id),
{
    let r = key_upsert(entries, k, id);
    let f = key_find(entries, k);
    lemma_key_find(entries, k);
    lemma_key_pos(entries, k);
    let p = key_pos(entries, k);
    assert forall|i: int|
        0 <= i < r.len() implies (exists|j: int| 0 <= j < entries.len() && #[trigger] r[i]
            == entries[j]) || r[i] == (k, id) by {
        if f < entries.len() {
            if i != f {
                assert(r[i] == entries[i]);
            }
        } else {
            if i < p {
                assert(r[i] == entries[i]);
            } else if i > p {
                assert(r[i] == entries[i - 1]);
            }
        }
    }
}

/// Every entry a removal leaves in the index is an old entry.
pub proof fn lemma_key_remove_membership(entries: Seq<(Seq<u8>, u64)>, k: Seq<u8>)
    ensures
        forall|i: int|
            0 <= i < key_remove(entries, k).len() ==> exists|j: int|
                0 <= j < entries.len() && #[trigger] key_remove(entries, k)[i] == entries[j],
{
    let r = key_remove(entries, k);
    let f = key_find(entries, k);
    lemma_key_find(entries, k);
    assert forall|i: int|
        0 <= i < r.len() implies exists|j: int|
        0 <= j < entries.len() && #[trigger] r[i] == entries[j] by {
        if f < entries.len() {
            if i < f {
                assert(r[i] == entries[i]);
            } else {
                assert(r[i] == entries[i + 1]);
            }
        } else {
            assert(r[i] == entries[i]);
        }
    }
}

/// An upsert keeps the index sorted.
pub proof fn lemma_key_upsert_sorted(entries: Seq<(Seq<u8>, u64)>, k: Seq<u8>, id: u64)
    requires
        subscribers_sorted(entries),
    ensures
        subscribers_sorted(key_upsert(entries, k, id)),
{
    let r = key_upsert(entries, k, id);
    let f = key_find(entries, k);
    lemma_key_find(entries, k);
    lemma_key_pos(entries, k);
    lemma_key_lt_irreflexive(k);
    if f < entries.len() {
        assert(entries[f].0 == k);
        assert forall|a: int, b: int| 0 <= a < b < r.len() implies key_lt(r[a].0, r[b].0) by {
            assert(r[a].0 == entries[a].0);
            assert(r[b].0 == entries[b].0);
        }
    } else {
        let p = key_pos(entries, k);
        assert(r == entries.insert(p, (k, id)));
        // the key at the position, if any, sorts strictly after k
        assert(p < entries.len() ==> key_lt(k, entries[p].0)) by {
            if p < entries.len() {
                lemma_key_lt_connected(k, entries[p].0);
            }
        }
        assert forall|a: int, b: int| 0 <= a < b < r.len() implies key_lt(r[a].0, r[b].0) by {
            if a < p && b == p {
                assert(r[a].0 == entries[a].0);
                assert(key_lt(entries[a].0, k));
            } else if a == p && b > p {
                assert(r[b].0 == entries[b - 1].0);
                assert(key_lt(k, entries[b - 1].0)) by {
                    if b - 1 > p {
                        lemma_key_lt_transitive(k, entries[p].0, entries[b - 1].0);
                    }
                }
            } else if a < p && b > p {
                assert(r[a].0 == entries[a].0);
                assert(r[b].0 == entries[b - 1].0);
                if b - 1 == a {
                    lemma_key_lt_transitive(entries[a].0, k, entries[b - 1].0);
                }
            } else if a > p && b > p {
                assert(r[a].0 == entries[a - 1].0);
                assert(r[b].0 == entries[b - 1].0);
            } else {
                assert(r[a].0 == entries[a].0);
                assert(r[b].0 == entries[b].0);
            }
        }
    }
}

/// A removal keeps the index sorted.
pub proof fn lemma_key_remove_sorted(entries: Seq<(Seq<u8>, u64)>, k: Seq<u8>)
    requires
        subscribers_sorted(entries),
    ensures
        subscribers_sorted(key_remove(entries, k)),
{
    let r = key_remove(entries, k);
    let f = key_find(entries, k);
    lemma_key_find(entries, k);
    if f < entries.len() {
        assert forall|a: int, b: int| 0 <= a < b < r.len() implies key_lt(r[a].0, r[b].0) by {
            if a < f && b < f {
                assert(r[a] == entries[a] && r[b] == entries[b]);
            } else if a < f && b >= f {
                assert(r[a] == entries[a] && r[b] == entries[b + 1]);
            } else {
                assert(r[a] == entries[a + 1] && r[b] == entries[b + 1]);
            }
        }
    }
}

/// Every entry a page holds is an entry of the index.
pub proof fn lemma_page_of_membership(
    entries: Seq<(Seq<u8>, u64)>,
    start_after: Option<Seq<u8>>,
    limit: int,
)
    ensures
        forall|i: int|
            0 <= i < page_of(entries, start_after, limit).len() ==> exists|j: int|
                0 <= j < entries.len() && #[trigger] page_of(entries, start_after, limit)[i]
                    == entries[j],
    decreases entries.len(),
{
    let p = page_of(entries, start_after, limit);
    if entries.len() == 0 || limit <= 0 {
    } else {
        lemma_page_of_membership(entries.drop_first(), start_after, limit - 1);
        lemma_page_of_membership(entries.drop_first(), start_after, limit);
        assert forall|i: int|
            0 <= i < p.len() implies exists|j: int| 0 <= j < entries.len() && #[trigger] p[i]
                == entries[j] by {
            if after_start(entries[0].0, start_after) {
                if i == 0 {
                    assert(p[i] == entries[0]);
                } else {
                    let pd = page_of(entries.drop_first(), start_after, limit - 1);
                    assert(p[i] == pd[i - 1]);
                    let j = choose|j: int|
                        0 <= j < entries.drop_first().len() && pd[i - 1] == entries.drop_first()[j];
                    assert(p[i] == entries[j + 1]);
                }
            } else {
                let pd = page_of(entries.drop_first(), start_after, limit);
                assert(p[i] == pd[i]);
                let j = choose|j: int|
                    0 <= j < entries.drop_first().len() && pd[i] == entries.drop_first()[j];
                assert(p[i] == entries[j + 1]);
            }
        }
    }
}

/// A page never exceeds its limit.
pub proof fn lemma_page_of_bounded(
    entries: Seq<(Seq<u8>, u64)>,
    start_after: Option<Seq<u8>>,
    limit: int,
)
    requires
        0 <= limit,
    ensures
        page_of(entries, start_after, limit).len() <= limit,
    decreases entries.len(),
{
    if entries.len() == 0 || limit <= 0 {
    } else {
        lemma_page_of_bounded(entries.drop_first(), start_after, limit - 1);
        lemma_page_of_bounded(entries.drop_first(), start_after, limit);
    }
}

} // verus!
