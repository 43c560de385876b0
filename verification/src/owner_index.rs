//! The owner index: for each address that created an organization, the list
//! of its organization ids in creation order. One entry per owner.

use vstd::prelude::*;

verus! {

/// One owner's entry: the address and the ids of the organizations it owns,
/// in creation order.
pub struct OwnerOrgsEntry {
    /// The owner's address.
    pub owner: String,
    /// The ids of the organizations the owner created, oldest first.
    pub organization_ids: Vec<u32>,
}

impl View for OwnerOrgsEntry {
    type V = (String, Seq<u32>);

    open spec fn view(&self) -> (String, Seq<u32>) {
        (self.owner, self.organization_ids@)
    }
}

/// The outer index as address/id-list entries.
pub open spec fn owners_view(entries: Seq<OwnerOrgsEntry>) -> Seq<(String, Seq<u32>)> {
    entries.map_values(|e: OwnerOrgsEntry| e@)
}

/// The index of the first entry for `owner`, or the length if none is.
pub open spec fn owner_find(entries: Seq<(String, Seq<u32>)>, owner: Seq<char>) -> int
    decreases entries.len(),
{
    if entries.len() == 0 {
        0
    } else if entries[0].0@ == owner {
        0
    } else {
        1 + owner_find(entries.drop_first(), owner)
    }
}

/// What `owner_find` returns: the position of the first entry for `owner`,
/// with no earlier match, or the length if no entry is for `owner`.
pub proof fn lemma_owner_find(entries: Seq<(String, Seq<u32>)>, owner: Seq<char>)
    ensures
        0 <= owner_find(entries, owner) <= entries.len(),
        forall|i: int| 0 <= i < owner_find(entries, owner) ==> entries[i].0@ != owner,
        owner_find(entries, owner) < entries.len() ==> entries[owner_find(entries, owner)].0@
            == owner,
    decreases entries.len(),
{
    if entries.len() > 0 && entries[0].0@ != owner {
        lemma_owner_find(entries.drop_first(), owner);
        assert forall|i: int| 0 <= i < owner_find(entries, owner) implies entries[i].0@
            != owner by {
            if i > 0 {
                assert(entries.drop_first()[i - 1] == entries[i]);
            }
        }
        if owner_find(entries, owner) < entries.len() {
            assert(entries.drop_first()[owner_find(entries, owner) - 1] == entries[owner_find(
                entries,
                owner,
            )]);
        }
    }
}

/// The id list the index holds for `owner`, if any.
pub open spec fn owner_lookup(entries: Seq<(String, Seq<u32>)>, owner: Seq<char>) -> Option<
    Seq<u32>,
> {
    let j = owner_find(entries, owner);
    if j < entries.len() {
        Option::Some(entries[j].1)
    } else {
        Option::None
    }
}

/// The index with `id` appended to `owner`'s list. An updated entry moves to
/// the back of the outer list; the outer order carries no meaning.
pub open spec fn owner_append(entries: Seq<(String, Seq<u32>)>, owner: String, id: u32) -> Seq<
    (String, Seq<u32>),
> {
    let j = owner_find(entries, owner@);
    if j < entries.len() {
        entries.remove(j).push((entries[j].0, entries[j].1.push(id)))
    } else {
        entries.push((owner, seq![id]))
    }
}

/// Whether the entries are for pairwise distinct owners.
pub open spec fn owners_distinct(entries: Seq<(String, Seq<u32>)>) -> bool {
    forall|i: int, j: int|
        0 <= i < j < entries.len() ==> #[trigger] entries[i].0@ != #[trigger] entries[j].0@
}

/// Finds the position of `owner`'s entry in the index.
#[verifier::loop_isolation(false)]
pub fn owner_index_find(entries: &Vec<OwnerOrgsEntry>, owner: &String) -> (r: Option<usize>)
    ensures
        r matches Some(j) ==> j < entries@.len() && owner_find(owners_view(entries@), owner@)
            == j as int,
        r is None ==> owner_find(owners_view(entries@), owner@) == owners_view(entries@).len(),
{
    let ghost v = owners_view(entries@);
    proof {
        lemma_owner_find(v, owner@);
    }
    let mut i: usize = 0;
    while i < entries.len()
        invariant
            0 <= i <= entries.len(),
            v.len() == entries.len(),
            forall|j: int| 0 <= j < i ==> v[j].0@ != owner@,
        decreases entries.len() - i,
    {
        proof {
            assert(v[i as int] == entries@[i as int]@);
        }
        if entries[i].owner == *owner {
            proof {
                assert(owner_find(v, owner@) == i as int);
            }
            return Some(i);
        }
        i += 1;
    }
    None
}

/// Appends `id` to `owner`'s organization list, creating the entry if it is
/// absent.
#[verifier::loop_isolation(false)]
pub fn owner_index_append(entries: &mut Vec<OwnerOrgsEntry>, owner: String, id: u32)
    requires
        owners_distinct(owners_view(old(entries)@)),
    ensures
        owners_view(final(entries)@) == owner_append(owners_view(old(entries)@), owner, id),
        owners_distinct(owners_view(final(entries)@)),
{
    let ghost v = owners_view(old(entries)@);
    proof {
        lemma_owner_find(v, owner@);
    }
    match owner_index_find(entries, &owner) {
        Some(j) => {
            let mut entry = entries.remove(j);
            proof {
                assert(entry@ == v[j as int]);
            }
            entry.organization_ids.push(id);
            entries.push(entry);
            proof {
                let v2 = owners_view(entries@);
                assert(v2 =~= v.remove(j as int).push((v[j as int].0, v[j as int].1.push(id))));
                assert(v2 =~= owner_append(v, owner, id));
                assert forall|a: int, b: int| 0 <= a < b < v2.len() implies v2[a].0@ != v2[b].0@ by {
                    let n = v2.len() - 1;
                    let lo = j as int;
                    if b < n {
                        if a < lo && b < lo {
                            assert(v2[a] == v[a] && v2[b] == v[b]);
                        } else if a < lo && b >= lo {
                            assert(v2[a] == v[a] && v2[b] == v[b + 1]);
                        } else {
                            assert(v2[a] == v[a + 1] && v2[b] == v[b + 1]);
                        }
                    } else {
                        assert(v2[b].0 == v[lo].0);
                        if a < lo {
                            assert(v2[a] == v[a]);
                        } else {
                            assert(v2[a] == v[a + 1]);
                        }
                    }
                }
            }
        },
        None => {
            let ids = vec![id];
            proof {
                assert(ids@ =~= seq![id]);
            }
            entries.push(OwnerOrgsEntry { owner, organization_ids: ids });
            proof {
                let v2 = owners_view(entries@);
                assert(v2 =~= owner_append(v, owner, id));
                assert forall|a: int, b: int| 0 <= a < b < v2.len() implies v2[a].0@ != v2[b].0@ by {
                    if b < v.len() {
                        assert(v2[a] == v[a] && v2[b] == v[b]);
                    } else {
                        assert(v2[a] == v[a]);
                    }
                }
            }
        },
    }
}

/// The entry an append writes: the owner's extended entry, or a fresh one
/// when the owner had none.
pub open spec fn owner_append_entry(entries: Seq<(String, Seq<u32>)>, owner: String, id: u32) -> (
    String,
    Seq<u32>,
) {
    let j = owner_find(entries, owner@);
    if j < entries.len() {
        (entries[j].0, entries[j].1.push(id))
    } else {
        (owner, seq![id])
    }
}

/// Every entry an append leaves in the index is either an old entry or the
/// written one.
pub proof fn lemma_owner_append_membership(entries: Seq<(String, Seq<u32>)>, owner: String, id: u32)
    ensures
        forall|i: int|
            0 <= i < owner_append(entries, owner, id).len() ==> (exists|j: int|
                0 <= j < entries.len() && #[trigger] owner_append(entries, owner, id)[i]
                    == entries[j]) || owner_append(entries, owner, id)[i] == owner_append_entry(
                entries,
                owner,
                id,
            ),
{
    let r = owner_append(entries, owner, id);
    let f = owner_find(entries, owner@);
    lemma_owner_find(entries, owner@);
    assert forall|i: int|
        0 <= i < r.len() implies (exists|j: int| 0 <= j < entries.len() && #[trigger] r[i]
            == entries[j]) || r[i] == owner_append_entry(entries, owner, id) by {
        if f < entries.len() {
            if i < r.len() - 1 {
                if i < f {
                    assert(r[i] == entries[i]);
                } else {
                    assert(r[i] == entries[i + 1]);
                }
            }
        } else {
            if i < entries.len() {
                assert(r[i] == entries[i]);
            }
        }
    }
}

/// After an append the touched owner's list gained exactly `id` at its back
/// and every other owner's list is untouched.
pub proof fn lemma_owner_append_lookup(entries: Seq<(String, Seq<u32>)>, owner: String, id: u32)
    requires
        owners_distinct(entries),
    ensures
        owner_lookup(owner_append(entries, owner, id), owner@) == Option::Some(
            match owner_lookup(entries, owner@) {
                Option::Some(ids) => ids.push(id),
                Option::None => seq![id],
            },
        ),
        forall|u2: Seq<char>|
            u2 != owner@ ==> owner_lookup(owner_append(entries, owner, id), u2) == owner_lookup(
                entries,
                u2,
            ),
{
    let r = owner_append(entries, owner, id);
    let f = owner_find(entries, owner@);
    lemma_owner_find(entries, owner@);
    if f < entries.len() {
        assert(r == entries.remove(f).push((entries[f].0, entries[f].1.push(id))));
        assert(r.len() == entries.len());
        assert forall|i: int| 0 <= i < r.len() - 1 implies r[i].0@ != owner@ by {
            if i < f {
                assert(r[i] == entries[i]);
            } else {
                assert(r[i] == entries[i + 1]);
            }
        }
        lemma_owner_find(r, owner@);
        assert(r[r.len() - 1].0@ == owner@);
        assert(owner_find(r, owner@) == r.len() - 1);
        assert forall|u2: Seq<char>| u2 != owner@ implies owner_lookup(r, u2) == owner_lookup(
            entries,
            u2,
        ) by {
            lemma_owner_find(r, u2);
            lemma_owner_find(entries, u2);
            let m = owner_find(entries, u2);
            if m < entries.len() {
                assert(m != f);
                let m2 = if m < f {
                    m
                } else {
                    m - 1
                };
                assert(r[m2] == entries[m]);
                assert forall|i: int| 0 <= i < m2 implies r[i].0@ != u2 by {
                    if i < f {
                        assert(r[i] == entries[i]);
                    } else {
                        assert(r[i] == entries[i + 1]);
                    }
                }
                assert(owner_find(r, u2) == m2);
            } else {
                assert forall|i: int| 0 <= i < r.len() implies r[i].0@ != u2 by {
                    if i < r.len() - 1 {
                        if i < f {
                            assert(r[i] == entries[i]);
                        } else {
                            assert(r[i] == entries[i + 1]);
                        }
                    } else {
                        assert(r[i].0@ == owner@);
                    }
                }
                assert(owner_find(r, u2) == r.len());
            }
        }
    } else {
        assert(r == entries.push((owner, seq![id])));
        assert forall|i: int| 0 <= i < entries.len() implies r[i] == entries[i] && r[i].0@
            != owner@ by {}
        lemma_owner_find(r, owner@);
        assert(r[entries.len() as int].0@ == owner@);
        assert(owner_find(r, owner@) == entries.len());
        assert forall|u2: Seq<char>| u2 != owner@ implies owner_lookup(r, u2) == owner_lookup(
            entries,
            u2,
        ) by {
            lemma_owner_find(r, u2);
            lemma_owner_find(entries, u2);
            let m = owner_find(entries, u2);
            if m < entries.len() {
                assert(r[m] == entries[m]);
                assert forall|i: int| 0 <= i < m implies r[i].0@ != u2 by {
                    assert(r[i] == entries[i]);
                }
                assert(owner_find(r, u2) == m);
            } else {
                assert forall|i: int| 0 <= i < r.len() implies r[i].0@ != u2 by {
                    if i < entries.len() {
                        assert(r[i] == entries[i]);
                    }
                }
                assert(owner_find(r, u2) == r.len());
            }
        }
    }
}

} // verus!
